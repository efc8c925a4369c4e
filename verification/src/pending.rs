//! Requests that wait for their replies.
use vstd::prelude::*;

use crate::keyed;
use crate::text;
use crate::text::copy_of;
use crate::uuid_text;
use crate::uuid_text::random_uuid;

verus! {

/// What a request is told apart by.
#[derive(Debug, PartialEq, Eq)]
pub enum RequestId {
    String(String),
    Integer(i64),
}

/// The view of a [`RequestId`].
pub enum RequestIdModel {
    String(Seq<char>),
    Integer(i64),
}

impl View for RequestId {
    type V = RequestIdModel;

    open spec fn view(&self) -> RequestIdModel {
        match self {
            RequestId::String(s) => RequestIdModel::String(s@),
            RequestId::Integer(n) => RequestIdModel::Integer(*n),
        }
    }
}

impl Clone for RequestId {
    fn clone(&self) -> (r: RequestId)
        ensures
            r@ == self@,
    {
        match self {
            RequestId::String(s) => RequestId::String(copy_of(s.as_str())),
            RequestId::Integer(n) => RequestId::Integer(*n),
        }
    }
}

impl RequestId {
    /// A new id, made at random.
    pub fn random() -> (r: RequestId)
        ensures
            r@ matches RequestIdModel::String(s) && uuid_text::is_uuid_text(s),
    {
        RequestId::String(random_uuid())
    }

    /// Whether two ids are the same.
    pub fn same(&self, other: &RequestId) -> (r: bool)
        ensures
            r == (self@ == other@),
    {
        match (self, other) {
            (RequestId::String(a), RequestId::String(b)) => text::str_eq(a.as_str(), b.as_str()),
            (RequestId::Integer(a), RequestId::Integer(b)) => *a == *b,
            _ => false,
        }
    }
}

/// Those who wait for the replies to requests, by the requests' ids.
pub struct PendingRequests<T> {
    waiting: Vec<(RequestId, T)>,
}

spec fn entries<T>(waiting: Seq<(RequestId, T)>) -> Seq<(RequestIdModel, T)> {
    waiting.map_values(|entry: (RequestId, T)| (entry.0@, entry.1))
}

impl<T> PendingRequests<T> {
    /// Who waits for which reply.
    pub closed spec fn view(&self) -> Map<RequestIdModel, T> {
        keyed::by_key(entries(self.waiting@))
    }

    /// One waits for each reply at most.
    pub closed spec fn wf(&self) -> bool {
        keyed::keys(entries(self.waiting@)).no_duplicates()
    }

    /// No one waits.
    pub fn new() -> (r: PendingRequests<T>)
        ensures
            r.wf(),
            r@ == Map::<RequestIdModel, T>::empty(),
    {
        let r = PendingRequests { waiting: Vec::new() };
        assert(r@ =~= Map::<RequestIdModel, T>::empty());
        r
    }

    /// Takes the one who waits for the reply to a request.
    pub fn remove(&mut self, id: &RequestId) -> (r: Option<T>)
        requires
            old(self).wf(),
        ensures
            final(self).wf(),
            match r {
                Some(waiting) => old(self)@.contains_key(id@) && waiting == old(self)@[id@],
                None => !old(self)@.contains_key(id@),
            },
            final(self)@ == old(self)@.remove(id@),
    {
        let mut i: usize = 0;
        while i < self.waiting.len()
            invariant
                self.wf(),
                *self == *old(self),
                i <= self.waiting@.len(),
                forall|k: int| 0 <= k < i ==> (#[trigger] self.waiting@[k]).0@ != id@,
            decreases self.waiting@.len() - i,
        {
            if self.waiting[i].0.same(id) {
                let ghost before = self.waiting@;
                let (_, waiting) = self.waiting.remove(i);
                proof {
                    keyed::lemma_entry(entries(before), i as int);
                    keyed::lemma_removed(entries(before), i as int);
                    assert(entries(self.waiting@) =~= entries(before).remove(i as int));
                }
                return Some(waiting);
            }
            i = i + 1;
        }
        proof {
            if self@.contains_key(id@) {
                let k = keyed::lemma_place(entries(self.waiting@), id@);
            }
            assert(self@ =~= old(self)@.remove(id@));
        }
        None
    }

    /// Lets one wait for the reply to a request, in the place of any other.
    pub fn insert(&mut self, id: RequestId, waiting: T)
        requires
            old(self).wf(),
        ensures
            final(self).wf(),
            final(self)@ == old(self)@.insert(id@, waiting),
    {
        let replaced = self.remove(&id);
        let ghost before = self.waiting@;
        let ghost added = (id, waiting);
        self.waiting.push((id, waiting));
        proof {
            keyed::lemma_pushed(entries(before), (added.0@, added.1));
            assert(entries(self.waiting@) =~= entries(before).push((added.0@, added.1)));
            assert(self@ =~= old(self)@.insert(added.0@, added.1));
        }
    }
}

} // verus!
