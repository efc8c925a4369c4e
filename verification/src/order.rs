//! The order of texts, and sorting by it.
use vstd::prelude::*;

use crate::text;
use crate::text::chars_of;

verus! {

/// Whether `a` stands before `b`, or is `b`, in the order of code points,
/// compared from the first character on.
pub open spec fn text_le(a: Seq<char>, b: Seq<char>) -> bool
    decreases a.len(),
{
    if a.len() == 0 {
        true
    } else if b.len() == 0 {
        false
    } else if a[0] != b[0] {
        a[0] < b[0]
    } else {
        text_le(a.skip(1), b.skip(1))
    }
}

pub proof fn lemma_text_le_reflexive(a: Seq<char>)
    ensures
        text_le(a, a),
    decreases a.len(),
{
    if a.len() > 0 {
        lemma_text_le_reflexive(a.skip(1));
    }
}

pub proof fn lemma_text_le_total(a: Seq<char>, b: Seq<char>)
    ensures
        text_le(a, b) || text_le(b, a),
    decreases a.len(),
{
    if a.len() > 0 && b.len() > 0 && a[0] == b[0] {
        lemma_text_le_total(a.skip(1), b.skip(1));
    }
}

pub proof fn lemma_text_le_antisymmetric(a: Seq<char>, b: Seq<char>)
    requires
        text_le(a, b),
        text_le(b, a),
    ensures
        a == b,
    decreases a.len(),
{
    if a.len() > 0 && b.len() > 0 {
        lemma_text_le_antisymmetric(a.skip(1), b.skip(1));
        assert(a == seq![a[0]] + a.skip(1));
        assert(b == seq![b[0]] + b.skip(1));
    } else {
        assert(a == b);
    }
}

pub proof fn lemma_text_le_transitive(a: Seq<char>, b: Seq<char>, c: Seq<char>)
    requires
        text_le(a, b),
        text_le(b, c),
    ensures
        text_le(a, c),
    decreases a.len(),
{
    if a.len() > 0 && b.len() > 0 && c.len() > 0 && a[0] == b[0] && b[0] == c[0] {
        lemma_text_le_transitive(a.skip(1), b.skip(1), c.skip(1));
    }
}

/// Whether `a` stands before `b`, or is equal to it.
pub fn str_le(a: &str, b: &str) -> (r: bool)
    ensures
        r == text_le(a@, b@),
{
    let left = chars_of(a);
    let right = chars_of(b);
    let mut i: usize = 0;
    assert(left@.skip(0) == left@);
    assert(right@.skip(0) == right@);
    while i < left.len() && i < right.len() && left[i] == right[i]
        invariant
            i <= left@.len(),
            i <= right@.len(),
            text_le(left@, right@) == text_le(left@.skip(i as int), right@.skip(i as int)),
        decreases left@.len() - i,
    {
        assert(left@.skip(i as int).skip(1) == left@.skip(i + 1));
        assert(right@.skip(i as int).skip(1) == right@.skip(i + 1));
        i = i + 1;
    }
    if i == left.len() {
        true
    } else if i == right.len() {
        false
    } else {
        left[i] < right[i]
    }
}

/// Whether each text stands before the next ones, or is equal to them.
pub open spec fn is_sorted(s: Seq<Seq<char>>) -> bool {
    forall|i: int, j: int| 0 <= i < j < s.len() ==> text_le(#[trigger] s[i], #[trigger] s[j])
}

/// Sorts texts by `text_le`.
pub fn sort_strings(items: Vec<String>) -> (r: Vec<String>)
    ensures
        is_sorted(text::views(r@)),
        text::views(r@).to_multiset() == text::views(items@).to_multiset(),
{
    let ghost all = items@;
    let mut rest = items;
    let mut r: Vec<String> = Vec::new();
    proof {
        broadcast use vstd::seq_lib::group_to_multiset_ensures;
        assert(text::views(r@) == Seq::<Seq<char>>::empty());
        assert(text::views(r@).to_multiset().add(text::views(rest@).to_multiset()) =~= text::views(
            all,
        ).to_multiset());
    }
    while rest.len() > 0
        invariant
            is_sorted(text::views(r@)),
            text::views(r@).to_multiset().add(text::views(rest@).to_multiset()) == text::views(all).to_multiset(),
        decreases rest@.len(),
    {
        let ghost rest_before = rest@;
        let ghost sorted_before = r@;
        let item = rest.pop().unwrap();
        let mut at: usize = 0;
        while at < r.len() && str_le(r[at].as_str(), item.as_str())
            invariant
                at <= r@.len(),
                forall|k: int| 0 <= k < at ==> text_le(#[trigger] text::views(r@)[k], item@),
            decreases r@.len() - at,
        {
            at = at + 1;
        }
        let ghost value = item@;
        let ghost old_views = text::views(r@);
        r.insert(at, item);
        proof {
            broadcast use vstd::seq_lib::group_to_multiset_ensures;
            assert(text::views(r@) == old_views.insert(at as int, value));
            assert(text::views(rest_before) == text::views(rest@).push(value));
            assert(text::views(rest@).push(value).to_multiset() =~= text::views(rest@).to_multiset().insert(
                value,
            ));
            assert(old_views.insert(at as int, value).to_multiset() =~= old_views.to_multiset().insert(value));
            assert(text::views(r@).to_multiset().add(text::views(rest@).to_multiset())
                =~= old_views.to_multiset().add(text::views(rest_before).to_multiset()));
            if at < old_views.len() {
                lemma_text_le_total(value, old_views[at as int]);
            }
            assert forall|i: int, j: int| 0 <= i < j < text::views(r@).len() implies text_le(
                #[trigger] text::views(r@)[i],
                #[trigger] text::views(r@)[j],
            ) by {
                if i == at {
                    assert(text::views(r@)[j] == old_views[j - 1]);
                    if j - 1 > at {
                        lemma_text_le_transitive(value, old_views[at as int], old_views[j - 1]);
                    }
                } else if j == at {
                } else if i < at && j > at {
                    assert(text::views(r@)[j] == old_views[j - 1]);
                } else if i > at {
                    assert(text::views(r@)[j] == old_views[j - 1]);
                    assert(text::views(r@)[i] == old_views[i - 1]);
                }
            }
        }
    }
    proof {
        broadcast use vstd::seq_lib::group_to_multiset_ensures;
        assert(text::views(rest@) == Seq::<Seq<char>>::empty());
        assert(text::views(r@).to_multiset().add(text::views(rest@).to_multiset()) =~= text::views(
            r@,
        ).to_multiset());
    }
    r
}

} // verus!
