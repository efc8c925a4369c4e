//! Lists of entries with keys, seen as maps.
use vstd::prelude::*;

verus! {

/// The keys of some entries.
pub open spec fn keys<K, V>(entries: Seq<(K, V)>) -> Seq<K> {
    entries.map_values(|entry: (K, V)| entry.0)
}

/// Some entries by their keys.
pub open spec fn by_key<K, V>(entries: Seq<(K, V)>) -> Map<K, V> {
    Map::new(
        |key: K| keys(entries).contains(key),
        |key: K| entries[keys(entries).index_of(key)].1,
    )
}

/// An entry is found by its key.
pub proof fn lemma_entry<K, V>(entries: Seq<(K, V)>, i: int)
    requires
        keys(entries).no_duplicates(),
        0 <= i < entries.len(),
    ensures
        by_key(entries).contains_key(entries[i].0),
        by_key(entries)[entries[i].0] == entries[i].1,
{
    assert(keys(entries)[i] == entries[i].0);
    let at = keys(entries).index_of(entries[i].0);
    assert(keys(entries)[at] == keys(entries)[i]);
}

/// What is found by a key is an entry.
pub proof fn lemma_place<K, V>(entries: Seq<(K, V)>, key: K) -> (i: int)
    requires
        by_key(entries).contains_key(key),
    ensures
        0 <= i < entries.len(),
        entries[i].0 == key,
        by_key(entries)[key] == entries[i].1,
{
    let at = keys(entries).index_of(key);
    assert(keys(entries)[at] == key);
    at
}

/// There are as many keys as entries.
pub proof fn lemma_count<K, V>(entries: Seq<(K, V)>)
    requires
        keys(entries).no_duplicates(),
    ensures
        by_key(entries).dom().finite(),
        by_key(entries).len() == entries.len(),
{
    keys(entries).unique_seq_to_set();
    assert(by_key(entries).dom() =~= keys(entries).to_set());
}

/// Removing an entry removes its key.
pub proof fn lemma_removed<K, V>(entries: Seq<(K, V)>, i: int)
    requires
        keys(entries).no_duplicates(),
        0 <= i < entries.len(),
    ensures
        keys(entries.remove(i)).no_duplicates(),
        by_key(entries.remove(i)) == by_key(entries).remove(entries[i].0),
{
    let after = entries.remove(i);
    let key = entries[i].0;
    assert(keys(after) =~= keys(entries).remove(i));
    assert forall|a: int, b: int| 0 <= a < b < keys(after).len() implies keys(after)[a] != keys(
        after,
    )[b] by {
        let a1 = if a < i {
            a
        } else {
            a + 1
        };
        let b1 = if b < i {
            b
        } else {
            b + 1
        };
        assert(keys(after)[a] == keys(entries)[a1]);
        assert(keys(after)[b] == keys(entries)[b1]);
    }
    assert forall|k: K| #[trigger] by_key(after).contains_key(k) implies by_key(
        entries,
    ).contains_key(k) && k != key && by_key(after)[k] == by_key(entries)[k] by {
        let j = lemma_place(after, k);
        let j1 = if j < i {
            j
        } else {
            j + 1
        };
        assert(after[j] == entries[j1]);
        lemma_entry(entries, j1);
        assert(keys(entries)[j1] != keys(entries)[i]);
    }
    assert forall|k: K| #[trigger] by_key(entries).contains_key(k) && k != key implies by_key(
        after,
    ).contains_key(k) by {
        let j = lemma_place(entries, k);
        let j1 = if j < i {
            j
        } else {
            j - 1
        };
        assert(after[j1] == entries[j]);
        lemma_entry(after, j1);
    }
    assert(by_key(after) =~= by_key(entries).remove(key));
}

/// Adding an entry with a new key inserts it.
pub proof fn lemma_pushed<K, V>(entries: Seq<(K, V)>, added: (K, V))
    requires
        keys(entries).no_duplicates(),
        !by_key(entries).contains_key(added.0),
    ensures
        keys(entries.push(added)).no_duplicates(),
        by_key(entries.push(added)) == by_key(entries).insert(added.0, added.1),
{
    let after = entries.push(added);
    assert(keys(after) =~= keys(entries).push(added.0));
    assert forall|a: int, b: int| 0 <= a < b < keys(after).len() implies keys(after)[a] != keys(
        after,
    )[b] by {
        if b == entries.len() {
            assert(keys(entries).contains(keys(entries)[a]));
        }
    }
    lemma_entry(after, entries.len() as int);
    assert forall|k: K| #[trigger] by_key(entries).contains_key(k) implies by_key(
        after,
    ).contains_key(k) && by_key(after)[k] == by_key(entries)[k] by {
        let j = lemma_place(entries, k);
        assert(after[j] == entries[j]);
        lemma_entry(after, j);
    }
    assert forall|k: K| #[trigger] by_key(after).contains_key(k) && k != added.0 implies by_key(
        entries,
    ).contains_key(k) by {
        let j = lemma_place(after, k);
        lemma_entry(entries, j);
    }
    assert(by_key(after) =~= by_key(entries).insert(added.0, added.1));
}

/// The entries up to one more than `i` are those up to `i`, and that one.
pub proof fn lemma_taken<K, V>(entries: Seq<(K, V)>, i: int)
    requires
        keys(entries).no_duplicates(),
        0 <= i < entries.len(),
    ensures
        !by_key(entries.take(i)).contains_key(entries[i].0),
        by_key(entries.take(i + 1)) == by_key(entries.take(i)).insert(entries[i].0, entries[i].1),
{
    let done = entries.take(i);
    assert(keys(done) =~= keys(entries).take(i));
    assert forall|a: int, b: int| 0 <= a < b < keys(done).len() implies keys(done)[a] != keys(
        done,
    )[b] by {
        assert(keys(done)[a] == keys(entries)[a]);
        assert(keys(done)[b] == keys(entries)[b]);
    }
    if by_key(done).contains_key(entries[i].0) {
        let k = lemma_place(done, entries[i].0);
        assert(keys(entries)[k] == keys(entries)[i]);
    }
    lemma_pushed(done, entries[i]);
    assert(entries.take(i + 1) =~= done.push(entries[i]));
}

} // verus!
