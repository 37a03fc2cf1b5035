//! The definition table: an insertion-ordered list of named entries, viewed
//! in contracts as a map from name to value where a later binding wins.
use vstd::prelude::*;

use crate::schema::unique_keys;

verus! {

/// The map a named-entry sequence denotes: bindings applied left to right,
/// a later binding overriding an earlier one of the same name.
pub open spec fn map_of<V>(entries: Seq<(String, V)>) -> Map<Seq<char>, V>
    decreases entries.len(),
{
    if entries.len() == 0 {
        Map::<Seq<char>, V>::empty()
    } else {
        map_of(entries.drop_last()).insert(entries.last().0@, entries.last().1)
    }
}

/// The domain of the denoted map is exactly the set of keys bound somewhere.
pub proof fn lemma_map_of_dom<V>(entries: Seq<(String, V)>, k: Seq<char>)
    ensures
        map_of(entries).dom().contains(k) <==> exists|i: int|
            0 <= i < entries.len() && entries[i].0@ == k,
    decreases entries.len(),
{
    if entries.len() > 0 {
        lemma_map_of_dom(entries.drop_last(), k);
        if map_of(entries).dom().contains(k) {
            if entries.last().0@ != k {
                let i = choose|i: int|
                    0 <= i < entries.drop_last().len() && entries.drop_last()[i].0@ == k;
                assert(entries[i].0@ == k);
            } else {
                assert(entries[entries.len() - 1].0@ == k);
            }
        }
        if exists|i: int| 0 <= i < entries.len() && entries[i].0@ == k {
            let i = choose|i: int| 0 <= i < entries.len() && entries[i].0@ == k;
            if i < entries.len() - 1 {
                assert(entries.drop_last()[i].0@ == k);
            }
        }
    }
}

/// Replacing the entry at a position whose key already reads `k` denotes the
/// same map as inserting `k` afresh, provided keys are pairwise distinct.
proof fn lemma_map_of_update<V>(entries: Seq<(String, V)>, i: int, p: (String, V))
    requires
        unique_keys(entries),
        0 <= i < entries.len(),
        p.0@ == entries[i].0@,
    ensures
        map_of(entries.update(i, p)) == map_of(entries).insert(p.0@, p.1),
    decreases entries.len(),
{
    let updated = entries.update(i, p);
    if i == entries.len() - 1 {
        assert(updated.drop_last() =~= entries.drop_last());
        assert(map_of(entries.update(i, p)) =~= map_of(entries).insert(p.0@, p.1));
    } else {
        assert(updated.drop_last() =~= entries.drop_last().update(i, p));
        lemma_map_of_update(entries.drop_last(), i, p);
        assert(entries.last().0@ != p.0@);
        assert(map_of(updated) =~= map_of(entries).insert(p.0@, p.1));
    }
}

/// Appending a fresh entry denotes inserting its binding.
proof fn lemma_map_of_push<V>(entries: Seq<(String, V)>, p: (String, V))
    ensures
        map_of(entries.push(p)) == map_of(entries).insert(p.0@, p.1),
{
    assert(entries.push(p).drop_last() =~= entries);
}

/// Bind `key` to `value` in the table: an entry already carrying `key`
/// keeps its position and has its value replaced, otherwise the new entry
/// goes to the end.
pub fn table_insert<V>(entries: &mut Vec<(String, V)>, key: String, value: V)
    requires
        unique_keys(old(entries)@),
    ensures
        unique_keys(final(entries)@),
        map_of(final(entries)@) == map_of(old(entries)@).insert(key@, value),
{
    let mut i: usize = 0;
    while i < entries.len()
        invariant
            i <= entries@.len(),
            entries@ == old(entries)@,
            unique_keys(entries@),
            forall|k: int| 0 <= k < i ==> entries@[k].0@ != key@,
        decreases entries@.len() - i,
    {
        if entries[i].0 == key {
            let ghost before = entries@;
            entries.set(i, (key, value));
            proof {
                lemma_map_of_update(before, i as int, entries@[i as int]);
                assert(unique_keys(entries@));
            }
            return;
        }
        i = i + 1;
    }
    let ghost before = entries@;
    entries.push((key, value));
    proof {
        lemma_map_of_push(before, entries@.last());
        assert(entries@.last().0@ == key@);
        assert(forall|k: int| 0 <= k < before.len() ==> entries@[k] == before[k]);
        assert(unique_keys(entries@));
    }
}

} // verus!
