//! Maps given as lists of entries.
use vstd::prelude::*;

verus! {

/// The map that entries make, given in order: a later entry replaces an earlier one
/// of the same key.
pub open spec fn entries_map<K, V>(entries: Seq<(K, V)>) -> Map<K, V>
    decreases entries.len(),
{
    if entries.len() == 0 {
        Map::empty()
    } else {
        entries_map(entries.drop_last()).insert(entries.last().0, entries.last().1)
    }
}

/// Whether no two entries have the same key.
pub open spec fn distinct_keys<K, V>(entries: Seq<(K, V)>) -> bool {
    forall|i: int, j: int|
        0 <= i < j < entries.len() ==> (#[trigger] entries[i]).0 != (#[trigger] entries[j]).0
}

/// The last entry of a key gives its value.
pub proof fn lemma_entries_map_last<K, V>(entries: Seq<(K, V)>, i: int)
    requires
        0 <= i < entries.len(),
        forall|j: int| i < j < entries.len() ==> (#[trigger] entries[j]).0 != entries[i].0,
    ensures
        entries_map(entries).dom().contains(entries[i].0),
        entries_map(entries)[entries[i].0] == entries[i].1,
    decreases entries.len(),
{
    if i < entries.len() - 1 {
        lemma_entries_map_last(entries.drop_last(), i);
    }
}

/// The position of the last entry that has the key `key`, a key of the map.
pub proof fn lemma_entries_map_position<K, V>(
    entries: Seq<(K, V)>,
    key: K,
) -> (i: int)
    requires
        entries_map(entries).dom().contains(key),
    ensures
        0 <= i < entries.len(),
        entries[i].0 == key,
        forall|j: int| i < j < entries.len() ==> (#[trigger] entries[j]).0 != key,
        entries_map(entries)[key] == entries[i].1,
    decreases entries.len(),
{
    if entries.last().0 == key {
        entries.len() - 1
    } else {
        let i = lemma_entries_map_position(entries.drop_last(), key);
        assert forall|j: int| i < j < entries.len() implies (#[trigger] entries[j]).0 != key by {
            if j < entries.len() - 1 {
                assert(entries.drop_last()[j] == entries[j]);
            }
        }
        i
    }
}

/// The map of finitely many entries is finite, and its keys are theirs.
pub proof fn lemma_entries_map_keys<K, V>(entries: Seq<(K, V)>)
    ensures
        entries_map(entries).dom().finite(),
        forall|i: int|
            0 <= i < entries.len() ==> entries_map(entries).dom().contains(
                (#[trigger] entries[i]).0,
            ),
    decreases entries.len(),
{
    if entries.len() > 0 {
        lemma_entries_map_keys(entries.drop_last());
        assert forall|i: int| 0 <= i < entries.len() implies entries_map(entries).dom().contains(
            (#[trigger] entries[i]).0,
        ) by {
            if i < entries.len() - 1 {
                assert(entries.drop_last()[i] == entries[i]);
            }
        }
    }
}

} // verus!
