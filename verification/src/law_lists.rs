//! Laws about the lists that stand for sets and maps, entry by entry.
use vstd::prelude::*;

use crate::lists::{as_map, keys, lemma_lookup, lookup, unclaimed};

verus! {

/// Whether `value` is what the last entry of `key` holds.
pub open spec fn last_of<K, V>(entries: Seq<(K, V)>, key: K, value: V) -> bool {
    exists|i: int|
        0 <= i < entries.len() && (#[trigger] entries[i]).0 == key && entries[i].1 == value && (
        forall|j: int| i < j < entries.len() ==> (#[trigger] entries[j]).0 != key)
}

/// The keys of entries are the first halves of them, place by place.
pub proof fn law_keys<K, V>(entries: Seq<(K, V)>)
    ensures
        keys(entries).len() == entries.len(),
        forall|i: int| 0 <= i < entries.len() ==> #[trigger] keys(entries)[i] == entries[i].0,
{
}

/// A key is found with a value if and only if the last of its entries holds that value, and it is
/// not found if and only if it has no entry.
pub proof fn law_the_last_entry_counts<K, V>(entries: Seq<(K, V)>, key: K)
    ensures
        forall|value: V| #[trigger]
            last_of(entries, key, value) <==> lookup(entries, key) == Some(value),
        lookup(entries, key) is None <==> forall|i: int|
            0 <= i < entries.len() ==> (#[trigger] entries[i]).0 != key,
    decreases entries.len(),
{
    if entries.len() > 0 {
        let earlier = entries.drop_last();
        let n = entries.len() - 1;
        law_the_last_entry_counts(earlier, key);
        assert(entries.last() == entries[n]);
        assert(forall|i: int| 0 <= i < n ==> earlier[i] == entries[i]);
        assert forall|value: V| #[trigger]
            last_of(entries, key, value) <==> lookup(entries, key) == Some(value) by {
            if last_of(entries, key, value) {
                let i = choose|i: int|
                    0 <= i < entries.len() && (#[trigger] entries[i]).0 == key && entries[i].1
                        == value && (forall|j: int|
                        i < j < entries.len() ==> (#[trigger] entries[j]).0 != key);
                if i < n {
                    assert(entries[n].0 != key);
                    assert(earlier[i].0 == key);
                    assert(last_of(earlier, key, value));
                }
            }
            if lookup(entries, key) == Some(value) {
                if entries[n].0 == key {
                    assert(entries[n].1 == value);
                } else {
                    assert(last_of(earlier, key, value));
                    let i = choose|i: int|
                        0 <= i < earlier.len() && (#[trigger] earlier[i]).0 == key
                            && earlier[i].1 == value && (forall|j: int|
                            i < j < earlier.len() ==> (#[trigger] earlier[j]).0 != key);
                    assert(entries[i].0 == key && entries[i].1 == value);
                    assert forall|j: int| i < j < entries.len() implies (#[trigger] entries[j]).0
                        != key by {
                        if j < n {
                            assert(earlier[j].0 != key);
                        }
                    }
                }
            }
        }
        if lookup(entries, key) is None {
            assert forall|i: int| 0 <= i < entries.len() implies (#[trigger] entries[i]).0
                != key by {
                if i < n {
                    assert(earlier[i].0 != key);
                }
            }
        }
        if forall|i: int| 0 <= i < entries.len() ==> (#[trigger] entries[i]).0 != key {
            assert(entries[n].0 != key);
            assert forall|i: int| 0 <= i < earlier.len() implies (#[trigger] earlier[i]).0
                != key by {
                assert(entries[i].0 != key);
            }
        }
    }
}

/// The map of some entries has exactly their keys, each with what its last entry holds.
pub proof fn law_map_of_entries<K, V>(entries: Seq<(K, V)>, key: K)
    ensures
        as_map(entries).contains_key(key) <==> exists|i: int|
            0 <= i < entries.len() && (#[trigger] entries[i]).0 == key,
        as_map(entries).contains_key(key) ==> last_of(entries, key, as_map(entries)[key]),
{
    lemma_lookup(entries, key);
    law_the_last_entry_counts(entries, key);
    if keys(entries).contains(key) {
        let i = choose|i: int| 0 <= i < keys(entries).len() && keys(entries)[i] == key;
        assert(entries[i].0 == key);
    }
    if exists|i: int| 0 <= i < entries.len() && (#[trigger] entries[i]).0 == key {
        let i = choose|i: int| 0 <= i < entries.len() && (#[trigger] entries[i]).0 == key;
        assert(keys(entries)[i] == key);
    }
}

/// Of one entry, what is left is the entry if its key is not claimed, and nothing if it is; and
/// of two lists, what is left of the first, then what is left of the second.
pub proof fn law_what_is_left<K, V>(a: Seq<(K, V)>, b: Seq<(K, V)>, entry: (K, V), claimed: Seq<K>)
    ensures
        unclaimed(a + b, claimed) == unclaimed(a, claimed) + unclaimed(b, claimed),
        unclaimed(seq![entry], claimed) == if exists|i: int|
            0 <= i < claimed.len() && #[trigger] claimed[i] == entry.0 {
            Seq::<(K, V)>::empty()
        } else {
            seq![entry]
        },
{
    let keep = |entry: (K, V)| !claimed.contains(entry.0);
    Seq::filter_distributes_over_add(a, b, keep);
    reveal(Seq::filter);
    reveal_with_fuel(Seq::filter, 2);
    assert(seq![entry].drop_last() =~= Seq::empty());
}

} // verus!
