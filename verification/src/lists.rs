//! Lists that stand for sets and maps: what is in them, what is left of them.
use vstd::prelude::*;

verus! {

/// The value that `entries` holds under `key`; where the key occurs more than once, the
/// last entry counts.
pub open spec fn lookup<K, V>(entries: Seq<(K, V)>, key: K) -> Option<V>
    decreases entries.len(),
{
    if entries.len() == 0 {
        None
    } else if entries.last().0 == key {
        Some(entries.last().1)
    } else {
        lookup(entries.drop_last(), key)
    }
}

/// The entries whose keys are not among `claimed`, in their order.
pub open spec fn unclaimed<K, V>(entries: Seq<(K, V)>, claimed: Seq<K>) -> Seq<(K, V)> {
    entries.filter(|entry: (K, V)| !claimed.contains(entry.0))
}

/// One entry for each key, with the value that was given to it last.
pub open spec fn latest<K, V>(entries: Seq<(K, V)>) -> Seq<(K, V)>
    decreases entries.len(),
{
    if entries.len() == 0 {
        Seq::empty()
    } else {
        unclaimed(latest(entries.drop_last()), seq![entries.last().0]).push(entries.last())
    }
}

/// The items without repetitions, in the order in which they first occur.
pub open spec fn distinct<A>(items: Seq<A>) -> Seq<A>
    decreases items.len(),
{
    if items.len() == 0 {
        Seq::empty()
    } else {
        let earlier = distinct(items.drop_last());
        if earlier.contains(items.last()) {
            earlier
        } else {
            earlier.push(items.last())
        }
    }
}

/// The keys of `entries`, in their order.
pub open spec fn keys<K, V>(entries: Seq<(K, V)>) -> Seq<K> {
    entries.map_values(|entry: (K, V)| entry.0)
}

/// Whether `name` is one of `names`.
pub fn contains_name(names: &Vec<String>, name: &String) -> (found: bool)
    ensures
        found == names.deep_view().contains(name@),
{
    for i in 0..names.len()
        invariant
            forall|j: int| 0 <= j < i ==> names.deep_view()[j] != name@,
    {
        if names[i] == *name {
            assert(names.deep_view()[i as int] == name@);
            return true;
        }
    }
    false
}

/// Whether `id` is one of `ids`.
pub fn contains_id(ids: &Vec<usize>, id: usize) -> (found: bool)
    ensures
        found == ids@.contains(id),
{
    for i in 0..ids.len()
        invariant
            forall|j: int| 0 <= j < i ==> ids@[j] != id,
    {
        if ids[i] == id {
            return true;
        }
    }
    false
}

/// Whether two lists hold the same names in the same order.
pub fn same_names(a: &Vec<String>, b: &Vec<String>) -> (same: bool)
    ensures
        same == (a.deep_view() == b.deep_view()),
{
    if a.len() != b.len() {
        assert(a.deep_view().len() != b.deep_view().len());
        return false;
    }
    for i in 0..a.len()
        invariant
            a.len() == b.len(),
            forall|j: int| 0 <= j < i ==> a.deep_view()[j] == b.deep_view()[j],
    {
        if a[i] != b[i] {
            assert(a.deep_view()[i as int] != b.deep_view()[i as int]);
            return false;
        }
    }
    assert(a.deep_view() =~= b.deep_view());
    true
}

/// Lists names without repetitions, in the order in which they first occur.
pub fn distinct_names(names: &Vec<String>) -> (once: Vec<String>)
    ensures
        once.deep_view() == distinct(names.deep_view()),
{
    let ghost all = names.deep_view();
    let mut once: Vec<String> = Vec::new();
    assert(once.deep_view() =~= distinct(all.take(0)));
    for i in 0..names.len()
        invariant
            all == names.deep_view(),
            once.deep_view() == distinct(all.take(i as int)),
    {
        proof {
            assert(all.take(i + 1).drop_last() =~= all.take(i as int));
            assert(all.take(i + 1).last() == names@[i as int]@);
        }
        if !contains_name(&once, &names[i]) {
            let ghost before = once.deep_view();
            once.push(names[i].clone());
            assert(once.deep_view() =~= before.push(names@[i as int]@));
        }
    }
    assert(all.take(names.len() as int) =~= all);
    once
}

/// Looks `key` up in a list that is keyed by names.
pub fn find_name<'a, V: DeepView>(entries: &'a Vec<(String, V)>, key: &String) -> (found: Option<
    &'a V,
>)
    ensures
        found.deep_view() == lookup(entries.deep_view(), key@),
{
    let mut i: usize = entries.len();
    let ghost all = entries.deep_view();
    assert(all.take(i as int) =~= all);
    while i > 0
        invariant
            i <= entries.len(),
            all == entries.deep_view(),
            lookup(all, key@) == lookup(all.take(i as int), key@),
        decreases i,
    {
        i = i - 1;
        assert(all.take(i + 1).drop_last() =~= all.take(i as int));
        assert(all.take(i + 1).last() == entries[i as int].deep_view());
        if entries[i].0 == *key {
            return Some(&entries[i].1);
        }
    }
    None
}

/// Looks `key` up in a list that is keyed by numbers.
pub fn find_id<'a, V: DeepView>(entries: &'a Vec<(usize, V)>, key: usize) -> (found: Option<&'a V>)
    ensures
        found.deep_view() == lookup(entries.deep_view(), key),
{
    let mut i: usize = entries.len();
    let ghost all = entries.deep_view();
    assert(all.take(i as int) =~= all);
    while i > 0
        invariant
            i <= entries.len(),
            all == entries.deep_view(),
            lookup(all, key) == lookup(all.take(i as int), key),
        decreases i,
    {
        i = i - 1;
        assert(all.take(i + 1).drop_last() =~= all.take(i as int));
        assert(all.take(i + 1).last() == entries[i as int].deep_view());
        if entries[i].0 == key {
            return Some(&entries[i].1);
        }
    }
    None
}

/// The map that a list of entries stands for.
pub open spec fn as_map<K, V>(entries: Seq<(K, V)>) -> Map<K, V> {
    Map::new(|key: K| keys(entries).contains(key), |key: K| lookup(entries, key)->0)
}

/// A key is found if and only if it is there, and then with the value of one of its entries.
pub proof fn lemma_lookup<K, V>(entries: Seq<(K, V)>, key: K)
    ensures
        lookup(entries, key) is Some <==> keys(entries).contains(key),
        lookup(entries, key) matches Some(value) ==> entries.contains((key, value)),
    decreases entries.len(),
{
    if entries.len() > 0 {
        let earlier = entries.drop_last();
        lemma_lookup(earlier, key);
        assert(keys(entries) =~= keys(earlier).push(entries.last().0));
        if entries.last().0 == key {
            assert(keys(entries)[entries.len() - 1] == key);
            assert(entries[entries.len() - 1] == (key, entries.last().1));
        } else {
            if keys(earlier).contains(key) {
                let i = choose|i: int| 0 <= i < keys(earlier).len() && keys(earlier)[i] == key;
                assert(keys(entries)[i] == key);
            }
            if keys(entries).contains(key) {
                let i = choose|i: int| 0 <= i < keys(entries).len() && keys(entries)[i] == key;
                assert(keys(earlier)[i] == key);
            }
            if lookup(earlier, key) is Some {
                let entry = (key, lookup(earlier, key)->0);
                let i = choose|i: int| 0 <= i < earlier.len() && earlier[i] == entry;
                assert(entries[i] == entry);
            }
        }
    }
}

/// Where no key occurs twice, each entry is what its key is found with.
pub proof fn lemma_lookup_entry<K, V>(entries: Seq<(K, V)>, i: int)
    requires
        keys(entries).no_duplicates(),
        0 <= i < entries.len(),
    ensures
        lookup(entries, entries[i].0) == Some(entries[i].1),
    decreases entries.len(),
{
    if i < entries.len() - 1 {
        let earlier = entries.drop_last();
        assert(keys(entries)[i] != keys(entries)[entries.len() - 1]);
        assert forall|a: int, b: int|
            0 <= a < keys(earlier).len() && 0 <= b < keys(earlier).len() && a != b implies keys(
            earlier,
        )[a] != keys(earlier)[b] by {
            assert(keys(entries)[a] != keys(entries)[b]);
        }
        lemma_lookup_entry(earlier, i);
    }
}

/// What is left after some keys are claimed.
pub proof fn lemma_unclaimed<K, V>(entries: Seq<(K, V)>, claimed: Seq<K>)
    ensures
        forall|key: K| #[trigger]
            lookup(unclaimed(entries, claimed), key) == if claimed.contains(key) {
                None
            } else {
                lookup(entries, key)
            },
        forall|key: K| #[trigger]
            keys(unclaimed(entries, claimed)).contains(key) <==> keys(entries).contains(key)
                && !claimed.contains(key),
        keys(entries).no_duplicates() ==> keys(unclaimed(entries, claimed)).no_duplicates(),
    decreases entries.len(),
{
    let keep = |entry: (K, V)| !claimed.contains(entry.0);
    reveal(Seq::filter);
    let left = unclaimed(entries, claimed);
    if entries.len() > 0 {
        let earlier = entries.drop_last();
        let last = entries.last();
        lemma_unclaimed(earlier, claimed);
        if keep(last) {
            assert(left =~= unclaimed(earlier, claimed).push(last));
            assert(left.drop_last() =~= unclaimed(earlier, claimed));
        } else {
            assert(left =~= unclaimed(earlier, claimed));
        }
    }
    assert forall|key: K| #[trigger]
        lookup(unclaimed(entries, claimed), key) == if claimed.contains(key) {
            None
        } else {
            lookup(entries, key)
        } by {
        if entries.len() > 0 {
            assert(lookup(unclaimed(entries.drop_last(), claimed), key) == if claimed.contains(
                key,
            ) {
                None
            } else {
                lookup(entries.drop_last(), key)
            });
        }
    }
    assert forall|key: K| #[trigger]
        keys(unclaimed(entries, claimed)).contains(key) <==> keys(entries).contains(key)
            && !claimed.contains(key) by {
        lemma_lookup(left, key);
        lemma_lookup(entries, key);
        assert(lookup(left, key) == if claimed.contains(key) {
            None
        } else {
            lookup(entries, key)
        });
    }
    if entries.len() > 0 && keys(entries).no_duplicates() {
        let earlier = entries.drop_last();
        let last = entries.last();
        assert forall|a: int, b: int|
            0 <= a < keys(earlier).len() && 0 <= b < keys(earlier).len() && a != b implies keys(
            earlier,
        )[a] != keys(earlier)[b] by {
            assert(keys(entries)[a] != keys(entries)[b]);
        }
        if keep(last) {
            let rest = unclaimed(earlier, claimed);
            assert(keys(left) =~= keys(rest).push(last.0));
            assert(!keys(earlier).contains(last.0)) by {
                if keys(earlier).contains(last.0) {
                    let i = choose|i: int|
                        0 <= i < keys(earlier).len() && keys(earlier)[i] == last.0;
                    assert(keys(entries)[i] == keys(entries)[entries.len() - 1]);
                }
            }
            assert(!keys(rest).contains(last.0));
            assert forall|a: int, b: int|
                0 <= a < keys(left).len() && 0 <= b < keys(left).len() && a != b implies keys(
                left,
            )[a] != keys(left)[b] by {
                if a == rest.len() {
                    assert(keys(rest)[b] == keys(left)[b]);
                } else if b == rest.len() {
                    assert(keys(rest)[a] == keys(left)[a]);
                } else {
                    assert(keys(rest)[a] != keys(rest)[b]);
                }
            }
        }
    }
}

/// Keeping the latest entry of each key changes nothing about what is found, and no key
/// occurs twice afterwards.
pub proof fn lemma_latest<K, V>(entries: Seq<(K, V)>)
    ensures
        forall|key: K| #[trigger] lookup(latest(entries), key) == lookup(entries, key),
        keys(latest(entries)).no_duplicates(),
    decreases entries.len(),
{
    if entries.len() > 0 {
        let earlier = latest(entries.drop_last());
        let last = entries.last();
        let rest = unclaimed(earlier, seq![last.0]);
        lemma_latest(entries.drop_last());
        lemma_unclaimed(earlier, seq![last.0]);
        assert(latest(entries).drop_last() =~= rest);
        assert(seq![last.0].contains(last.0)) by {
            assert(seq![last.0][0] == last.0);
        }
        assert forall|key: K| #[trigger]
            lookup(latest(entries), key) == lookup(entries, key) by {
            if key != last.0 {
                assert(!seq![last.0].contains(key));
                assert(lookup(rest, key) == lookup(earlier, key));
                assert(lookup(earlier, key) == lookup(entries.drop_last(), key));
            }
        }
        assert(keys(latest(entries)) =~= keys(rest).push(last.0));
        assert(!keys(rest).contains(last.0));
        let all = keys(latest(entries));
        assert forall|a: int, b: int|
            0 <= a < all.len() && 0 <= b < all.len() && a != b implies all[a] != all[b] by {
            if a == rest.len() {
                assert(keys(rest)[b] == all[b]);
            } else if b == rest.len() {
                assert(keys(rest)[a] == all[a]);
            } else {
                assert(keys(rest)[a] != keys(rest)[b]);
            }
        }
    }
}

/// What is kept of some items: those that fit, none of them more often than before.
pub proof fn lemma_kept<A>(items: Seq<A>, keep: spec_fn(A) -> bool)
    ensures
        forall|item: A| #[trigger]
            items.filter(keep).contains(item) <==> items.contains(item) && keep(item),
        items.no_duplicates() ==> items.filter(keep).no_duplicates(),
    decreases items.len(),
{
    reveal(Seq::filter);
    let kept = items.filter(keep);
    if items.len() > 0 {
        let earlier = items.drop_last();
        let last = items.last();
        let rest = earlier.filter(keep);
        lemma_kept(earlier, keep);
        assert(items =~= earlier.push(last));
        assert forall|item: A| #[trigger]
            items.contains(item) <==> earlier.contains(item) || item == last by {
            if earlier.contains(item) {
                let i = choose|i: int| 0 <= i < earlier.len() && earlier[i] == item;
                assert(items[i] == item);
            }
            if item == last {
                assert(items[items.len() - 1] == item);
            }
        }
        if keep(last) {
            assert(kept =~= rest.push(last));
            assert forall|item: A| #[trigger] kept.contains(item) <==> items.contains(item) && keep(
                item,
            ) by {
                assert(rest.contains(item) <==> earlier.contains(item) && keep(item));
                if rest.contains(item) {
                    let i = choose|i: int| 0 <= i < rest.len() && rest[i] == item;
                    assert(kept[i] == item);
                }
                if item == last {
                    assert(kept[kept.len() - 1] == item);
                }
                if kept.contains(item) {
                    let i = choose|i: int| 0 <= i < kept.len() && kept[i] == item;
                    if i < rest.len() {
                        assert(rest[i] == item);
                    }
                }
            }
            if items.no_duplicates() {
                assert(earlier.no_duplicates());
                assert(!earlier.contains(last)) by {
                    if earlier.contains(last) {
                        let i = choose|i: int| 0 <= i < earlier.len() && earlier[i] == last;
                        assert(items[i] == items[items.len() - 1]);
                    }
                }
                assert(!rest.contains(last));
                assert forall|a: int, b: int|
                    0 <= a < kept.len() && 0 <= b < kept.len() && a != b implies kept[a]
                    != kept[b] by {
                    if a == rest.len() {
                        assert(rest[b] == kept[b]);
                    } else if b == rest.len() {
                        assert(rest[a] == kept[a]);
                    } else {
                        assert(rest[a] != rest[b]);
                    }
                }
            }
        } else {
            assert(kept =~= rest);
            assert forall|item: A| #[trigger] kept.contains(item) <==> items.contains(item) && keep(
                item,
            ) by {
                assert(rest.contains(item) <==> earlier.contains(item) && keep(item));
            }
        }
    }
}

/// Listing items once keeps all of them and repeats none.
pub proof fn law_distinct<A>(items: Seq<A>)
    ensures
        distinct(items).no_duplicates(),
        forall|item: A| #[trigger] distinct(items).contains(item) <==> items.contains(item),
    decreases items.len(),
{
    if items.len() > 0 {
        let earlier = items.drop_last();
        let last = items.last();
        law_distinct(earlier);
        assert forall|item: A| #[trigger]
            distinct(items).contains(item) <==> items.contains(item) by {
            if items.contains(item) {
                let i = choose|i: int| 0 <= i < items.len() && items[i] == item;
                if i < items.len() - 1 {
                    assert(earlier[i] == item);
                    assert(earlier.contains(item));
                    assert(distinct(earlier).contains(item));
                    let j = choose|j: int|
                        0 <= j < distinct(earlier).len() && distinct(earlier)[j] == item;
                    assert(distinct(items)[j] == item);
                } else if !distinct(earlier).contains(last) {
                    assert(distinct(items)[distinct(items).len() - 1] == item);
                }
            }
            if distinct(items).contains(item) {
                let j = choose|j: int| 0 <= j < distinct(items).len() && distinct(items)[j] == item;
                if j < distinct(earlier).len() {
                    assert(distinct(earlier)[j] == item);
                    assert(distinct(earlier).contains(item));
                    assert(earlier.contains(item));
                    let i = choose|i: int| 0 <= i < earlier.len() && earlier[i] == item;
                    assert(items[i] == item);
                } else {
                    assert(items[items.len() - 1] == item);
                }
            }
        }
        if !distinct(earlier).contains(last) {
            let all = distinct(items);
            assert forall|a: int, b: int|
                0 <= a < all.len() && 0 <= b < all.len() && a != b implies all[a] != all[b] by {
                if a == distinct(earlier).len() {
                    assert(distinct(earlier)[b] == all[b]);
                } else if b == distinct(earlier).len() {
                    assert(distinct(earlier)[a] == all[a]);
                } else {
                    assert(distinct(earlier)[a] != distinct(earlier)[b]);
                }
            }
        }
    }
}

} // verus!
