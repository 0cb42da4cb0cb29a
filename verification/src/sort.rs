use vstd::prelude::*;

verus! {

/// Where an item with this key goes: before every item whose key is not smaller.
pub open spec fn place<T>(s: Seq<(i128, T)>, key: i128) -> int
    decreases s.len(),
{
    if s.len() == 0 || s[0].0 >= key {
        0
    } else {
        1 + place(s.skip(1), key)
    }
}

/// The items in order of their keys; items with equal keys stay in order.
pub open spec fn stable_sorted<T>(s: Seq<(i128, T)>) -> Seq<(i128, T)>
    decreases s.len(),
{
    if s.len() == 0 {
        s
    } else {
        let rest = stable_sorted(s.skip(1));
        rest.insert(place(rest, s[0].0), s[0])
    }
}

/// The sorted items without their keys.
pub open spec fn values<T>(s: Seq<(i128, T)>) -> Seq<T> {
    s.map_values(|p: (i128, T)| p.1)
}

pub open spec fn ordered<T>(s: Seq<(i128, T)>) -> bool {
    forall|i: int, j: int| 0 <= i < j < s.len() ==> (#[trigger] s[i]).0 <= (#[trigger] s[j]).0
}

/// The items that carry one key.
pub open spec fn keyed<T>(s: Seq<(i128, T)>, key: i128) -> Seq<(i128, T)> {
    s.filter(|p: (i128, T)| p.0 == key)
}

proof fn lemma_place_bounds<T>(s: Seq<(i128, T)>, key: i128)
    ensures
        0 <= place(s, key) <= s.len(),
        forall|i: int| 0 <= i < place(s, key) ==> (#[trigger] s[i]).0 < key,
        place(s, key) < s.len() ==> s[place(s, key)].0 >= key,
    decreases s.len(),
{
    if s.len() > 0 && s[0].0 < key {
        lemma_place_bounds(s.skip(1), key);
        assert forall|i: int| 0 <= i < place(s, key) implies (#[trigger] s[i]).0 < key by {
            if i > 0 {
                assert(s[i] == s.skip(1)[i - 1]);
            }
        }
    }
}

proof fn lemma_filter_append<T>(a: Seq<T>, b: Seq<T>, keep: spec_fn(T) -> bool)
    ensures
        (a + b).filter(keep) == a.filter(keep) + b.filter(keep),
    decreases b.len(),
{
    reveal(Seq::filter);
    if b.len() == 0 {
        assert(a + b == a);
    } else {
        lemma_filter_append(a, b.drop_last(), keep);
        assert((a + b).drop_last() == a + b.drop_last());
        assert((a + b).last() == b.last());
    }
}

proof fn lemma_filter_none<T>(s: Seq<T>, keep: spec_fn(T) -> bool)
    requires
        forall|i: int| 0 <= i < s.len() ==> !keep(#[trigger] s[i]),
    ensures
        s.filter(keep).len() == 0,
    decreases s.len(),
{
    reveal(Seq::filter);
    if s.len() > 0 {
        assert(!keep(s[s.len() - 1]));
        assert forall|i: int| 0 <= i < s.drop_last().len() implies !keep(
            #[trigger] s.drop_last()[i],
        ) by {
            assert(s.drop_last()[i] == s[i]);
        }
        lemma_filter_none(s.drop_last(), keep);
    }
}

proof fn lemma_filter_one<T>(x: T, keep: spec_fn(T) -> bool)
    ensures
        seq![x].filter(keep) == if keep(x) {
            seq![x]
        } else {
            Seq::<T>::empty()
        },
{
    reveal(Seq::filter);
    assert(seq![x].drop_last() =~= Seq::<T>::empty());
    assert(Seq::<T>::empty().filter(keep) =~= Seq::<T>::empty());
    assert(seq![x].last() == x);
    assert(Seq::<T>::empty().push(x) =~= seq![x]);
}

/// Sorting puts the keys in order, and leaves the items of each key as they were
/// and in the order they came: nothing is lost, added or swapped past an equal.
pub proof fn sorting_is_ordered_and_stable<T>(s: Seq<(i128, T)>)
    ensures
        stable_sorted(s).len() == s.len(),
        ordered(stable_sorted(s)),
        forall|key: i128| #[trigger] keyed(stable_sorted(s), key) == keyed(s, key),
    decreases s.len(),
{
    if s.len() > 0 {
        let x = s[0];
        let rest = stable_sorted(s.skip(1));
        let at = place(rest, x.0);
        sorting_is_ordered_and_stable(s.skip(1));
        lemma_place_bounds(rest, x.0);
        let r = rest.insert(at, x);
        let low = rest.take(at);
        let high = rest.skip(at);
        assert(r =~= low + seq![x] + high);
        assert(rest =~= low + high);
        assert(s =~= seq![x] + s.skip(1));
        assert forall|i: int, j: int| 0 <= i < j < r.len() implies (#[trigger] r[i]).0 <= (
        #[trigger] r[j]).0 by {
            if i >= at && j > at {
                if i == at && at < rest.len() {
                    if j - 1 > at {
                        assert(rest[at].0 <= rest[j - 1].0);
                    }
                }
            }
            if i < at && j > at {
                assert(rest[i].0 <= rest[j - 1].0);
            }
        }
        assert forall|key: i128| #[trigger] keyed(r, key) == keyed(s, key) by {
            let keep = |p: (i128, T)| p.0 == key;
            lemma_filter_append(low + seq![x], high, keep);
            lemma_filter_append(low, seq![x], keep);
            lemma_filter_append(low, high, keep);
            lemma_filter_append(seq![x], s.skip(1), keep);
            lemma_filter_one(x, keep);
            assert(keyed(rest, key) == keyed(s.skip(1), key));
            if key == x.0 {
                assert forall|i: int| 0 <= i < low.len() implies !keep(#[trigger] low[i]) by {
                    assert(low[i] == rest[i]);
                }
                lemma_filter_none(low, keep);
                assert(low.filter(keep) =~= Seq::<(i128, T)>::empty());
                assert(r.filter(keep) =~= seq![x] + high.filter(keep));
                assert(rest.filter(keep) =~= high.filter(keep));
            } else {
                assert(r.filter(keep) =~= low.filter(keep) + high.filter(keep));
                assert(s.filter(keep) =~= s.skip(1).filter(keep));
            }
        }
    }
}

/// Sorting keeps the members of a list.
pub proof fn sorting_keeps_the_members<T>(s: Seq<(i128, T)>)
    ensures
        forall|x: (i128, T)| #[trigger] stable_sorted(s).contains(x) <==> s.contains(x),
{
    let r = stable_sorted(s);
    sorting_is_ordered_and_stable(s);
    assert forall|x: (i128, T)| #[trigger] r.contains(x) <==> s.contains(x) by {
        let keep = |p: (i128, T)| p.0 == x.0;
        assert(keyed(r, x.0) == keyed(s, x.0));
        if r.contains(x) {
            let i = choose|i: int| 0 <= i < r.len() && r[i] == x;
            r.lemma_filter_contains(keep, i);
            assert(r.filter(keep).contains(x));
            s.lemma_filter_contains_rev(keep, x);
        }
        if s.contains(x) {
            let i = choose|i: int| 0 <= i < s.len() && s[i] == x;
            s.lemma_filter_contains(keep, i);
            assert(s.filter(keep).contains(x));
            r.lemma_filter_contains_rev(keep, x);
        }
    }
}

/// Sorting keeps every item as often as it occurs.
pub proof fn sorting_keeps_the_items<T>(s: Seq<(i128, T)>)
    ensures
        stable_sorted(s).to_multiset() == s.to_multiset(),
    decreases s.len(),
{
    if s.len() > 0 {
        let rest = stable_sorted(s.skip(1));
        let at = place(rest, s[0].0);
        sorting_keeps_the_items(s.skip(1));
        lemma_place_bounds(rest, s[0].0);
        vstd::seq_lib::to_multiset_insert(rest, at, s[0]);
        vstd::seq_lib::to_multiset_insert(s.skip(1), 0, s[0]);
        assert(s.skip(1).insert(0, s[0]) =~= s);
    }
}

/// Different keys come out strictly increasing.
pub proof fn different_keys_sort_strictly<T>(s: Seq<(i128, T)>)
    requires
        forall|i: int, j: int| 0 <= i < j < s.len() ==> (#[trigger] s[i]).0 != (#[trigger] s[j]).0,
    ensures
        forall|i: int, j: int|
            0 <= i < j < s.len() ==> (#[trigger] stable_sorted(s)[i]).0 < (
            #[trigger] stable_sorted(s)[j]).0,
    decreases s.len(),
{
    if s.len() > 0 {
        let x = s[0];
        let tail = s.skip(1);
        let rest = stable_sorted(tail);
        let at = place(rest, x.0);
        assert forall|i: int, j: int| 0 <= i < j < tail.len() implies (#[trigger] tail[i]).0 != (
        #[trigger] tail[j]).0 by {
            assert(s[i + 1].0 != s[j + 1].0);
        }
        different_keys_sort_strictly(tail);
        sorting_is_ordered_and_stable(tail);
        sorting_keeps_the_members(tail);
        lemma_place_bounds(rest, x.0);
        if at < rest.len() {
            assert(rest.contains(rest[at]));
            assert(tail.contains(rest[at]));
            let k = choose|k: int| 0 <= k < tail.len() && tail[k] == rest[at];
            assert(s[0].0 != s[k + 1].0);
        }
        let r = rest.insert(at, x);
        assert forall|i: int, j: int| 0 <= i < j < r.len() implies (#[trigger] r[i]).0 < (
        #[trigger] r[j]).0 by {
            if i >= at && j > at {
                if i == at && j - 1 > at {
                    assert(rest[at].0 < rest[j - 1].0);
                }
            }
            if i < at && j > at {
                assert(rest[i].0 < rest[j - 1].0);
            }
        }
    }
}

/// Sorting looks at the keys alone.
pub proof fn sorting_commutes_with_mapping<T, U>(s: Seq<(i128, T)>, f: spec_fn(T) -> U)
    ensures
        stable_sorted(s.map_values(|p: (i128, T)| (p.0, f(p.1)))) == stable_sorted(s).map_values(
            |p: (i128, T)| (p.0, f(p.1)),
        ),
    decreases s.len(),
{
    let g = |p: (i128, T)| (p.0, f(p.1));
    if s.len() > 0 {
        sorting_commutes_with_mapping(s.skip(1), f);
        let rest = stable_sorted(s.skip(1));
        assert(s.map_values(g).skip(1) =~= s.skip(1).map_values(g));
        lemma_place_maps(rest, s[0].0, f);
        lemma_place_bounds(rest, s[0].0);
        let at = place(rest, s[0].0);
        assert(rest.insert(at, s[0]).map_values(g) =~= rest.map_values(g).insert(at, g(s[0])));
    } else {
        assert(s.map_values(g) =~= stable_sorted(s).map_values(g));
    }
}

proof fn lemma_place_maps<T, U>(s: Seq<(i128, T)>, key: i128, f: spec_fn(T) -> U)
    ensures
        place(s.map_values(|p: (i128, T)| (p.0, f(p.1))), key) == place(s, key),
    decreases s.len(),
{
    let g = |p: (i128, T)| (p.0, f(p.1));
    if s.len() > 0 {
        lemma_place_maps(s.skip(1), key, f);
        assert(s.map_values(g).skip(1) =~= s.skip(1).map_values(g));
    }
}

/// Sort by key, keeping equal keys in order, and drop the keys.
pub fn sort_by_key<T>(items: Vec<(i128, T)>) -> (r: Vec<T>)
    ensures
        r@ == values(stable_sorted(items@)),
{
    let ghost all = items@;
    let mut items = items;
    let mut keys: Vec<i128> = Vec::new();
    let mut out: Vec<T> = Vec::new();
    let ghost mut sorted: Seq<(i128, T)> = Seq::empty();
    assert(all.skip(items.len() as int) =~= Seq::<(i128, T)>::empty());
    while items.len() > 0
        invariant
            items.len() <= all.len(),
            items@ == all.take(items.len() as int),
            sorted == stable_sorted(all.skip(items.len() as int)),
            out@ == values(sorted),
            keys.len() == sorted.len(),
            forall|i: int| 0 <= i < sorted.len() ==> keys@[i] == (#[trigger] sorted[i]).0,
        decreases items.len(),
    {
        let ghost n = items.len() as int;
        match items.pop() {
            Some((key, value)) => {
                proof {
                    assert(all.skip(n - 1).skip(1) =~= all.skip(n));
                    assert(all.skip(n - 1)[0] == (key, value));
                    lemma_place_bounds(sorted, key);
                }
                let mut at: usize = 0;
                assert(sorted.skip(0) =~= sorted);
                while at < keys.len() && keys[at] < key
                    invariant
                        at <= keys.len() == sorted.len(),
                        forall|i: int|
                            0 <= i < sorted.len() ==> keys@[i] == (#[trigger] sorted[i]).0,
                        place(sorted, key) == at + place(sorted.skip(at as int), key),
                    decreases keys.len() - at,
                {
                    assert(sorted.skip(at as int)[0] == sorted[at as int]);
                    assert(sorted.skip(at as int).skip(1) =~= sorted.skip(at as int + 1));
                    at = at + 1;
                }
                proof {
                    if at < keys.len() {
                        assert(sorted.skip(at as int)[0] == sorted[at as int]);
                    }
                    let next = sorted.insert(at as int, (key, value));
                    assert(values(next) =~= values(sorted).insert(at as int, value));
                    sorted = next;
                }
                keys.insert(at, key);
                out.insert(at, value);
            },
            None => {},
        }
    }
    assert(all.skip(0) =~= all);
    out
}

/// A key that turns the order round.
pub open spec fn descending(key: i128) -> i128 {
    (-1 - key) as i128
}

pub fn descending_key(key: i128) -> (r: i128)
    ensures
        r == descending(key),
{
    -1 - key
}

} // verus!
