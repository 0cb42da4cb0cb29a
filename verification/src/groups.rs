use vstd::prelude::*;

use crate::json::Json;
use crate::tally::{
    a_strict_order_fixes_a_list, lemma_tally_compares, lemma_tally_of_sum, tally,
};
use crate::text::{
    comes_before, precedes, precedes_is_irreflexive, precedes_is_total, precedes_is_transitive,
    same, str_texts,
};

verus! {

/// An ordered list of names with one more filed in its place, unless it is there.
pub open spec fn filed(names: Seq<Seq<char>>, name: Seq<char>) -> Seq<Seq<char>>
    decreases names.len(),
{
    if names.len() == 0 {
        seq![name]
    } else if names[0] == name {
        names
    } else if precedes(name, names[0]) {
        seq![name] + names
    } else {
        seq![names[0]] + filed(names.skip(1), name)
    }
}

/// The different names of a list, in code point order.
pub open spec fn directory(names: Seq<Seq<char>>) -> Seq<Seq<char>>
    decreases names.len(),
{
    if names.len() == 0 {
        Seq::empty()
    } else {
        filed(directory(names.drop_last()), names.last())
    }
}

pub open spec fn strictly_ordered(names: Seq<Seq<char>>) -> bool {
    forall|i: int, j: int|
        0 <= i < j < names.len() ==> precedes(#[trigger] names[i], #[trigger] names[j])
}

proof fn lemma_filed_is_ordered(names: Seq<Seq<char>>, name: Seq<char>)
    requires
        strictly_ordered(names),
    ensures
        strictly_ordered(filed(names, name)),
        forall|n: Seq<char>| #[trigger]
            filed(names, name).contains(n) <==> names.contains(n) || n == name,
    decreases names.len(),
{
    let r = filed(names, name);
    if names.len() == 0 {
        assert(r[0] == name);
    } else if names[0] == name {
        assert(names.contains(name));
    } else if precedes(name, names[0]) {
        assert forall|i: int, j: int| 0 <= i < j < r.len() implies precedes(
            #[trigger] r[i],
            #[trigger] r[j],
        ) by {
            if i == 0 && j > 1 {
                assert(precedes(names[0], names[j - 1]));
                precedes_is_transitive(name, names[0], names[j - 1]);
            } else if i > 0 {
                assert(precedes(names[i - 1], names[j - 1]));
            }
        }
        assert(r[0] == name);
        assert forall|n: Seq<char>| #[trigger] r.contains(n) <==> names.contains(n) || n
            == name by {
            if names.contains(n) {
                let k = choose|k: int| 0 <= k < names.len() && names[k] == n;
                assert(r[k + 1] == n);
            }
            if r.contains(n) && n != name {
                let k = choose|k: int| 0 <= k < r.len() && r[k] == n;
                assert(names[k - 1] == n);
            }
        }
    } else {
        let tail = names.skip(1);
        precedes_is_total(names[0], name);
        assert forall|i: int, j: int| 0 <= i < j < tail.len() implies precedes(
            #[trigger] tail[i],
            #[trigger] tail[j],
        ) by {
            assert(precedes(names[i + 1], names[j + 1]));
        }
        lemma_filed_is_ordered(tail, name);
        let rest = filed(tail, name);
        assert forall|i: int, j: int| 0 <= i < j < r.len() implies precedes(
            #[trigger] r[i],
            #[trigger] r[j],
        ) by {
            if i > 0 {
                assert(precedes(rest[i - 1], rest[j - 1]));
            } else {
                assert(rest.contains(rest[j - 1]));
                if rest[j - 1] != name {
                    let k = choose|k: int| 0 <= k < tail.len() && tail[k] == rest[j - 1];
                    assert(precedes(names[0], names[k + 1]));
                }
            }
        }
        assert forall|n: Seq<char>| #[trigger] r.contains(n) <==> names.contains(n) || n
            == name by {
            if names.contains(n) {
                let k = choose|k: int| 0 <= k < names.len() && names[k] == n;
                if k == 0 {
                    assert(r[0] == n);
                } else {
                    assert(tail[k - 1] == n);
                    assert(rest.contains(n));
                    let m = choose|m: int| 0 <= m < rest.len() && rest[m] == n;
                    assert(r[m + 1] == n);
                }
            }
            if n == name {
                assert(rest.contains(n));
                let m = choose|m: int| 0 <= m < rest.len() && rest[m] == n;
                assert(r[m + 1] == n);
            }
            if r.contains(n) {
                let k = choose|k: int| 0 <= k < r.len() && r[k] == n;
                if k == 0 {
                    assert(names[0] == n);
                } else {
                    assert(rest[k - 1] == n);
                    assert(rest.contains(n));
                    if tail.contains(n) {
                        let m = choose|m: int| 0 <= m < tail.len() && tail[m] == n;
                        assert(names[m + 1] == n);
                    }
                }
            }
        }
    }
}

/// A directory is strictly ordered, so no name occurs twice, and it holds exactly
/// the names of the list.
pub proof fn directory_is_ordered_and_complete(names: Seq<Seq<char>>)
    ensures
        strictly_ordered(directory(names)),
        forall|n: Seq<char>| #[trigger] directory(names).contains(n) <==> names.contains(n),
    decreases names.len(),
{
    if names.len() > 0 {
        directory_is_ordered_and_complete(names.drop_last());
        lemma_filed_is_ordered(directory(names.drop_last()), names.last());
        assert forall|n: Seq<char>| #[trigger]
            directory(names).contains(n) <==> names.contains(n) by {
            let head = names.drop_last();
            assert(directory(head).contains(n) <==> head.contains(n));
            if names.contains(n) {
                let k = choose|k: int| 0 <= k < names.len() && names[k] == n;
                if k < head.len() {
                    assert(head[k] == n);
                }
            }
            if head.contains(n) {
                let k = choose|k: int| 0 <= k < head.len() && head[k] == n;
                assert(names[k] == n);
            }
            if n == names.last() {
                assert(names[names.len() - 1] == n);
            }
        }
    }
}

/// The names filed under `key` by some items.
pub open spec fn names_at<N>(items: Seq<Json<N>>, key: Seq<char>) -> Seq<Seq<char>> {
    items.map_values(|o: Json<N>| o.name_at(key))
}

fn file_name<'a>(names: &mut Vec<&'a str>, name: &'a str)
    ensures
        str_texts(final(names)@) == filed(str_texts(old(names)@), name@),
{
    let ghost start = str_texts(names@);
    let mut i: usize = 0;
    assert(start.skip(0) =~= start);
    assert(start.take(0) + filed(start, name@) =~= filed(start, name@));
    while i < names.len() && !same(names[i], name) && !comes_before(name, names[i])
        invariant
            i <= names.len(),
            start == str_texts(names@),
            filed(start, name@) == start.take(i as int) + filed(start.skip(i as int), name@),
        decreases names.len() - i,
    {
        let ghost tail = start.skip(i as int);
        assert(tail[0] == names@[i as int]@);
        assert(tail.skip(1) =~= start.skip(i as int + 1));
        assert(start.take(i as int) + (seq![tail[0]] + filed(tail.skip(1), name@)) =~= start.take(
            i as int + 1,
        ) + filed(tail.skip(1), name@));
        i = i + 1;
    }
    let ghost tail = start.skip(i as int);
    if i < names.len() {
        assert(tail[0] == names@[i as int]@);
        if same(names[i], name) {
            assert(start =~= start.take(i as int) + tail);
        } else {
            let ghost before = names@;
            names.insert(i, name);
            assert(str_texts(names@) =~= start.take(i as int) + (seq![name@] + tail));
        }
    } else {
        assert(tail =~= Seq::empty());
        names.push(name);
        assert(str_texts(names@) =~= start.take(i as int) + seq![name@]);
    }
}

/// The different names filed under `key`, in code point order.
pub fn directory_of<'a, N>(items: &Vec<&'a Json<N>>, key: &str) -> (r: Vec<&'a str>)
    ensures
        str_texts(r@) == directory(names_at(items@.unref(), key@)),
{
    let ghost all = names_at(items@.unref(), key@);
    let mut names: Vec<&'a str> = Vec::new();
    let mut i: usize = 0;
    assert(str_texts(names@) =~= directory(all.take(0)));
    while i < items.len()
        invariant
            i <= items.len(),
            all == names_at(items@.unref(), key@),
            str_texts(names@) == directory(all.take(i as int)),
        decreases items.len() - i,
    {
        let item: &'a Json<N> = items[i];
        assert(all.take(i as int + 1).drop_last() =~= all.take(i as int));
        assert(all.take(i as int + 1).last() == item.name_at(key@));
        file_name(&mut names, item.name_in(key));
        i = i + 1;
    }
    assert(all.take(items.len() as int) =~= all);
    names
}

/// The items whose name under `key` is `want`.
pub open spec fn named<N>(items: Seq<Json<N>>, key: Seq<char>, want: Seq<char>) -> Seq<Json<N>> {
    items.filter(|o: Json<N>| o.name_at(key) == want)
}

/// The items whose name under `key` is `want`, in order.
pub fn select_named<'a, N>(items: &Vec<&'a Json<N>>, key: &str, want: &str) -> (r: Vec<&'a Json<N>>)
    ensures
        r@.unref() == named(items@.unref(), key@, want@),
{
    let ghost keep = |o: Json<N>| o.name_at(key@) == want@;
    let mut out: Vec<&'a Json<N>> = Vec::new();
    let mut i: usize = 0;
    while i < items.len()
        invariant
            i <= items.len(),
            keep == (|o: Json<N>| o.name_at(key@) == want@),
            out@.unref() == items@.unref().take(i as int).filter(keep),
        decreases items.len() - i,
    {
        let o = items[i];
        proof {
            crate::json::lemma_filter_step(items@.unref(), i as int, keep);
        }
        if same(o.name_in(key), want) {
            let ghost before = out@;
            out.push(o);
            assert(out@.unref() =~= before.unref().push(*o));
        }
        i = i + 1;
    }
    assert(items@.unref().take(items.len() as int) =~= items@.unref());
    out
}

/// Which names there are fixes the directory, not the order they come in.
pub proof fn a_directory_has_no_order(a: Seq<Seq<char>>, b: Seq<Seq<char>>)
    requires
        forall|n: Seq<char>| #[trigger] a.contains(n) <==> b.contains(n),
    ensures
        directory(a) == directory(b),
{
    let before = |x: Seq<char>, y: Seq<char>| precedes(x, y);
    directory_is_ordered_and_complete(a);
    directory_is_ordered_and_complete(b);
    assert forall|x: Seq<char>| !#[trigger] before(x, x) by {
        precedes_is_irreflexive(x);
    }
    assert forall|x: Seq<char>, y: Seq<char>, z: Seq<char>| #[trigger] before(x, y)
        && #[trigger] before(y, z) implies before(x, z) by {
        precedes_is_transitive(x, y, z);
    }
    assert forall|n: Seq<char>| #[trigger] directory(a).contains(n) <==> directory(b).contains(
        n,
    ) by {
        assert(a.contains(n) <==> b.contains(n));
    }
    a_strict_order_fixes_a_list(directory(a), directory(b), before);
}

proof fn lemma_one_group(names: Seq<Seq<char>>, name: Seq<char>, weight: int)
    requires
        strictly_ordered(names),
    ensures
        tally(
            names,
            |n: Seq<char>|
                if n == name {
                    weight
                } else {
                    0
                },
        ) == if names.contains(name) {
            weight
        } else {
            0
        },
    decreases names.len(),
{
    if names.len() > 0 {
        let head = names.drop_last();
        assert forall|i: int, j: int| 0 <= i < j < head.len() implies precedes(
            #[trigger] head[i],
            #[trigger] head[j],
        ) by {
            assert(precedes(names[i], names[j]));
        }
        lemma_one_group(head, name, weight);
        if head.contains(name) {
            let k = choose|k: int| 0 <= k < head.len() && head[k] == name;
            assert(names[k] == name);
            assert(precedes(names[k], names[names.len() - 1]));
            precedes_is_irreflexive(name);
        }
        if names.contains(name) {
            let k = choose|k: int| 0 <= k < names.len() && names[k] == name;
            if k < head.len() {
                assert(head[k] == name);
            }
        }
        if names.last() == name {
            assert(names[names.len() - 1] == name);
        }
    }
}

/// Grouping items by their names loses none and counts none twice: the groups weigh
/// together what the items do.
pub proof fn grouping_loses_nothing<N>(
    items: Seq<Json<N>>,
    key: Seq<char>,
    names: Seq<Seq<char>>,
    w: spec_fn(Json<N>) -> int,
)
    requires
        strictly_ordered(names),
        forall|i: int| 0 <= i < items.len() ==> names.contains((#[trigger] items[i]).name_at(key)),
    ensures
        tally(names, |n: Seq<char>| tally(named(items, key, n), w)) == tally(items, w),
    decreases items.len(),
{
    let groups = |n: Seq<char>| tally(named(items, key, n), w);
    if items.len() == 0 {
        let nothing = |n: Seq<char>|
            if n == key {
                0int
            } else {
                0
            };
        assert forall|i: int| 0 <= i < names.len() implies groups(#[trigger] names[i]) == nothing(
            names[i],
        ) by {
            reveal(Seq::filter);
        }
        lemma_tally_compares(names, groups, nothing);
        lemma_one_group(names, key, 0);
    } else {
        let head = items.drop_last();
        let x = items.last();
        let name = x.name_at(key);
        assert(names.contains(items[items.len() - 1].name_at(key)));
        assert forall|i: int| 0 <= i < head.len() implies names.contains(
            (#[trigger] head[i]).name_at(key),
        ) by {
            assert(head[i] == items[i]);
        }
        grouping_loses_nothing(head, key, names, w);
        let older = |n: Seq<char>| tally(named(head, key, n), w);
        let newest = |n: Seq<char>|
            if n == name {
                w(x)
            } else {
                0
            };
        let both = |n: Seq<char>| older(n) + newest(n);
        assert forall|i: int| 0 <= i < names.len() implies groups(#[trigger] names[i]) == both(
            names[i],
        ) by {
            let keep = |o: Json<N>| o.name_at(key) == names[i];
            reveal(Seq::filter);
            let kept = head.filter(keep);
            assert(kept.push(x).drop_last() =~= kept);
        }
        lemma_tally_compares(names, groups, both);
        lemma_tally_of_sum(names, older, newest);
        lemma_one_group(names, name, w(x));
    }
}

/// The last item of a list, if there is one.
pub open spec fn last_of<T>(items: Seq<T>) -> Option<T> {
    if items.len() == 0 {
        None
    } else {
        Some(items.last())
    }
}

/// The last item of a name is the one that no other of that name follows.
pub proof fn the_last_of_a_name_counts<N>(
    items: Seq<Json<N>>,
    key: Seq<char>,
    want: Seq<char>,
    k: int,
)
    requires
        0 <= k < items.len(),
        items[k].name_at(key) == want,
        forall|j: int| k < j < items.len() ==> (#[trigger] items[j]).name_at(key) != want,
    ensures
        last_of(named(items, key, want)) == Some(items[k]),
    decreases items.len(),
{
    reveal(Seq::filter);
    let head = items.drop_last();
    if k < items.len() - 1 {
        assert(items[items.len() - 1].name_at(key) != want);
        assert forall|j: int| k < j < head.len() implies (#[trigger] head[j]).name_at(key)
            != want by {
            assert(head[j] == items[j]);
        }
        the_last_of_a_name_counts(head, key, want, k);
    }
}

/// A name that no item carries has no last item.
pub proof fn a_name_nobody_carries_has_no_item<N>(
    items: Seq<Json<N>>,
    key: Seq<char>,
    want: Seq<char>,
)
    requires
        forall|j: int| 0 <= j < items.len() ==> (#[trigger] items[j]).name_at(key) != want,
    ensures
        last_of(named(items, key, want)) is None,
{
    let keep = |o: Json<N>| o.name_at(key) == want;
    let ours = items.filter(keep);
    if ours.len() > 0 {
        items.lemma_filter_pred(keep, 0);
        assert(ours.contains(ours[0]));
        items.lemma_filter_contains_rev(keep, ours[0]);
        let j = choose|j: int| 0 <= j < items.len() && items[j] == ours[0];
        assert(items[j].name_at(key) != want);
    }
}

} // verus!
