use vstd::prelude::*;

use crate::amount::Amount;

verus! {

/// The sum of what the items of a list weigh.
pub open spec fn tally<T>(s: Seq<T>, w: spec_fn(T) -> int) -> int
    decreases s.len(),
{
    if s.len() == 0 {
        0
    } else {
        tally(s.drop_last(), w) + w(s.last())
    }
}

/// The amounts of the items of a list, added to nothing one after the other.
pub open spec fn added_up<T, N: Amount>(s: Seq<T>, amount: spec_fn(T) -> N) -> N {
    s.fold_left(N::whole(0), |sum: N, x: T| sum.sum(amount(x)))
}

/// Lists weigh the same when their items do, and no more when their items do not.
pub proof fn lemma_tally_compares<T>(s: Seq<T>, v: spec_fn(T) -> int, w: spec_fn(T) -> int)
    requires
        forall|i: int| 0 <= i < s.len() ==> v(#[trigger] s[i]) <= w(s[i]),
    ensures
        tally(s, v) <= tally(s, w),
        (forall|i: int| 0 <= i < s.len() ==> v(#[trigger] s[i]) == w(s[i])) ==> tally(s, v)
            == tally(s, w),
    decreases s.len(),
{
    if s.len() > 0 {
        let head = s.drop_last();
        assert forall|i: int| 0 <= i < head.len() implies v(#[trigger] head[i]) <= w(head[i]) by {
            assert(head[i] == s[i]);
        }
        lemma_tally_compares(head, v, w);
        assert(v(s[s.len() - 1]) <= w(s[s.len() - 1]));
        if forall|i: int| 0 <= i < s.len() ==> v(#[trigger] s[i]) == w(s[i]) {
            assert forall|i: int| 0 <= i < head.len() implies v(#[trigger] head[i]) == w(
                head[i],
            ) by {
                assert(head[i] == s[i]);
            }
            assert(v(s[s.len() - 1]) == w(s[s.len() - 1]));
        }
    }
}

/// Weighing a sum is summing the weights.
pub proof fn lemma_tally_of_sum<T>(s: Seq<T>, v: spec_fn(T) -> int, w: spec_fn(T) -> int)
    ensures
        tally(s, |x: T| v(x) + w(x)) == tally(s, v) + tally(s, w),
    decreases s.len(),
{
    if s.len() > 0 {
        lemma_tally_of_sum(s.drop_last(), v, w);
    }
}

/// What is left out weighs nothing.
pub proof fn lemma_tally_of_filter<T>(s: Seq<T>, keep: spec_fn(T) -> bool, w: spec_fn(T) -> int)
    ensures
        tally(s.filter(keep), w) == tally(
            s,
            |x: T|
                if keep(x) {
                    w(x)
                } else {
                    0
                },
        ),
    decreases s.len(),
{
    reveal(Seq::filter);
    if s.len() > 0 {
        lemma_tally_of_filter(s.drop_last(), keep, w);
        let head = s.drop_last().filter(keep);
        assert(head.push(s.last()).drop_last() =~= head);
    }
}

/// Weighing mapped items is weighing the items by what they map to.
pub proof fn lemma_tally_of_map<T, U>(s: Seq<T>, f: spec_fn(T) -> U, w: spec_fn(U) -> int)
    ensures
        tally(s.map_values(f), w) == tally(s, |x: T| w(f(x))),
    decreases s.len(),
{
    if s.len() > 0 {
        lemma_tally_of_map(s.drop_last(), f, w);
        assert(s.map_values(f).drop_last() =~= s.drop_last().map_values(f));
    }
}

/// Where every item weighs one, a list weighs its length.
pub proof fn lemma_tally_of_ones<T>(s: Seq<T>)
    ensures
        tally(s, |x: T| 1int) == s.len(),
    decreases s.len(),
{
    if s.len() > 0 {
        lemma_tally_of_ones(s.drop_last());
    }
}

/// The items that pass a test, counted one by one.
pub proof fn lemma_tally_counts<T>(s: Seq<T>, keep: spec_fn(T) -> bool)
    ensures
        s.filter(keep).len() == tally(
            s,
            |x: T|
                if keep(x) {
                    1int
                } else {
                    0int
                },
        ),
{
    let one = |x: T| 1int;
    let counted = |x: T|
        if keep(x) {
            1int
        } else {
            0int
        };
    let weighed = |x: T|
        if keep(x) {
            one(x)
        } else {
            0
        };
    lemma_tally_of_ones(s.filter(keep));
    lemma_tally_of_filter(s, keep, one);
    lemma_tally_compares(s, weighed, counted);
}

proof fn lemma_tally_without<T>(s: Seq<T>, i: int, w: spec_fn(T) -> int)
    requires
        0 <= i < s.len(),
    ensures
        tally(s, w) == tally(s.remove(i), w) + w(s[i]),
    decreases s.len(),
{
    let rest = s.remove(i);
    if i == s.len() - 1 {
        assert(rest =~= s.drop_last());
    } else {
        lemma_tally_without(s.drop_last(), i, w);
        assert(rest.drop_last() =~= s.drop_last().remove(i));
        assert(rest.last() == s.last());
    }
}

/// The order of a list does not change what it weighs.
pub proof fn a_tally_has_no_order<T>(a: Seq<T>, b: Seq<T>, w: spec_fn(T) -> int)
    requires
        a.to_multiset() == b.to_multiset(),
    ensures
        tally(a, w) == tally(b, w),
        a.len() == b.len(),
    decreases a.len(),
{
    a.to_multiset_ensures();
    b.to_multiset_ensures();
    if a.len() > 0 {
        let n = a.len() - 1;
        let x = a[n];
        assert(a.contains(x));
        assert(a.to_multiset().count(x) > 0);
        assert(b.to_multiset().count(x) > 0);
        assert(b.contains(x));
        let i = choose|i: int| 0 <= i < b.len() && b[i] == x;
        vstd::seq_lib::to_multiset_remove(a, n);
        vstd::seq_lib::to_multiset_remove(b, i);
        a_tally_has_no_order(a.remove(n), b.remove(i), w);
        lemma_tally_without(a, n, w);
        lemma_tally_without(b, i, w);
    }
}

/// Lists with the same items in some order have the same members, and one repeats
/// itself only if the other does.
pub proof fn lemma_same_members<T>(a: Seq<T>, b: Seq<T>)
    requires
        a.to_multiset() == b.to_multiset(),
    ensures
        forall|x: T| #[trigger] a.contains(x) <==> b.contains(x),
        a.no_duplicates() ==> b.no_duplicates(),
{
    a.to_multiset_ensures();
    b.to_multiset_ensures();
    assert forall|x: T| #[trigger] a.contains(x) <==> b.contains(x) by {
        assert(a.contains(x) <==> a.to_multiset().count(x) > 0);
        assert(b.contains(x) <==> b.to_multiset().count(x) > 0);
    }
    if a.no_duplicates() {
        a.lemma_multiset_has_no_duplicates();
        b.lemma_multiset_has_no_duplicates_conv();
    }
}

/// A strict order leaves one way to list the same members.
pub proof fn a_strict_order_fixes_a_list<T>(a: Seq<T>, b: Seq<T>, before: spec_fn(T, T) -> bool)
    requires
        forall|x: T| !#[trigger] before(x, x),
        forall|x: T, y: T, z: T|
            #[trigger] before(x, y) && #[trigger] before(y, z) ==> before(x, z),
        forall|i: int, j: int| 0 <= i < j < a.len() ==> before(#[trigger] a[i], #[trigger] a[j]),
        forall|i: int, j: int| 0 <= i < j < b.len() ==> before(#[trigger] b[i], #[trigger] b[j]),
        forall|x: T| #[trigger] a.contains(x) <==> b.contains(x),
    ensures
        a == b,
    decreases a.len(),
{
    if a.len() == 0 {
        if b.len() > 0 {
            assert(b.contains(b[0]));
            assert(a.contains(b[0]));
        }
        assert(a =~= b);
    } else {
        let (x, head) = (a.last(), a.drop_last());
        assert(a[a.len() - 1] == x);
        assert(a.contains(x));
        assert(b.contains(x));
        let i = choose|i: int| 0 <= i < b.len() && b[i] == x;
        let (y, tail) = (b.last(), b.drop_last());
        assert(b[b.len() - 1] == y);
        assert(b.contains(y));
        assert(a.contains(y));
        let j = choose|j: int| 0 <= j < a.len() && a[j] == y;
        if x != y {
            assert(before(b[i], b[b.len() - 1]));
            assert(before(a[j], a[a.len() - 1]));
            assert(before(x, x));
        }
        assert forall|z: T| #[trigger] head.contains(z) <==> tail.contains(z) by {
            if head.contains(z) {
                let k = choose|k: int| 0 <= k < head.len() && head[k] == z;
                assert(a[k] == z);
                assert(a.contains(z));
                assert(b.contains(z));
                let m = choose|m: int| 0 <= m < b.len() && b[m] == z;
                assert(before(a[k], a[a.len() - 1]));
                assert(tail[m] == z);
            }
            if tail.contains(z) {
                let k = choose|k: int| 0 <= k < tail.len() && tail[k] == z;
                assert(b[k] == z);
                assert(b.contains(z));
                assert(a.contains(z));
                let m = choose|m: int| 0 <= m < a.len() && a[m] == z;
                assert(before(b[k], b[b.len() - 1]));
                assert(head[m] == z);
            }
        }
        assert forall|p: int, q: int| 0 <= p < q < head.len() implies before(
            #[trigger] head[p],
            #[trigger] head[q],
        ) by {
            assert(before(a[p], a[q]));
        }
        assert forall|p: int, q: int| 0 <= p < q < tail.len() implies before(
            #[trigger] tail[p],
            #[trigger] tail[q],
        ) by {
            assert(before(b[p], b[q]));
        }
        a_strict_order_fixes_a_list(head, tail, before);
        assert(a =~= head.push(x));
        assert(b =~= tail.push(y));
    }
}

} // verus!
