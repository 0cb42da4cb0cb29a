use vstd::prelude::*;

use crate::amount::Amount;
use crate::commands::rewards::laws::{
    a_gap_is_in_step, a_paid_period_is_no_gap, every_unpaid_period_is_a_gap, gaps_strictly_increase,
    in_step,
};
use crate::commands::rewards::reconcile::{
    by_period, earnings_key, increasing, lemma_by_period_keeps_length, lemma_payouts_are_filed,
    lemma_totals_are_tallies, mismatched, pay_of, payout_rows, payouts_of, reconciliation_of,
    start_of, sum_at, timeline, timeline_is_increasing_and_complete, total_earned, total_gaps,
    total_payouts, PayoutsView,
};
use crate::groups::{
    a_directory_has_no_order, directory, directory_is_ordered_and_complete, grouping_loses_nothing,
    named, names_at,
};
use crate::json::Json;
use crate::micros::{distance, Micros};
use crate::sort::{
    different_keys_sort_strictly, sorting_keeps_the_items, sorting_keeps_the_members,
    stable_sorted,
};
use crate::tally::{
    a_strict_order_fixes_a_list, a_tally_has_no_order, lemma_same_members, lemma_tally_compares,
    lemma_tally_counts, lemma_tally_of_filter, lemma_tally_of_map, tally,
};
use crate::text::{precedes, precedes_is_irreflexive};

verus! {

/// Weighing the listed rows is weighing the rows before they were sorted.
proof fn lemma_listing_keeps_tallies<N: Amount>(
    rewards: Seq<Json<N>>,
    programs: Seq<Json<N>>,
    w: spec_fn(PayoutsView<N>) -> int,
)
    ensures
        tally(reconciliation_of(rewards, programs).properties, w) == tally(
            payout_rows(rewards, programs),
            w,
        ),
{
    let rows = payout_rows(rewards, programs);
    let tag = |r: PayoutsView<N>| earnings_key(r);
    let untag = |p: (i128, PayoutsView<N>)| p.1;
    let tagged = rows.map_values(tag);
    let by_tag = |p: (i128, PayoutsView<N>)| w(untag(p));
    let back = |r: PayoutsView<N>| by_tag(tag(r));
    sorting_keeps_the_items(tagged);
    a_tally_has_no_order(stable_sorted(tagged), tagged, by_tag);
    lemma_tally_of_map(stable_sorted(tagged), untag, w);
    lemma_tally_of_map(rows, tag, by_tag);
    lemma_tally_compares(rows, back, w);
}

/// The reconciliation has one row for every rewarded property and no other, a row
/// counts the payouts of its property, and the totals are the sums over the rows.
pub proof fn each_rewarded_property_has_one_row<N: Amount>(
    rewards: Seq<Json<N>>,
    programs: Seq<Json<N>>,
)
    ensures
        ({
            let r = reconciliation_of(rewards, programs);
            let rows = r.properties;
            &&& forall|i: int|
                0 <= i < rows.len() ==> {
                    &&& #[trigger] rows[i] == payouts_of(rewards, programs, rows[i].property_id)
                    &&& names_at(rewards, "propertyId"@).contains(rows[i].property_id)
                    &&& rows[i].payouts == named(rewards, "propertyId"@, rows[i].property_id).len()
                }
            &&& forall|k: int|
                0 <= k < rewards.len() ==> exists|i: int|
                    0 <= i < rows.len() && (#[trigger] rows[i]).property_id == (
                    #[trigger] rewards[k]).name_at("propertyId"@)
            &&& forall|i: int, j: int|
                0 <= i < j < rows.len() ==> (#[trigger] rows[i]).property_id != (
                #[trigger] rows[j]).property_id
            &&& r.total_payouts == total_payouts(rows)
            &&& r.total_gaps == total_gaps(rows)
        }),
{
    let r = reconciliation_of(rewards, programs);
    let listed = r.properties;
    let names = names_at(rewards, "propertyId"@);
    let pids = directory(names);
    let rows = payout_rows(rewards, programs);
    let tagged = rows.map_values(|r: PayoutsView<N>| earnings_key(r));
    let sorted = stable_sorted(tagged);
    directory_is_ordered_and_complete(names);
    lemma_payouts_are_filed(rewards);
    sorting_keeps_the_members(tagged);
    sorting_keeps_the_items(tagged);
    assert(tagged.no_duplicates()) by {
        assert forall|i: int, j: int| 0 <= i < j < tagged.len() implies tagged[i] != tagged[j] by {
            assert(tagged[i].1.property_id == pids[i] && tagged[j].1.property_id == pids[j]);
            assert(precedes(pids[i], pids[j]));
            precedes_is_irreflexive(pids[i]);
        }
    }
    lemma_same_members(tagged, sorted);
    assert forall|i: int| 0 <= i < listed.len() implies {
        &&& #[trigger] listed[i] == payouts_of(rewards, programs, listed[i].property_id)
        &&& names.contains(listed[i].property_id)
        &&& listed[i].payouts == named(rewards, "propertyId"@, listed[i].property_id).len()
        &&& sorted[i] == earnings_key(listed[i])
    } by {
        assert(sorted.contains(sorted[i]));
        assert(tagged.contains(sorted[i]));
        let j = choose|j: int| 0 <= j < tagged.len() && tagged[j] == sorted[i];
        assert(rows[j] == payouts_of(rewards, programs, pids[j]));
        assert(pids.contains(pids[j]));
        lemma_by_period_keeps_length(named(rewards, "propertyId"@, pids[j]));
    }
    assert forall|k: int| 0 <= k < rewards.len() implies exists|i: int|
        0 <= i < listed.len() && (#[trigger] listed[i]).property_id == (
        #[trigger] rewards[k]).name_at("propertyId"@) by {
        let pid = rewards[k].name_at("propertyId"@);
        assert(pids.contains(pid));
        let j = choose|j: int| 0 <= j < pids.len() && pids[j] == pid;
        assert(tagged[j].1.property_id == pid);
        assert(tagged.contains(tagged[j]));
        assert(sorted.contains(tagged[j]));
        let i = choose|i: int| 0 <= i < sorted.len() && sorted[i] == tagged[j];
        assert(listed[i] == sorted[i].1);
    }
    assert forall|i: int, j: int| 0 <= i < j < listed.len() implies (
    #[trigger] listed[i]).property_id != (#[trigger] listed[j]).property_id by {
        assert(sorted[i] != sorted[j]);
    }
    lemma_totals_are_tallies(rows);
    lemma_totals_are_tallies(listed);
    lemma_listing_keeps_tallies(rewards, programs, |r: PayoutsView<N>| r.payouts as int);
    lemma_listing_keeps_tallies(rewards, programs, |r: PayoutsView<N>| r.gaps.len() as int);
}

/// Whether every payout names its period, and no two of one property the same.
pub open spec fn one_payout_a_period<N>(rewards: Seq<Json<N>>) -> bool {
    &&& forall|i: int|
        0 <= i < rewards.len() ==> (#[trigger] rewards[i]).whole_at("periodStart"@) is Some
    &&& forall|i: int, j: int|
        0 <= i < j < rewards.len() && (#[trigger] rewards[i]).name_at("propertyId"@) == (
        #[trigger] rewards[j]).name_at("propertyId"@) ==> start_of(rewards[i]) != start_of(
            rewards[j],
        )
}

proof fn lemma_other_order_keeps_periods<N>(a: Seq<Json<N>>, b: Seq<Json<N>>)
    requires
        a.to_multiset() == b.to_multiset(),
        one_payout_a_period(a),
    ensures
        one_payout_a_period(b),
{
    lemma_same_members(a, b);
    assert(a.no_duplicates()) by {
        assert forall|i: int, j: int| 0 <= i < j < a.len() implies a[i] != a[j] by {
            if a[i] == a[j] {
                assert(start_of(a[i]) != start_of(a[j]));
            }
        }
    }
    assert forall|i: int| 0 <= i < b.len() implies (#[trigger] b[i]).whole_at(
        "periodStart"@,
    ) is Some by {
        assert(b.contains(b[i]));
        assert(a.contains(b[i]));
    }
    assert forall|i: int, j: int|
        0 <= i < j < b.len() && (#[trigger] b[i]).name_at("propertyId"@) == (
        #[trigger] b[j]).name_at("propertyId"@) implies start_of(b[i]) != start_of(b[j]) by {
        assert(b.contains(b[i]) && b.contains(b[j]));
        assert(a.contains(b[i]) && a.contains(b[j]));
        let k = choose|k: int| 0 <= k < a.len() && a[k] == b[i];
        let m = choose|m: int| 0 <= m < a.len() && a[m] == b[j];
        assert(b[i] != b[j]);
        if k < m {
            assert(start_of(a[k]) != start_of(a[m]));
        } else {
            assert(start_of(a[m]) != start_of(a[k]));
        }
    }
}

/// The payouts of one property, each in a period of its own.
proof fn lemma_named_periods_differ<N>(rewards: Seq<Json<N>>, pid: Seq<char>)
    requires
        one_payout_a_period(rewards),
    ensures
        ({
            let ours = named(rewards, "propertyId"@, pid);
            forall|i: int, j: int|
                0 <= i < j < ours.len() ==> start_of(#[trigger] ours[i]) != start_of(
                    #[trigger] ours[j],
                )
        }),
    decreases rewards.len(),
{
    let keep = |o: Json<N>| o.name_at("propertyId"@) == pid;
    let ours = rewards.filter(keep);
    reveal(Seq::filter);
    if rewards.len() > 0 {
        let head = rewards.drop_last();
        let x = rewards.last();
        assert(rewards[rewards.len() - 1] == x);
        assert forall|i: int| 0 <= i < head.len() implies (#[trigger] head[i]).whole_at(
            "periodStart"@,
        ) is Some by {
            assert(head[i] == rewards[i]);
        }
        assert forall|i: int, j: int|
            0 <= i < j < head.len() && (#[trigger] head[i]).name_at("propertyId"@) == (
            #[trigger] head[j]).name_at("propertyId"@) implies start_of(head[i]) != start_of(
            head[j],
        ) by {
            assert(head[i] == rewards[i] && head[j] == rewards[j]);
        }
        lemma_named_periods_differ(head, pid);
        let older = head.filter(keep);
        assert(older == named(head, "propertyId"@, pid));
        assert(ours == if keep(x) {
            older.push(x)
        } else {
            older
        });
        assert forall|i: int, j: int| 0 <= i < j < ours.len() implies start_of(
            #[trigger] ours[i],
        ) != start_of(#[trigger] ours[j]) by {
            assert(ours[i] == older[i]);
            if j < older.len() {
                assert(ours[j] == older[j]);
            } else {
                head.lemma_filter_pred(keep, i);
                assert(older.contains(older[i]));
                head.lemma_filter_contains_rev(keep, older[i]);
                let k = choose|k: int| 0 <= k < head.len() && head[k] == older[i];
                assert(rewards[k] == older[i]);
                assert(ours[j] == x && keep(x));
                assert(rewards[k].name_at("propertyId"@) == pid);
                assert(start_of(rewards[k]) != start_of(rewards[rewards.len() - 1]));
            }
        }
    }
}

proof fn lemma_named_members<N>(a: Seq<Json<N>>, b: Seq<Json<N>>, pid: Seq<char>)
    requires
        a.to_multiset() == b.to_multiset(),
    ensures
        forall|x: Json<N>| #[trigger]
            named(a, "propertyId"@, pid).contains(x) <==> named(b, "propertyId"@, pid).contains(x),
{
    let keep = |o: Json<N>| o.name_at("propertyId"@) == pid;
    lemma_same_members(a, b);
    assert forall|x: Json<N>| #[trigger] named(a, "propertyId"@, pid).contains(x) <==> named(
        b,
        "propertyId"@,
        pid,
    ).contains(x) by {
        lemma_named_member(a, pid, x);
        lemma_named_member(b, pid, x);
        assert(a.contains(x) <==> b.contains(x));
    }
}

proof fn lemma_named_member<N>(items: Seq<Json<N>>, pid: Seq<char>, x: Json<N>)
    ensures
        named(items, "propertyId"@, pid).contains(x) <==> items.contains(x) && x.name_at(
            "propertyId"@,
        ) == pid,
{
    let keep = |o: Json<N>| o.name_at("propertyId"@) == pid;
    let ours = items.filter(keep);
    if ours.contains(x) {
        let k = choose|k: int| 0 <= k < ours.len() && ours[k] == x;
        items.lemma_filter_pred(keep, k);
        items.lemma_filter_contains_rev(keep, x);
    }
    if items.contains(x) && keep(x) {
        let k = choose|k: int| 0 <= k < items.len() && items[k] == x;
        items.lemma_filter_contains(keep, k);
    }
}

proof fn lemma_by_period_members<N>(rows: Seq<Json<N>>)
    ensures
        forall|x: Json<N>| #[trigger] by_period(rows).contains(x) <==> rows.contains(x),
{
    let tagged = rows.map_values(|r: Json<N>| (start_of(r) as i128, r));
    let sorted = stable_sorted(tagged);
    let out = by_period(rows);
    sorting_keeps_the_members(tagged);
    assert forall|x: Json<N>| #[trigger] out.contains(x) <==> rows.contains(x) by {
        if out.contains(x) {
            let i = choose|i: int| 0 <= i < out.len() && out[i] == x;
            assert(sorted.contains(sorted[i]));
            assert(tagged.contains(sorted[i]));
            let j = choose|j: int| 0 <= j < tagged.len() && tagged[j] == sorted[i];
            assert(rows[j] == x);
        }
        if rows.contains(x) {
            let j = choose|j: int| 0 <= j < rows.len() && rows[j] == x;
            assert(tagged.contains(tagged[j]));
            assert(sorted.contains(tagged[j]));
            let i = choose|i: int| 0 <= i < sorted.len() && sorted[i] == tagged[j];
            assert(out[i] == x);
        }
    }
}

/// Payouts in periods of their own come out in one order.
proof fn lemma_one_order_by_period<N>(a: Seq<Json<N>>, b: Seq<Json<N>>)
    requires
        forall|x: Json<N>| #[trigger] a.contains(x) <==> b.contains(x),
        forall|i: int, j: int|
            0 <= i < j < a.len() ==> start_of(#[trigger] a[i]) != start_of(#[trigger] a[j]),
        forall|i: int, j: int|
            0 <= i < j < b.len() ==> start_of(#[trigger] b[i]) != start_of(#[trigger] b[j]),
    ensures
        by_period(a) == by_period(b),
{
    let before = |x: Json<N>, y: Json<N>| start_of(x) < start_of(y);
    lemma_by_period_members(a);
    lemma_by_period_members(b);
    lemma_by_period_is_strict(a);
    lemma_by_period_is_strict(b);
    assert forall|x: Json<N>| #[trigger] by_period(a).contains(x) <==> by_period(b).contains(x) by {
        assert(a.contains(x) <==> b.contains(x));
    }
    a_strict_order_fixes_a_list(by_period(a), by_period(b), before);
}

proof fn lemma_by_period_is_strict<N>(rows: Seq<Json<N>>)
    requires
        forall|i: int, j: int|
            0 <= i < j < rows.len() ==> start_of(#[trigger] rows[i]) != start_of(
                #[trigger] rows[j],
            ),
    ensures
        forall|i: int, j: int|
            0 <= i < j < by_period(rows).len() ==> start_of(#[trigger] by_period(rows)[i])
                < start_of(#[trigger] by_period(rows)[j]),
{
    let tagged = rows.map_values(|r: Json<N>| (start_of(r) as i128, r));
    let sorted = stable_sorted(tagged);
    assert forall|i: int, j: int| 0 <= i < j < tagged.len() implies (#[trigger] tagged[i]).0 != (
    #[trigger] tagged[j]).0 by {
        assert(start_of(rows[i]) != start_of(rows[j]));
    }
    different_keys_sort_strictly(tagged);
    sorting_keeps_the_members(tagged);
    lemma_by_period_keeps_length(rows);
    assert forall|i: int, j: int| 0 <= i < j < by_period(rows).len() implies start_of(
        #[trigger] by_period(rows)[i],
    ) < start_of(#[trigger] by_period(rows)[j]) by {
        assert(sorted.contains(sorted[i]) && sorted.contains(sorted[j]));
        assert(tagged.contains(sorted[i]) && tagged.contains(sorted[j]));
        assert(sorted[i].0 < sorted[j].0);
    }
}

/// The properties that were rewarded do not depend on the order of the payouts.
proof fn lemma_same_directory<N>(a: Seq<Json<N>>, b: Seq<Json<N>>)
    requires
        a.to_multiset() == b.to_multiset(),
    ensures
        directory(names_at(a, "propertyId"@)) == directory(names_at(b, "propertyId"@)),
{
    let (p, q) = (names_at(a, "propertyId"@), names_at(b, "propertyId"@));
    lemma_same_members(a, b);
    assert forall|n: Seq<char>| #[trigger] p.contains(n) <==> q.contains(n) by {
        if p.contains(n) {
            let i = choose|i: int| 0 <= i < p.len() && p[i] == n;
            assert(a.contains(a[i]));
            assert(b.contains(a[i]));
            let j = choose|j: int| 0 <= j < b.len() && b[j] == a[i];
            assert(q[j] == n);
        }
        if q.contains(n) {
            let j = choose|j: int| 0 <= j < q.len() && q[j] == n;
            assert(b.contains(b[j]));
            assert(a.contains(b[j]));
            let i = choose|i: int| 0 <= i < a.len() && a[i] == b[j];
            assert(p[i] == n);
        }
    }
    a_directory_has_no_order(p, q);
}

/// While no property is paid twice for one period, the order in which payouts
/// arrive changes nothing at all.
pub proof fn arrival_order_changes_nothing<N: Amount>(
    a: Seq<Json<N>>,
    b: Seq<Json<N>>,
    programs: Seq<Json<N>>,
)
    requires
        a.to_multiset() == b.to_multiset(),
        one_payout_a_period(a),
    ensures
        reconciliation_of(a, programs) == reconciliation_of(b, programs),
{
    lemma_other_order_keeps_periods(a, b);
    lemma_same_directory(a, b);
    let pids = directory(names_at(a, "propertyId"@));
    assert forall|i: int| 0 <= i < pids.len() implies payouts_of(a, programs, #[trigger] pids[i])
        == payouts_of(b, programs, pids[i]) by {
        lemma_named_members(a, b, pids[i]);
        lemma_named_periods_differ(a, pids[i]);
        lemma_named_periods_differ(b, pids[i]);
        lemma_one_order_by_period(
            named(a, "propertyId"@, pids[i]),
            named(b, "propertyId"@, pids[i]),
        );
    }
    assert(payout_rows(a, programs) =~= payout_rows(b, programs));
}

/// What a property's payouts weigh, whatever order they are in.
pub proof fn lemma_period_tally<N>(rewards: Seq<Json<N>>, pid: Seq<char>, w: spec_fn(Json<N>) -> int)
    ensures
        tally(by_period(named(rewards, "propertyId"@, pid)), w) == tally(
            named(rewards, "propertyId"@, pid),
            w,
        ),
{
    let ours = named(rewards, "propertyId"@, pid);
    let tag = |r: Json<N>| (start_of(r) as i128, r);
    let untag = |p: (i128, Json<N>)| p.1;
    let tagged = ours.map_values(tag);
    let by_tag = |p: (i128, Json<N>)| w(untag(p));
    let back = |r: Json<N>| by_tag(tag(r));
    sorting_keeps_the_items(tagged);
    a_tally_has_no_order(stable_sorted(tagged), tagged, by_tag);
    lemma_tally_of_map(stable_sorted(tagged), untag, w);
    lemma_tally_of_map(ours, tag, by_tag);
    lemma_tally_compares(ours, back, w);
}

proof fn lemma_named_tally<N>(
    a: Seq<Json<N>>,
    b: Seq<Json<N>>,
    pid: Seq<char>,
    w: spec_fn(Json<N>) -> int,
)
    requires
        a.to_multiset() == b.to_multiset(),
    ensures
        tally(named(a, "propertyId"@, pid), w) == tally(named(b, "propertyId"@, pid), w),
        named(a, "propertyId"@, pid).len() == named(b, "propertyId"@, pid).len(),
{
    let keep = |o: Json<N>| o.name_at("propertyId"@) == pid;
    let weighed = |o: Json<N>|
        if keep(o) {
            w(o)
        } else {
            0
        };
    let counted = |o: Json<N>|
        if keep(o) {
            1int
        } else {
            0int
        };
    lemma_tally_of_filter(a, keep, w);
    lemma_tally_of_filter(b, keep, w);
    a_tally_has_no_order(a, b, weighed);
    lemma_tally_counts(a, keep);
    lemma_tally_counts(b, keep);
    a_tally_has_no_order(a, b, counted);
}

/// Whether two rows agree on everything but the amounts: which payouts there were,
/// the gaps between them and the mismatches among them.
pub open spec fn same_findings<N>(p: PayoutsView<N>, q: PayoutsView<N>) -> bool {
    &&& p.property_id == q.property_id
    &&& p.name == q.name
    &&& p.payouts == q.payouts
    &&& p.first_period == q.first_period
    &&& p.last_period == q.last_period
    &&& p.inconsistent_payouts == q.inconsistent_payouts
    &&& p.gaps == q.gaps
}

proof fn lemma_row_findings<N: Amount>(
    a: Seq<Json<N>>,
    b: Seq<Json<N>>,
    programs: Seq<Json<N>>,
    pid: Seq<char>,
)
    requires
        a.to_multiset() == b.to_multiset(),
    ensures
        same_findings(payouts_of(a, programs, pid), payouts_of(b, programs, pid)),
{
    let pool = pay_of(programs, pid).pool;
    let off = |r: Json<N>| mismatched(r, pool);
    let counted = |r: Json<N>|
        if off(r) {
            1int
        } else {
            0int
        };
    let (x, y) = (by_period(named(a, "propertyId"@, pid)), by_period(named(b, "propertyId"@, pid)));
    lemma_named_tally(a, b, pid, counted);
    lemma_by_period_keeps_length(named(a, "propertyId"@, pid));
    lemma_by_period_keeps_length(named(b, "propertyId"@, pid));
    lemma_period_tally(a, pid, counted);
    lemma_period_tally(b, pid, counted);
    lemma_tally_counts(x, off);
    lemma_tally_counts(y, off);
    lemma_named_members(a, b, pid);
    lemma_by_period_members(named(a, "propertyId"@, pid));
    lemma_by_period_members(named(b, "propertyId"@, pid));
    assert forall|r: Json<N>| #[trigger] x.contains(r) <==> y.contains(r) by {
        assert(named(a, "propertyId"@, pid).contains(r) <==> named(
            b,
            "propertyId"@,
            pid,
        ).contains(r));
    }
    lemma_one_timeline(x, y);
}

proof fn lemma_one_timeline<N>(x: Seq<Json<N>>, y: Seq<Json<N>>)
    requires
        forall|r: Json<N>| #[trigger] x.contains(r) <==> y.contains(r),
    ensures
        timeline(x) == timeline(y),
{
    let before = |s: u64, t: u64| s < t;
    timeline_is_increasing_and_complete(x);
    timeline_is_increasing_and_complete(y);
    assert forall|t: u64| #[trigger] timeline(x).contains(t) <==> timeline(y).contains(t) by {
        if timeline(x).contains(t) {
            let i = choose|i: int|
                0 <= i < x.len() && (#[trigger] x[i]).whole_at("periodStart"@) == Some(t);
            assert(x.contains(x[i]));
            assert(y.contains(x[i]));
            let j = choose|j: int| 0 <= j < y.len() && y[j] == x[i];
            assert(y[j].whole_at("periodStart"@) == Some(t));
        }
        if timeline(y).contains(t) {
            let j = choose|j: int|
                0 <= j < y.len() && (#[trigger] y[j]).whole_at("periodStart"@) == Some(t);
            assert(y.contains(y[j]));
            assert(x.contains(y[j]));
            let i = choose|i: int| 0 <= i < x.len() && x[i] == y[j];
            assert(x[i].whole_at("periodStart"@) == Some(t));
        }
    }
    a_strict_order_fixes_a_list(timeline(x), timeline(y), before);
}

/// In whatever order payouts arrive, every property has the same payouts, gaps and
/// mismatches, and so have the totals.
pub proof fn arrival_order_changes_no_finding<N: Amount>(
    a: Seq<Json<N>>,
    b: Seq<Json<N>>,
    programs: Seq<Json<N>>,
)
    requires
        a.to_multiset() == b.to_multiset(),
    ensures
        ({
            let (x, y) = (payout_rows(a, programs), payout_rows(b, programs));
            &&& x.len() == y.len()
            &&& forall|i: int| 0 <= i < x.len() ==> same_findings(#[trigger] x[i], y[i])
            &&& reconciliation_of(a, programs).total_payouts == reconciliation_of(
                b,
                programs,
            ).total_payouts
            &&& reconciliation_of(a, programs).total_gaps == reconciliation_of(
                b,
                programs,
            ).total_gaps
        }),
{
    let (x, y) = (payout_rows(a, programs), payout_rows(b, programs));
    let pids = directory(names_at(a, "propertyId"@));
    lemma_same_directory(a, b);
    assert forall|i: int| 0 <= i < x.len() implies same_findings(#[trigger] x[i], y[i]) by {
        lemma_row_findings(a, b, programs, pids[i]);
    }
    lemma_same_totals(x, y);
}

proof fn lemma_same_totals<N>(x: Seq<PayoutsView<N>>, y: Seq<PayoutsView<N>>)
    requires
        x.len() == y.len(),
        forall|i: int| 0 <= i < x.len() ==> same_findings(#[trigger] x[i], y[i]),
    ensures
        total_payouts(x) == total_payouts(y),
        total_gaps(x) == total_gaps(y),
    decreases x.len(),
{
    if x.len() > 0 {
        let (p, q) = (x.drop_last(), y.drop_last());
        assert forall|i: int| 0 <= i < p.len() implies same_findings(#[trigger] p[i], q[i]) by {
            assert(p[i] == x[i] && q[i] == y[i]);
        }
        lemma_same_totals(p, q);
        assert(same_findings(x[x.len() - 1], y[y.len() - 1]));
    }
}

/// The millionths of an amount, or none where there is no amount.
pub open spec fn paid_units(r: Json<Micros>) -> int {
    r.amount_at("amount"@).units as int
}

pub open spec fn paid_size(r: Json<Micros>) -> int {
    distance(paid_units(r)) as int
}

/// Whether all the payouts together stay inside the range of exact amounts.
pub open spec fn payouts_in_range(rewards: Seq<Json<Micros>>) -> bool {
    tally(rewards, |r: Json<Micros>| paid_size(r)) <= i64::MAX
}

proof fn lemma_sum_is_exact(rows: Seq<Json<Micros>>)
    requires
        payouts_in_range(rows),
    ensures
        sum_at(rows, "amount"@).units == tally(rows, |r: Json<Micros>| paid_units(r)),
        distance(tally(rows, |r: Json<Micros>| paid_units(r))) <= tally(
            rows,
            |r: Json<Micros>| paid_size(r),
        ),
    decreases rows.len(),
{
    if rows.len() > 0 {
        lemma_sum_is_exact(rows.drop_last());
    }
}

/// What a property earned, exactly: the sum of its payouts in any order.
proof fn lemma_earned_is_exact(
    rewards: Seq<Json<Micros>>,
    programs: Seq<Json<Micros>>,
    pid: Seq<char>,
)
    requires
        payouts_in_range(rewards),
    ensures
        ({
            let ours = named(rewards, "propertyId"@, pid);
            let earned = payouts_of(rewards, programs, pid).earned.units;
            &&& earned == tally(ours, |r: Json<Micros>| paid_units(r))
            &&& distance(earned as int) <= tally(ours, |r: Json<Micros>| paid_size(r))
        }),
{
    let keep = |o: Json<Micros>| o.name_at("propertyId"@) == pid;
    let size = |r: Json<Micros>| paid_size(r);
    let units = |r: Json<Micros>| paid_units(r);
    let ours = named(rewards, "propertyId"@, pid);
    let kept = |r: Json<Micros>|
        if keep(r) {
            size(r)
        } else {
            0
        };
    lemma_tally_of_filter(rewards, keep, size);
    lemma_tally_compares(rewards, kept, size);
    lemma_period_tally(rewards, pid, size);
    lemma_period_tally(rewards, pid, units);
    lemma_sum_is_exact(by_period(ours));
}

pub open spec fn earned_units(r: PayoutsView<Micros>) -> int {
    r.earned.units as int
}

proof fn lemma_total_is_exact(rows: Seq<PayoutsView<Micros>>)
    requires
        tally(rows, |r: PayoutsView<Micros>| distance(earned_units(r)) as int) <= i64::MAX,
    ensures
        total_earned(rows).units == tally(rows, |r: PayoutsView<Micros>| earned_units(r)),
        distance(tally(rows, |r: PayoutsView<Micros>| earned_units(r))) <= tally(
            rows,
            |r: PayoutsView<Micros>| distance(earned_units(r)) as int,
        ),
    decreases rows.len(),
{
    if rows.len() > 0 {
        lemma_total_is_exact(rows.drop_last());
    }
}

/// Inside the range of exact amounts the total earned is the sum of all the payouts,
/// and of what the listed properties earned.
pub proof fn earnings_add_up(rewards: Seq<Json<Micros>>, programs: Seq<Json<Micros>>)
    requires
        payouts_in_range(rewards),
    ensures
        ({
            let r = reconciliation_of(rewards, programs);
            &&& r.total_earned.units == tally(rewards, |r: Json<Micros>| paid_units(r))
            &&& r.total_earned == total_earned(r.properties)
            &&& r.total_earned.units == tally(
                r.properties,
                |r: PayoutsView<Micros>| earned_units(r),
            )
        }),
{
    let rows = payout_rows(rewards, programs);
    let listed = reconciliation_of(rewards, programs).properties;
    let pids = directory(names_at(rewards, "propertyId"@));
    let row = |pid: Seq<char>| payouts_of(rewards, programs, pid);
    let units = |r: Json<Micros>| paid_units(r);
    let size = |r: Json<Micros>| paid_size(r);
    let earned = |r: PayoutsView<Micros>| earned_units(r);
    let extent = |r: PayoutsView<Micros>| distance(earned_units(r)) as int;
    let row_units = |pid: Seq<char>| earned(row(pid));
    let row_extent = |pid: Seq<char>| extent(row(pid));
    let group_units = |pid: Seq<char>| tally(named(rewards, "propertyId"@, pid), units);
    let group_size = |pid: Seq<char>| tally(named(rewards, "propertyId"@, pid), size);
    lemma_payouts_are_filed(rewards);
    lemma_tally_of_map(pids, row, earned);
    lemma_tally_of_map(pids, row, extent);
    assert forall|i: int| 0 <= i < pids.len() implies row_units(#[trigger] pids[i]) == group_units(
        pids[i],
    ) && row_extent(pids[i]) <= group_size(pids[i]) by {
        lemma_earned_is_exact(rewards, programs, pids[i]);
    }
    lemma_tally_compares(pids, row_units, group_units);
    lemma_tally_compares(pids, row_extent, group_size);
    grouping_loses_nothing(rewards, "propertyId"@, pids, units);
    grouping_loses_nothing(rewards, "propertyId"@, pids, size);
    lemma_total_is_exact(rows);
    lemma_listing_keeps_tallies(rewards, programs, earned);
    lemma_listing_keeps_tallies(rewards, programs, extent);
    lemma_total_is_exact(listed);
}

/// Inside the range of exact amounts, the order in which payouts arrive changes no
/// earnings, however often a property is paid for one period.
pub proof fn arrival_order_changes_no_earnings(
    a: Seq<Json<Micros>>,
    b: Seq<Json<Micros>>,
    programs: Seq<Json<Micros>>,
)
    requires
        a.to_multiset() == b.to_multiset(),
        payouts_in_range(a),
    ensures
        ({
            let (x, y) = (payout_rows(a, programs), payout_rows(b, programs));
            &&& x.len() == y.len()
            &&& forall|i: int| 0 <= i < x.len() ==> (#[trigger] x[i]).earned == y[i].earned
            &&& reconciliation_of(a, programs).total_earned == reconciliation_of(
                b,
                programs,
            ).total_earned
        }),
{
    let (x, y) = (payout_rows(a, programs), payout_rows(b, programs));
    let pids = directory(names_at(a, "propertyId"@));
    let units = |r: Json<Micros>| paid_units(r);
    let size = |r: Json<Micros>| paid_size(r);
    lemma_same_directory(a, b);
    a_tally_has_no_order(a, b, size);
    a_tally_has_no_order(a, b, units);
    assert forall|i: int| 0 <= i < x.len() implies (#[trigger] x[i]).earned == y[i].earned by {
        lemma_earned_is_exact(a, programs, pids[i]);
        lemma_earned_is_exact(b, programs, pids[i]);
        lemma_named_tally(a, b, pids[i], units);
    }
    earnings_add_up(a, programs);
    earnings_add_up(b, programs);
}

/// Whether a property was paid for a period.
pub open spec fn paid_for<N>(rewards: Seq<Json<N>>, pid: Seq<char>, period_start: u64) -> bool {
    exists|i: int|
        0 <= i < rewards.len() && (#[trigger] rewards[i]).name_at("propertyId"@) == pid
            && rewards[i].whole_at("periodStart"@) == Some(period_start)
}

/// The timeline of a property holds exactly the periods it was paid for.
pub proof fn lemma_timeline_is_what_was_paid<N>(rewards: Seq<Json<N>>, pid: Seq<char>, t: u64)
    ensures
        timeline(by_period(named(rewards, "propertyId"@, pid))).contains(t) <==> paid_for(
            rewards,
            pid,
            t,
        ),
{
    let ours = named(rewards, "propertyId"@, pid);
    let rows = by_period(ours);
    timeline_is_increasing_and_complete(rows);
    lemma_by_period_members(ours);
    if timeline(rows).contains(t) {
        let k = choose|k: int|
            0 <= k < rows.len() && (#[trigger] rows[k]).whole_at("periodStart"@) == Some(t);
        assert(rows.contains(rows[k]));
        assert(ours.contains(rows[k]));
        lemma_named_member(rewards, pid, rows[k]);
        let i = choose|i: int| 0 <= i < rewards.len() && rewards[i] == rows[k];
        assert(rewards[i].name_at("propertyId"@) == pid);
    }
    if paid_for(rewards, pid, t) {
        let i = choose|i: int|
            0 <= i < rewards.len() && (#[trigger] rewards[i]).name_at("propertyId"@) == pid
                && rewards[i].whole_at("periodStart"@) == Some(t);
        lemma_named_member(rewards, pid, rewards[i]);
        assert(rewards.contains(rewards[i]));
        assert(rows.contains(rewards[i]));
        let k = choose|k: int| 0 <= k < rows.len() && rows[k] == rewards[i];
        assert(rows[k].whole_at("periodStart"@) == Some(t));
    }
}

/// Where a property's payouts lie whole periods apart, its gaps are exactly the unpaid
/// periods: those strictly between its first payout and its last, whole periods after
/// the first, that it was not paid for. They are listed in order, none twice.
pub proof fn the_gaps_are_the_unpaid_periods<N: Amount>(
    rewards: Seq<Json<N>>,
    programs: Seq<Json<N>>,
    pid: Seq<char>,
)
    requires
        pay_of(programs, pid).period > 0,
        forall|s: u64, t: u64|
            #[trigger] paid_for(rewards, pid, s) && #[trigger] paid_for(rewards, pid, t) ==> in_step(
                s,
                t,
                pay_of(programs, pid).period,
            ),
    ensures
        ({
            let row = payouts_of(rewards, programs, pid);
            let period = pay_of(programs, pid).period;
            &&& increasing(row.gaps)
            &&& forall|t: u64| #[trigger]
                row.gaps.contains(t) <==> row.first_period < t < row.last_period && in_step(
                    row.first_period,
                    t,
                    period,
                ) && !paid_for(rewards, pid, t)
        }),
{
    let row = payouts_of(rewards, programs, pid);
    let period = pay_of(programs, pid).period;
    let times = timeline(by_period(named(rewards, "propertyId"@, pid)));
    timeline_is_increasing_and_complete(by_period(named(rewards, "propertyId"@, pid)));
    gaps_strictly_increase(times, period);
    assert forall|i: int| 0 <= i < times.len() implies in_step(
        times[0],
        #[trigger] times[i],
        period,
    ) by {
        assert(times.contains(times[0]) && times.contains(times[i]));
        lemma_timeline_is_what_was_paid(rewards, pid, times[0]);
        lemma_timeline_is_what_was_paid(rewards, pid, times[i]);
    }
    assert forall|t: u64| #[trigger] row.gaps.contains(t) <==> row.first_period < t
        < row.last_period && in_step(row.first_period, t, period) && !paid_for(
        rewards,
        pid,
        t,
    ) by {
        lemma_timeline_is_what_was_paid(rewards, pid, t);
        if row.gaps.contains(t) {
            let k = choose|k: int| 0 <= k < row.gaps.len() && row.gaps[k] == t;
            a_gap_is_in_step(times, period, k);
            if times.contains(t) {
                let i = choose|i: int| 0 <= i < times.len() && times[i] == t;
                a_paid_period_is_no_gap(times, period, i, k);
            }
        }
        if row.first_period < t < row.last_period && in_step(row.first_period, t, period)
            && !paid_for(rewards, pid, t) {
            every_unpaid_period_is_a_gap(times, period, t);
        }
    }
}

} // verus!
