use vstd::prelude::*;

use crate::amount::{percent, percent_of, Amount};
use crate::commands::quote::apply::{one_cent, one_cent_amount};
use crate::commands::rewards::calendar::{fmt_period, period_text};
use crate::commands::rewards::eligibility::{display_name, name_of};
use crate::groups::{
    directory, directory_is_ordered_and_complete, directory_of, grouping_loses_nothing, last_of,
    named, names_at, select_named, strictly_ordered,
};
use crate::json::{lemma_filter_step, Json};
use crate::report::{
    cell_views, line_views, row_views, say, say_all, Cell, CellView, Line, LineView, Table,
    TableView,
};
use crate::sort::{
    descending, descending_key, sort_by_key, sorting_commutes_with_mapping, stable_sorted, values,
};
use crate::tally::{lemma_tally_compares, lemma_tally_of_map, lemma_tally_of_ones, tally};
use crate::text::{decimal, decimal_text, joined, joined_text, str_texts, texts};

verus! {

/// The payouts of one property.
#[derive(Debug)]
pub struct Payouts<N> {
    pub property_id: String,
    pub name: String,
    pub payouts: usize,
    pub earned: N,
    pub avg_percent_of_pool: N,
    pub first_period: u64,
    pub last_period: u64,
    pub inconsistent_payouts: usize,
    pub gaps: Vec<u64>,
}

pub struct PayoutsView<N> {
    pub property_id: Seq<char>,
    pub name: Seq<char>,
    pub payouts: nat,
    pub earned: N,
    pub avg_percent_of_pool: N,
    pub first_period: u64,
    pub last_period: u64,
    pub inconsistent_payouts: nat,
    pub gaps: Seq<u64>,
}

impl<N> View for Payouts<N> {
    type V = PayoutsView<N>;

    open spec fn view(&self) -> PayoutsView<N> {
        PayoutsView {
            property_id: self.property_id@,
            name: self.name@,
            payouts: self.payouts as nat,
            earned: self.earned,
            avg_percent_of_pool: self.avg_percent_of_pool,
            first_period: self.first_period,
            last_period: self.last_period,
            inconsistent_payouts: self.inconsistent_payouts as nat,
            gaps: self.gaps@,
        }
    }
}

pub open spec fn payouts_views<N>(rows: Seq<Payouts<N>>) -> Seq<PayoutsView<N>> {
    rows.map_values(|r: Payouts<N>| r@)
}

/// All payouts against the terms of their programs.
#[derive(Debug)]
pub struct Reconciliation<N> {
    pub properties: Vec<Payouts<N>>,
    pub total_earned: N,
    pub total_payouts: usize,
    pub total_gaps: u128,
}

pub struct ReconciliationView<N> {
    pub properties: Seq<PayoutsView<N>>,
    pub total_earned: N,
    pub total_payouts: nat,
    pub total_gaps: nat,
}

impl<N> View for Reconciliation<N> {
    type V = ReconciliationView<N>;

    open spec fn view(&self) -> ReconciliationView<N> {
        ReconciliationView {
            properties: payouts_views(self.properties@),
            total_earned: self.total_earned,
            total_payouts: self.total_payouts as nat,
            total_gaps: self.total_gaps as nat,
        }
    }
}

/// What a program pays: its pool per block, the length of a period, and the name
/// it is shown under.
pub struct Pay<N> {
    pub pool: N,
    pub period: u64,
    pub name: Seq<char>,
}

/// The terms of a property: those of its last program, else the usual ones.
pub open spec fn pay_of<N: Amount>(programs: Seq<Json<N>>, pid: Seq<char>) -> Pay<N> {
    match last_of(named(programs, "propertyId"@, pid)) {
        Some(p) => {
            let daily = p.number_or("dailyRewards"@, N::whole(10));
            let blocks = p.number_or("blocksPerDay"@, N::whole(24));
            Pay {
                pool: if N::whole(0).less(blocks) {
                    daily.quotient(blocks)
                } else {
                    daily
                },
                period: match p.whole_at("blockDurationMs"@) {
                    Some(ms) => ms,
                    None => 3_600_000,
                },
                name: display_name(p),
            }
        },
        None => Pay {
            pool: N::whole(10).quotient(N::whole(24)),
            period: 3_600_000,
            name: pid,
        },
    }
}

/// When the period of a payout began, or zero.
pub open spec fn start_of<N>(r: Json<N>) -> u64 {
    match r.whole_at("periodStart"@) {
        Some(t) => t,
        None => 0,
    }
}

/// Payouts in the order of their periods.
pub open spec fn by_period<N>(rows: Seq<Json<N>>) -> Seq<Json<N>> {
    values(stable_sorted(rows.map_values(|r: Json<N>| (start_of(r) as i128, r))))
}

/// The sum of the numbers filed under `key`, where there is one.
pub open spec fn sum_at<N: Amount>(rows: Seq<Json<N>>, key: Seq<char>) -> N
    decreases rows.len(),
{
    if rows.len() == 0 {
        N::whole(0)
    } else {
        let rest = sum_at(rows.drop_last(), key);
        match rows.last().number_at(key) {
            Some(n) => rest.sum(n),
            None => rest,
        }
    }
}

/// How far a payout is from its share of the pool. A positive share tells the pool
/// it was taken from, which is held against the real one; any other share is taken
/// of the pool and held against the amount.
pub open spec fn deviation<N: Amount>(amount: N, pct: N, pool: N) -> N {
    if N::whole(0).less(pct) {
        amount.quotient(percent(pct)).difference(pool).magnitude()
    } else {
        amount.difference(percent(pct).product(pool)).magnitude()
    }
}

/// Whether a payout is not its share of the pool, to the cent.
pub open spec fn mismatched<N: Amount>(r: Json<N>, pool: N) -> bool {
    one_cent::<N>().less(deviation(r.amount_at("amount"@), r.amount_at("percentOfPool"@), pool))
}

/// An increasing list of times with one more filed in its place, unless it is
/// there.
pub open spec fn dated(times: Seq<u64>, t: u64) -> Seq<u64>
    decreases times.len(),
{
    if times.len() == 0 {
        seq![t]
    } else if times.last() < t {
        times.push(t)
    } else if times.last() == t {
        times
    } else {
        dated(times.drop_last(), t).push(times.last())
    }
}

/// The different periods of some payouts, earliest first.
pub open spec fn timeline<N>(rows: Seq<Json<N>>) -> Seq<u64>
    decreases rows.len(),
{
    if rows.len() == 0 {
        Seq::empty()
    } else {
        let rest = timeline(rows.drop_last());
        match rows.last().whole_at("periodStart"@) {
            Some(t) => dated(rest, t),
            None => rest,
        }
    }
}

/// The periods missing between two paid ones.
pub open spec fn missing(from: u64, to: u64, period: u64) -> Seq<u64> {
    let steps = (to - from) / (period as int);
    if period == 0 || steps < 1 {
        Seq::empty()
    } else {
        Seq::new((steps - 1) as nat, |k: int| (from + (k + 1) * period) as u64)
    }
}

/// The periods missing between the first paid one and the last.
pub open spec fn gaps_in(times: Seq<u64>, period: u64) -> Seq<u64>
    decreases times.len(),
{
    if times.len() < 2 {
        Seq::empty()
    } else {
        gaps_in(times.drop_last(), period) + missing(
            times[times.len() - 2],
            times.last(),
            period,
        )
    }
}

/// One property's payouts against its terms.
pub open spec fn payouts_of<N: Amount>(
    rewards: Seq<Json<N>>,
    programs: Seq<Json<N>>,
    pid: Seq<char>,
) -> PayoutsView<N> {
    let rows = by_period(named(rewards, "propertyId"@, pid));
    let pay = pay_of(programs, pid);
    let times = timeline(rows);
    PayoutsView {
        property_id: pid,
        name: pay.name,
        payouts: rows.len(),
        earned: sum_at(rows, "amount"@),
        avg_percent_of_pool: if rows.len() > 0 {
            sum_at(rows, "percentOfPool"@).quotient(N::whole(rows.len() as u64))
        } else {
            N::whole(0)
        },
        first_period: if times.len() > 0 {
            times[0]
        } else {
            0
        },
        last_period: if times.len() > 0 {
            times.last()
        } else {
            0
        },
        inconsistent_payouts: rows.filter(|r: Json<N>| mismatched(r, pay.pool)).len(),
        gaps: gaps_in(times, pay.period),
    }
}

/// The payouts of every rewarded property, in order of their ids.
pub open spec fn payout_rows<N: Amount>(
    rewards: Seq<Json<N>>,
    programs: Seq<Json<N>>,
) -> Seq<PayoutsView<N>> {
    directory(names_at(rewards, "propertyId"@)).map_values(
        |pid: Seq<char>| payouts_of(rewards, programs, pid),
    )
}

pub open spec fn total_earned<N: Amount>(rows: Seq<PayoutsView<N>>) -> N
    decreases rows.len(),
{
    if rows.len() == 0 {
        N::whole(0)
    } else {
        total_earned(rows.drop_last()).sum(rows.last().earned)
    }
}

pub open spec fn total_payouts<N>(rows: Seq<PayoutsView<N>>) -> nat
    decreases rows.len(),
{
    if rows.len() == 0 {
        0
    } else {
        total_payouts(rows.drop_last()) + rows.last().payouts
    }
}

pub open spec fn total_gaps<N>(rows: Seq<PayoutsView<N>>) -> nat
    decreases rows.len(),
{
    if rows.len() == 0 {
        0
    } else {
        total_gaps(rows.drop_last()) + rows.last().gaps.len()
    }
}

pub open spec fn earnings_key<N: Amount>(row: PayoutsView<N>) -> (i128, PayoutsView<N>) {
    (descending(row.earned.rank()), row)
}

/// The reconciliation of an account's payouts, best earner first.
pub open spec fn reconciliation_of<N: Amount>(
    rewards: Seq<Json<N>>,
    programs: Seq<Json<N>>,
) -> ReconciliationView<N> {
    let rows = payout_rows(rewards, programs);
    ReconciliationView {
        properties: values(stable_sorted(rows.map_values(|r: PayoutsView<N>| earnings_key(r)))),
        total_earned: total_earned(rows),
        total_payouts: total_payouts(rows),
        total_gaps: total_gaps(rows),
    }
}

struct PayTerms<N> {
    pool: N,
    period: u64,
    name: String,
}

fn terms_for<N: Amount>(programs: &Vec<&Json<N>>, pid: &str) -> (r: PayTerms<N>)
    ensures
        r.pool == pay_of(programs@.unref(), pid@).pool,
        r.period == pay_of(programs@.unref(), pid@).period,
        r.name@ == pay_of(programs@.unref(), pid@).name,
{
    let ours = select_named(programs, "propertyId", pid);
    assert(ours@.unref().len() == ours@.len());
    if ours.len() == 0 {
        return PayTerms {
            pool: N::of(10).over(N::of(24)),
            period: 3_600_000,
            name: pid.to_owned(),
        };
    }
    let p = ours[ours.len() - 1];
    assert(ours@.unref().last() == *p);
    let daily = p.number_in_or("dailyRewards", N::of(10));
    let blocks = p.number_in_or("blocksPerDay", N::of(24));
    PayTerms {
        pool: if N::of(0).is_below(blocks) {
            daily.over(blocks)
        } else {
            daily
        },
        period: match p.whole_in("blockDurationMs") {
            Some(ms) => ms,
            None => 3_600_000,
        },
        name: name_of(p).to_owned(),
    }
}

fn in_period_order<'a, N>(rows: &Vec<&'a Json<N>>) -> (r: Vec<&'a Json<N>>)
    ensures
        r@.unref() == by_period(rows@.unref()),
{
    let ghost all = rows@.unref();
    let ghost tag = |r: Json<N>| (start_of(r) as i128, r);
    let ghost deref = |r: &'a Json<N>| *r;
    let ghost h = |p: (i128, &'a Json<N>)| (p.0, deref(p.1));
    let mut keyed: Vec<(i128, &'a Json<N>)> = Vec::new();
    let mut i: usize = 0;
    assert(keyed@.map_values(h) =~= all.take(0).map_values(tag));
    while i < rows.len()
        invariant
            i <= rows.len(),
            all == rows@.unref(),
            tag == (|r: Json<N>| (start_of(r) as i128, r)),
            deref == (|r: &'a Json<N>| *r),
            h == (|p: (i128, &'a Json<N>)| (p.0, deref(p.1))),
            keyed@.map_values(h) == all.take(i as int).map_values(tag),
        decreases rows.len() - i,
    {
        let row: &'a Json<N> = rows[i];
        let start: u64 = match row.whole_in("periodStart") {
            Some(t) => t,
            None => 0,
        };
        let ghost before = keyed@;
        keyed.push((start as i128, row));
        assert(keyed@.map_values(h) =~= before.map_values(h).push(tag(*row)));
        i = i + 1;
        assert(keyed@.map_values(h) =~= all.take(i as int).map_values(tag));
    }
    assert(all.take(rows.len() as int) =~= all);
    let ghost tagged = keyed@;
    let sorted = sort_by_key(keyed);
    proof {
        sorting_commutes_with_mapping(tagged, deref);
        assert(values(stable_sorted(tagged).map_values(h)) =~= sorted@.unref());
    }
    sorted
}

fn sum_of<N: Amount>(rows: &Vec<&Json<N>>, key: &str) -> (r: N)
    ensures
        r == sum_at(rows@.unref(), key@),
{
    let ghost all = rows@.unref();
    let mut total = N::of(0);
    let mut i: usize = 0;
    while i < rows.len()
        invariant
            i <= rows.len(),
            all == rows@.unref(),
            total == sum_at(all.take(i as int), key@),
        decreases rows.len() - i,
    {
        assert(all.take(i as int + 1).drop_last() =~= all.take(i as int));
        assert(all.take(i as int + 1).last() == *rows@[i as int]);
        if let Some(n) = rows[i].number_in(key) {
            total = total.plus(n);
        }
        i = i + 1;
    }
    assert(all.take(rows.len() as int) =~= all);
    total
}

fn deviation_of<N: Amount>(amount: N, pct: N, pool: N) -> (r: N)
    ensures
        r == deviation(amount, pct, pool),
{
    if N::of(0).is_below(pct) {
        amount.over(percent_of(pct)).minus(pool).absolute()
    } else {
        amount.minus(percent_of(pct).times(pool)).absolute()
    }
}

fn count_mismatched<N: Amount>(rows: &Vec<&Json<N>>, pool: N) -> (r: usize)
    ensures
        r == rows@.unref().filter(|r: Json<N>| mismatched(r, pool)).len(),
{
    let ghost all = rows@.unref();
    let ghost keep = |r: Json<N>| mismatched(r, pool);
    let mut count: usize = 0;
    let mut i: usize = 0;
    assert(all.take(0).filter(keep).len() == 0) by {
        reveal(Seq::filter);
    }
    while i < rows.len()
        invariant
            i <= rows.len(),
            count <= i,
            all == rows@.unref(),
            keep == (|r: Json<N>| mismatched(r, pool)),
            count == all.take(i as int).filter(keep).len(),
        decreases rows.len() - i,
    {
        let r = rows[i];
        assert(all[i as int] == *r);
        proof {
            lemma_filter_step(all, i as int, keep);
        }
        if one_cent_amount::<N>().is_below(
            deviation_of(r.amount_in("amount"), r.amount_in("percentOfPool"), pool),
        ) {
            count = count + 1;
        }
        i = i + 1;
    }
    assert(all.take(rows.len() as int) =~= all);
    count
}

fn file_time(times: &mut Vec<u64>, t: u64)
    ensures
        final(times)@ == dated(old(times)@, t),
{
    let ghost start = times@;
    let mut i: usize = times.len();
    assert(start.take(i as int) =~= start);
    assert(dated(start, t) =~= dated(start, t) + start.skip(i as int));
    while i > 0 && times[i - 1] > t
        invariant
            i <= times.len(),
            times@ == start,
            dated(start, t) == dated(start.take(i as int), t) + start.skip(i as int),
        decreases i,
    {
        let ghost head = start.take(i as int);
        assert(head.drop_last() =~= start.take(i as int - 1));
        assert(dated(head.drop_last(), t).push(head.last()) + start.skip(i as int) =~= dated(
            start.take(i as int - 1),
            t,
        ) + start.skip(i as int - 1));
        i = i - 1;
    }
    let ghost head = start.take(i as int);
    if i > 0 && times[i - 1] == t {
        assert(start =~= head + start.skip(i as int));
    } else {
        times.insert(i, t);
        assert(times@ =~= head.push(t) + start.skip(i as int));
        if i == 0 {
            assert(head.push(t) =~= seq![t]);
        }
    }
}

fn timeline_of<N>(rows: &Vec<&Json<N>>) -> (r: Vec<u64>)
    ensures
        r@ == timeline(rows@.unref()),
{
    let ghost all = rows@.unref();
    let mut times: Vec<u64> = Vec::new();
    let mut i: usize = 0;
    while i < rows.len()
        invariant
            i <= rows.len(),
            all == rows@.unref(),
            times@ == timeline(all.take(i as int)),
        decreases rows.len() - i,
    {
        assert(all.take(i as int + 1).drop_last() =~= all.take(i as int));
        assert(all.take(i as int + 1).last() == *rows@[i as int]);
        if let Some(t) = rows[i].whole_in("periodStart") {
            file_time(&mut times, t);
        }
        i = i + 1;
    }
    assert(all.take(rows.len() as int) =~= all);
    times
}

pub open spec fn increasing(times: Seq<u64>) -> bool {
    forall|i: int, j: int| 0 <= i < j < times.len() ==> times[i] < times[j]
}

proof fn lemma_dated_is_increasing(times: Seq<u64>, t: u64)
    requires
        increasing(times),
    ensures
        increasing(dated(times, t)),
        forall|x: u64| #[trigger] dated(times, t).contains(x) <==> times.contains(x) || x == t,
    decreases times.len(),
{
    let r = dated(times, t);
    if times.len() == 0 {
        assert(r[0] == t);
    } else if times.last() < t {
        assert forall|x: u64| #[trigger] r.contains(x) <==> times.contains(x) || x == t by {
            if times.contains(x) {
                let k = choose|k: int| 0 <= k < times.len() && times[k] == x;
                assert(r[k] == x);
            }
            if x == t {
                assert(r[r.len() - 1] == x);
            }
        }
    } else if times.last() == t {
        assert(times[times.len() - 1] == t);
    } else {
        let head = times.drop_last();
        lemma_dated_is_increasing(head, t);
        let rest = dated(head, t);
        assert forall|i: int, j: int| 0 <= i < j < r.len() implies r[i] < r[j] by {
            if j == r.len() - 1 {
                assert(rest.contains(rest[i]));
                if head.contains(rest[i]) {
                    let k = choose|k: int| 0 <= k < head.len() && head[k] == rest[i];
                    assert(times[k] < times[times.len() - 1]);
                }
            }
        }
        assert forall|x: u64| #[trigger] r.contains(x) <==> times.contains(x) || x == t by {
            if times.contains(x) {
                let k = choose|k: int| 0 <= k < times.len() && times[k] == x;
                if k < head.len() {
                    assert(head[k] == x);
                    assert(rest.contains(x));
                    let m = choose|m: int| 0 <= m < rest.len() && rest[m] == x;
                    assert(r[m] == x);
                } else {
                    assert(r[r.len() - 1] == x);
                }
            }
            if x == t {
                assert(rest.contains(x));
                let m = choose|m: int| 0 <= m < rest.len() && rest[m] == x;
                assert(r[m] == x);
            }
            if r.contains(x) {
                let k = choose|k: int| 0 <= k < r.len() && r[k] == x;
                if k < rest.len() {
                    assert(rest[k] == x);
                    assert(rest.contains(x));
                    if head.contains(x) {
                        let m = choose|m: int| 0 <= m < head.len() && head[m] == x;
                        assert(times[m] == x);
                    }
                } else {
                    assert(times[times.len() - 1] == x);
                }
            }
        }
    }
}

/// A timeline is strictly increasing, and holds exactly the periods that the
/// payouts name.
pub proof fn timeline_is_increasing_and_complete<N>(rows: Seq<Json<N>>)
    ensures
        increasing(timeline(rows)),
        forall|t: u64| #[trigger]
            timeline(rows).contains(t) <==> exists|i: int|
                0 <= i < rows.len() && (#[trigger] rows[i]).whole_at("periodStart"@) == Some(t),
    decreases rows.len(),
{
    if rows.len() > 0 {
        let head = rows.drop_last();
        timeline_is_increasing_and_complete(head);
        let last = rows.last().whole_at("periodStart"@);
        if let Some(t) = last {
            lemma_dated_is_increasing(timeline(head), t);
        }
        assert forall|t: u64| #[trigger] timeline(rows).contains(t) <==> exists|i: int|
            0 <= i < rows.len() && (#[trigger] rows[i]).whole_at("periodStart"@) == Some(t) by {
            if timeline(head).contains(t) {
                let i = choose|i: int|
                    0 <= i < head.len() && (#[trigger] head[i]).whole_at("periodStart"@) == Some(t);
                assert(rows[i].whole_at("periodStart"@) == Some(t));
            }
            if last == Some(t) {
                assert(rows[rows.len() - 1].whole_at("periodStart"@) == Some(t));
            }
            if exists|i: int|
                0 <= i < rows.len() && (#[trigger] rows[i]).whole_at("periodStart"@) == Some(t) {
                let i = choose|i: int|
                    0 <= i < rows.len() && (#[trigger] rows[i]).whole_at("periodStart"@) == Some(t);
                if i < head.len() {
                    assert(head[i].whole_at("periodStart"@) == Some(t));
                    assert(timeline(head).contains(t));
                }
            }
        }
    }
}

fn add_missing(gaps: &mut Vec<u64>, from: u64, to: u64, period: u64)
    requires
        from < to,
    ensures
        final(gaps)@ == old(gaps)@ + missing(from, to, period),
{
    let ghost start = gaps@;
    if period == 0 {
        assert(start + Seq::<u64>::empty() =~= start);
        return;
    }
    let steps: u64 = (to - from) / period;
    let mut k: u64 = 1;
    assert(gaps@ =~= start + missing(from, to, period).take(0));
    while k < steps
        invariant
            1 <= k,
            period > 0,
            from < to,
            steps == (to - from) / (period as int),
            k <= steps || (steps == 0 && k == 1),
            gaps@ == start + missing(from, to, period).take(k - 1),
        decreases steps - k,
    {
        assert(k * period <= to - from) by (nonlinear_arith)
            requires
                k <= steps,
                period > 0,
                steps == (to - from) / (period as int),
        ;
        let t: u64 = from + k * period;
        gaps.push(t);
        k = k + 1;
        assert(gaps@ =~= start + missing(from, to, period).take(k - 1));
    }
    if steps >= 1 {
        assert(missing(from, to, period).take(steps - 1) =~= missing(from, to, period));
    } else {
        assert(missing(from, to, period).take(0) =~= missing(from, to, period));
    }
}

fn find_gaps(times: &Vec<u64>, period: u64) -> (r: Vec<u64>)
    requires
        increasing(times@),
    ensures
        r@ == gaps_in(times@, period),
{
    let mut gaps: Vec<u64> = Vec::new();
    if times.len() == 0 {
        return gaps;
    }
    let mut i: usize = 1;
    while i < times.len()
        invariant
            1 <= i <= times.len(),
            increasing(times@),
            gaps@ == gaps_in(times@.take(i as int), period),
        decreases times.len() - i,
    {
        let ghost next = times@.take(i as int + 1);
        assert(next.drop_last() =~= times@.take(i as int));
        assert(next[next.len() - 2] == times@[i - 1]);
        add_missing(&mut gaps, times[i - 1], times[i], period);
        i = i + 1;
    }
    assert(times@.take(i as int) =~= times@);
    gaps
}

pub proof fn lemma_by_period_keeps_length<N>(rows: Seq<Json<N>>)
    ensures
        by_period(rows).len() == rows.len(),
{
    crate::sort::sorting_is_ordered_and_stable(
        rows.map_values(|r: Json<N>| (start_of(r) as i128, r)),
    );
}

fn reconcile_property<N: Amount>(
    rewards: &Vec<&Json<N>>,
    programs: &Vec<&Json<N>>,
    pid: &str,
) -> (r: Payouts<N>)
    ensures
        r@ == payouts_of(rewards@.unref(), programs@.unref(), pid@),
        r.payouts <= rewards@.len(),
{
    let ours = select_named(rewards, "propertyId", pid);
    let rows = in_period_order(&ours);
    proof {
        lemma_by_period_keeps_length(ours@.unref());
        rewards@.unref().lemma_filter_len(|o: Json<N>| o.name_at("propertyId"@) == pid@);
        assert(rows@.unref().len() == rows@.len());
        timeline_is_increasing_and_complete(rows@.unref());
    }
    let terms = terms_for(programs, pid);
    let times = timeline_of(&rows);
    let n: usize = rows.len();
    let avg = if n > 0 {
        sum_of(&rows, "percentOfPool").over(N::of(n as u64))
    } else {
        N::of(0)
    };
    Payouts {
        property_id: pid.to_owned(),
        name: terms.name,
        payouts: n,
        earned: sum_of(&rows, "amount"),
        avg_percent_of_pool: avg,
        first_period: if times.len() > 0 {
            times[0]
        } else {
            0
        },
        last_period: if times.len() > 0 {
            times[times.len() - 1]
        } else {
            0
        },
        inconsistent_payouts: count_mismatched(&rows, terms.pool),
        gaps: find_gaps(&times, terms.period),
    }
}

spec fn keyed_payouts<N>(rows: Seq<(i128, Payouts<N>)>) -> Seq<(i128, PayoutsView<N>)> {
    rows.map_values(|p: (i128, Payouts<N>)| (p.0, p.1@))
}

/// Reconcile payouts against program terms: group them by property, sum the
/// earnings, check each against its share of the pool, and find the periods
/// without a payout between a property's first and last.
pub fn reconcile<N: Amount>(rewards: &Vec<&Json<N>>, programs: &Vec<&Json<N>>) -> (r: Reconciliation<
    N,
>)
    ensures
        r@ == reconciliation_of(rewards@.unref(), programs@.unref()),
{
    let pids = directory_of(rewards, "propertyId");
    let ghost names = str_texts(pids@);
    let ghost f = |pid: Seq<char>| payouts_of(rewards@.unref(), programs@.unref(), pid);
    let ghost g = |r: PayoutsView<N>| earnings_key(r);
    let ghost all = names.map_values(f);
    proof {
        lemma_total_payouts(rewards@.unref(), programs@.unref());
        assert(all =~= payout_rows(rewards@.unref(), programs@.unref()));
    }
    let mut rows: Vec<(i128, Payouts<N>)> = Vec::new();
    let mut earned = N::of(0);
    let mut paid: usize = 0;
    let mut gaps: u128 = 0;
    let mut i: usize = 0;
    assert(keyed_payouts(rows@) =~= all.take(0).map_values(g));
    while i < pids.len()
        invariant
            i <= pids.len() == all.len(),
            names == str_texts(pids@),
            f == (|pid: Seq<char>| payouts_of(rewards@.unref(), programs@.unref(), pid)),
            g == (|r: PayoutsView<N>| earnings_key(r)),
            all == names.map_values(f),
            total_payouts(all) <= rewards.len(),
            keyed_payouts(rows@) == all.take(i as int).map_values(g),
            earned == total_earned(all.take(i as int)),
            paid == total_payouts(all.take(i as int)),
            gaps == total_gaps(all.take(i as int)),
            gaps <= i * 0xffff_ffff_ffff_ffff,
        decreases pids.len() - i,
    {
        let row = reconcile_property(rewards, programs, pids[i]);
        assert(row@ == all[i as int]);
        assert(all.take(i as int + 1).drop_last() =~= all.take(i as int));
        assert(all.take(i as int + 1).last() == row@);
        proof {
            lemma_total_payouts_grow(all, i as int + 1);
        }
        earned = earned.plus(row.earned);
        paid = paid + row.payouts;
        assert(i * 0xffff_ffff_ffff_ffff + 0xffff_ffff_ffff_ffff == (i + 1)
            * 0xffff_ffff_ffff_ffff);
        gaps = gaps + row.gaps.len() as u128;
        let ghost before = rows@;
        rows.push((descending_key(row.earned.order_key()), row));
        assert(keyed_payouts(rows@) =~= keyed_payouts(before).push(g(all[i as int])));
        i = i + 1;
        assert(keyed_payouts(rows@) =~= all.take(i as int).map_values(g));
    }
    assert(all.take(pids.len() as int) =~= all);
    let ghost tagged = rows@;
    let properties = sort_by_key(rows);
    proof {
        let view = |r: Payouts<N>| r@;
        let h = |p: (i128, Payouts<N>)| (p.0, view(p.1));
        sorting_commutes_with_mapping(tagged, view);
        assert(tagged.map_values(h) =~= keyed_payouts(tagged));
        assert(values(stable_sorted(tagged).map_values(h)) =~= payouts_views(properties@));
    }
    Reconciliation {
        properties,
        total_earned: earned,
        total_payouts: paid,
        total_gaps: gaps,
    }
}

proof fn lemma_total_payouts_grow<N>(rows: Seq<PayoutsView<N>>, n: int)
    requires
        0 <= n <= rows.len(),
    ensures
        total_payouts(rows.take(n)) <= total_payouts(rows),
    decreases rows.len() - n,
{
    if n < rows.len() {
        assert(rows.take(n + 1).drop_last() =~= rows.take(n));
        lemma_total_payouts_grow(rows, n + 1);
    } else {
        assert(rows.take(n) =~= rows);
    }
}

pub proof fn lemma_totals_are_tallies<N>(rows: Seq<PayoutsView<N>>)
    ensures
        total_payouts(rows) == tally(rows, |r: PayoutsView<N>| r.payouts as int),
        total_gaps(rows) == tally(rows, |r: PayoutsView<N>| r.gaps.len() as int),
    decreases rows.len(),
{
    if rows.len() > 0 {
        lemma_totals_are_tallies(rows.drop_last());
    }
}

/// Every rewarded property is in the directory of the payouts.
pub proof fn lemma_payouts_are_filed<N>(rewards: Seq<Json<N>>)
    ensures
        strictly_ordered(directory(names_at(rewards, "propertyId"@))),
        forall|i: int|
            0 <= i < rewards.len() ==> directory(names_at(rewards, "propertyId"@)).contains(
                (#[trigger] rewards[i]).name_at("propertyId"@),
            ),
{
    let names = names_at(rewards, "propertyId"@);
    directory_is_ordered_and_complete(names);
    assert forall|i: int| 0 <= i < rewards.len() implies directory(names).contains(
        (#[trigger] rewards[i]).name_at("propertyId"@),
    ) by {
        assert(names[i] == rewards[i].name_at("propertyId"@));
        assert(names.contains(names[i]));
    }
}

proof fn lemma_total_payouts<N: Amount>(rewards: Seq<Json<N>>, programs: Seq<Json<N>>)
    ensures
        total_payouts(payout_rows(rewards, programs)) == rewards.len(),
{
    let pids = directory(names_at(rewards, "propertyId"@));
    let row = |pid: Seq<char>| payouts_of(rewards, programs, pid);
    let paid = |r: PayoutsView<N>| r.payouts as int;
    let one = |r: Json<N>| 1int;
    let by_row = |pid: Seq<char>| paid(row(pid));
    let by_group = |pid: Seq<char>| tally(named(rewards, "propertyId"@, pid), one);
    lemma_payouts_are_filed(rewards);
    lemma_totals_are_tallies(payout_rows(rewards, programs));
    lemma_tally_of_map(pids, row, paid);
    assert forall|i: int| 0 <= i < pids.len() implies by_row(#[trigger] pids[i]) == by_group(
        pids[i],
    ) by {
        lemma_by_period_keeps_length(named(rewards, "propertyId"@, pids[i]));
        lemma_tally_of_ones(named(rewards, "propertyId"@, pids[i]));
    }
    lemma_tally_compares(pids, by_row, by_group);
    grouping_loses_nothing(rewards, "propertyId"@, pids, one);
    lemma_tally_of_ones(rewards);
}

/// Every payout is counted once, under its own property.
pub proof fn every_payout_is_counted_once<N: Amount>(
    rewards: Seq<Json<N>>,
    programs: Seq<Json<N>>,
)
    ensures
        reconciliation_of(rewards, programs).total_payouts == rewards.len(),
{
    lemma_total_payouts(rewards, programs);
}

pub open spec fn reconcile_headings() -> Seq<Seq<char>> {
    seq!["property"@, "payouts"@, "earned"@, "avg%pool"@, "gaps"@, "mismatch"@]
}

pub open spec fn reconcile_cells<N: Amount>(p: PayoutsView<N>) -> Seq<CellView<N>> {
    seq![
        CellView::Text(p.name),
        CellView::Count(p.payouts),
        CellView::Text("$"@ + p.earned.fixed_text(4)),
        CellView::Text(p.avg_percent_of_pool.fixed_text(1)),
        CellView::Count(p.gaps.len()),
        CellView::Count(p.inconsistent_payouts),
    ]
}

/// What the operator should look into about one property.
pub open spec fn payout_warnings<N>(p: PayoutsView<N>) -> Seq<LineView<N>> {
    (if p.gaps.len() == 0 {
        Seq::empty()
    } else {
        seq![
            LineView::Note(
                "  ⚠ "@ + p.name + ": "@ + decimal_text(p.gaps.len())
                    + " period(s) with no payout — verify eligibility: "@ + joined_text(
                    p.gaps.map_values(|t: u64| period_text(t)),
                    ", "@,
                ),
            ),
        ]
    }) + (if p.inconsistent_payouts == 0 {
        Seq::empty()
    } else {
        seq![
            LineView::Note(
                "  ⚠ "@ + p.name
                    + ": some payouts don't match percentOfPool x pool — report to Lofty"@,
            ),
        ]
    })
}

pub open spec fn all_payout_warnings<N>(rows: Seq<PayoutsView<N>>) -> Seq<LineView<N>>
    decreases rows.len(),
{
    if rows.len() == 0 {
        Seq::empty()
    } else {
        all_payout_warnings(rows.drop_last()) + payout_warnings(rows.last())
    }
}

/// A summary table, the totals, then every mismatch and gap called out.
pub open spec fn reconcile_lines<N: Amount>(r: ReconciliationView<N>) -> Seq<LineView<N>> {
    seq![
        LineView::Table(
            TableView {
                headings: reconcile_headings(),
                rows: r.properties.map_values(|p: PayoutsView<N>| reconcile_cells(p)),
            },
        ),
        LineView::Note(
            "total: $"@ + r.total_earned.fixed_text(4) + " across "@ + decimal_text(
                r.total_payouts,
            ) + " payout(s); "@ + decimal_text(r.total_gaps) + " gap period(s)"@,
        ),
    ] + all_payout_warnings(r.properties)
}

fn reconcile_row<N: Amount>(p: &Payouts<N>) -> (r: Vec<Cell<N>>)
    ensures
        cell_views(r@) == reconcile_cells(p@),
{
    let mut cells: Vec<Cell<N>> = Vec::new();
    cells.push(Cell::Text(p.name.clone()));
    cells.push(Cell::Count(p.payouts as u128));
    cells.push(Cell::Text("$".to_owned().concat(&p.earned.fixed(4))));
    cells.push(Cell::Text(p.avg_percent_of_pool.fixed(1)));
    cells.push(Cell::Count(p.gaps.len() as u128));
    cells.push(Cell::Count(p.inconsistent_payouts as u128));
    assert(cell_views(cells@) =~= reconcile_cells(p@));
    cells
}

fn periods_listed(times: &Vec<u64>) -> (r: Vec<String>)
    ensures
        texts(r@) == times@.map_values(|t: u64| period_text(t)),
{
    let ghost f = |t: u64| period_text(t);
    let mut out: Vec<String> = Vec::new();
    let mut i: usize = 0;
    assert(texts(out@) =~= times@.take(0).map_values(f));
    while i < times.len()
        invariant
            i <= times.len(),
            f == (|t: u64| period_text(t)),
            texts(out@) == times@.take(i as int).map_values(f),
        decreases times.len() - i,
    {
        let ghost before = out@;
        out.push(fmt_period(times[i]));
        assert(texts(out@) =~= texts(before).push(f(times@[i as int])));
        i = i + 1;
        assert(texts(out@) =~= times@.take(i as int).map_values(f));
    }
    assert(times@.take(times.len() as int) =~= times@);
    out
}

fn render_payout_warnings<N: Amount>(p: &Payouts<N>) -> (r: Vec<Line<N>>)
    ensures
        line_views(r@) == payout_warnings(p@),
{
    let mut out: Vec<Line<N>> = Vec::new();
    if p.gaps.len() > 0 {
        say(
            &mut out,
            Line::Note(
                "  ⚠ ".to_owned().concat(p.name.as_str()).concat(": ").concat(
                    &decimal(p.gaps.len() as u128),
                ).concat(" period(s) with no payout — verify eligibility: ").concat(
                    &joined(&periods_listed(&p.gaps), ", "),
                ),
            ),
        );
    }
    if p.inconsistent_payouts > 0 {
        say(
            &mut out,
            Line::Note(
                "  ⚠ ".to_owned().concat(p.name.as_str()).concat(
                    ": some payouts don't match percentOfPool x pool — report to Lofty",
                ),
            ),
        );
    }
    assert(line_views(out@) =~= payout_warnings(p@));
    out
}

pub fn render_reconcile<N: Amount>(report: &Reconciliation<N>) -> (r: Vec<Line<N>>)
    ensures
        line_views(r@) == reconcile_lines(report@),
{
    let ghost all = payouts_views(report.properties@);
    let ghost f = |p: PayoutsView<N>| reconcile_cells(p);
    let mut headings: Vec<String> = Vec::new();
    headings.push("property".to_owned());
    headings.push("payouts".to_owned());
    headings.push("earned".to_owned());
    headings.push("avg%pool".to_owned());
    headings.push("gaps".to_owned());
    headings.push("mismatch".to_owned());
    assert(texts(headings@) =~= reconcile_headings());
    let mut rows: Vec<Vec<Cell<N>>> = Vec::new();
    let mut warnings: Vec<Line<N>> = Vec::new();
    let mut i: usize = 0;
    assert(row_views(rows@) =~= all.take(0).map_values(f));
    assert(line_views(warnings@) =~= all_payout_warnings(all.take(0)));
    while i < report.properties.len()
        invariant
            i <= report.properties.len(),
            all == payouts_views(report.properties@),
            f == (|p: PayoutsView<N>| reconcile_cells(p)),
            row_views(rows@) == all.take(i as int).map_values(f),
            line_views(warnings@) == all_payout_warnings(all.take(i as int)),
        decreases report.properties.len() - i,
    {
        let p = &report.properties[i];
        assert(all.take(i as int + 1).drop_last() =~= all.take(i as int));
        assert(all.take(i as int + 1).last() == p@);
        let ghost before = rows@;
        rows.push(reconcile_row(p));
        assert(row_views(rows@) =~= row_views(before).push(f(p@)));
        say_all(&mut warnings, render_payout_warnings(p));
        i = i + 1;
        assert(row_views(rows@) =~= all.take(i as int).map_values(f));
    }
    assert(all.take(report.properties.len() as int) =~= all);
    let mut out: Vec<Line<N>> = Vec::new();
    say(&mut out, Line::Table(Table { headings, rows }));
    say(
        &mut out,
        Line::Note(
            "total: $".to_owned().concat(&report.total_earned.fixed(4)).concat(" across ").concat(
                &decimal(report.total_payouts as u128),
            ).concat(" payout(s); ").concat(&decimal(report.total_gaps)).concat(" gap period(s)"),
        ),
    );
    say_all(&mut out, warnings);
    assert(line_views(out@) =~= reconcile_lines(report@));
    out
}

} // verus!
