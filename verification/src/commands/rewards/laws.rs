use vstd::arithmetic::div_mod::{lemma_fundamental_div_mod, lemma_fundamental_div_mod_converse};
use vstd::prelude::*;

use crate::amount::Amount;
use crate::commands::rewards::eligibility::{
    big_enough, covered, eligibility_of, in_band, is_bid, mid_of, own_score, qualifying, score,
    side_minimum, terms_of, Terms,
};
use crate::commands::rewards::reconcile::{
    earnings_key, gaps_in, increasing, missing, payout_rows, reconciliation_of, PayoutsView,
};
use crate::commands::rewards::{read_on, PAGE_CAP};
use crate::json::Json;
use crate::micros::{clamped, divided, multiples_divide_exactly, rounding_is_monotone, Micros};
use crate::sort::{sorting_is_ordered_and_stable, sorting_keeps_the_members, stable_sorted};

verus! {

/// One-sided liquidity earns nothing, however good it is: without a qualifying bid
/// or without a qualifying ask nothing is expected of the pool.
pub proof fn one_sided_liquidity_earns_nothing<N: Amount>(
    program: Json<N>,
    mine: Seq<Json<N>>,
    book: Json<N>,
    usdc: N,
    held: N,
)
    requires
        mid_of(book) matches Some(mid) && {
            let t = terms_of(program, mine, mid, usdc, held);
            ||| !side_minimum(program).at_most(qualifying(mine, t, true))
            ||| !side_minimum(program).at_most(qualifying(mine, t, false))
        },
    ensures
        ({
            let e = eligibility_of(program, mine, book, usdc, held);
            &&& !e.earning
            &&& e.reason is Some
            &&& e.standing is Some
            &&& !e.standing->0.two_sided
            &&& e.standing->0.expected_share == N::whole(0)
            &&& e.expected_daily == N::whole(0).product(program.amount_at("dailyRewards"@))
        }),
{
}

/// A property earns exactly when it is two-sided and something of ours scores;
/// otherwise the report says why.
pub proof fn a_reason_is_given_exactly_when_nothing_is_earned<N: Amount>(
    program: Json<N>,
    mine: Seq<Json<N>>,
    book: Json<N>,
    usdc: N,
    held: N,
)
    ensures
        ({
            let e = eligibility_of(program, mine, book, usdc, held);
            &&& e.earning <==> e.reason is None
            &&& e.earning <==> (e.standing matches Some(s) && s.two_sided && N::whole(0).less(
                s.our_score,
            ))
        }),
{
}

/// What is earned: nothing without earning, else our part of all the score there is,
/// and of the day's reward the same part.
pub proof fn what_is_earned_is_our_part<N: Amount>(
    program: Json<N>,
    mine: Seq<Json<N>>,
    book: Json<N>,
    usdc: N,
    held: N,
)
    ensures
        ({
            let e = eligibility_of(program, mine, book, usdc, held);
            &&& e.standing is None ==> !e.earning && e.expected_daily == N::whole(0)
            &&& e.standing matches Some(s) ==> {
                let total = s.our_score.sum(s.competing_score);
                &&& s.expected_share == if e.earning && N::whole(0).less(total) {
                    s.our_score.quotient(total)
                } else {
                    N::whole(0)
                }
                &&& e.expected_daily == s.expected_share.product(
                    program.amount_at("dailyRewards"@),
                )
            }
        }),
{
}

/// What is earned: nothing without earning, else our share of all the score there
/// is. A share lies between nothing and the whole pool, a competing score is never
/// negative, and the day's reward is that share of the program's.
pub proof fn a_share_is_our_part_of_the_score(
    program: Json<Micros>,
    mine: Seq<Json<Micros>>,
    book: Json<Micros>,
    usdc: Micros,
    held: Micros,
)
    ensures
        ({
            let e = eligibility_of(program, mine, book, usdc, held);
            &&& !e.earning ==> e.expected_daily == Micros::whole(0)
            &&& e.standing is None ==> !e.earning
            &&& e.standing matches Some(s) ==> {
                &&& Micros::whole(0).at_most(s.expected_share)
                &&& s.expected_share.at_most(Micros::whole(1))
                &&& Micros::whole(0).at_most(s.competing_score)
                &&& !e.earning ==> s.expected_share == Micros::whole(0)
                &&& e.earning ==> s.expected_share == s.our_score.quotient(
                    s.our_score.sum(s.competing_score),
                )
                &&& e.expected_daily == s.expected_share.product(
                    program.amount_at("dailyRewards"@),
                )
            }
        }),
{
    let e = eligibility_of(program, mine, book, usdc, held);
    if let Some(s) = e.standing {
        let total = s.our_score.sum(s.competing_score).units as int;
        let ours = s.our_score.units as int;
        if e.earning {
            assert(0 < ours <= total);
            rounding_is_monotone(0, ours * 1_000_000, total);
            rounding_is_monotone(ours * 1_000_000, total * 1_000_000, total);
            multiples_divide_exactly(0, total);
            multiples_divide_exactly(1_000_000, total);
            assert(total * 1_000_000 == 1_000_000 * total);
        } else {
            let daily = program.amount_at("dailyRewards"@);
            assert(0 * daily.units == 0);
            multiples_divide_exactly(0, 1_000_000);
        }
    }
}

proof fn lemma_qualifying_looks_at_cover_alone<N: Amount>(
    mine: Seq<Json<N>>,
    a: Terms<N>,
    b: Terms<N>,
    bids: bool,
)
    requires
        a.bids_covered == b.bids_covered,
        a.asks_covered == b.asks_covered,
    ensures
        qualifying(mine, a, bids) == qualifying(mine, b, bids),
    decreases mine.len(),
{
    if mine.len() > 0 {
        lemma_qualifying_looks_at_cover_alone(mine.drop_last(), a, b, bids);
    }
}

/// Whether a side exists is decided by cover and size alone: programs with one
/// two-sided minimum agree on it, whatever their `minContracts` and their band.
pub proof fn size_and_band_do_not_decide_a_side<N: Amount>(
    p: Json<N>,
    q: Json<N>,
    mine: Seq<Json<N>>,
    book: Json<N>,
    usdc: N,
    held: N,
)
    requires
        p.amount_at("minTwoSidedLiquidity"@) == q.amount_at("minTwoSidedLiquidity"@),
    ensures
        ({
            let x = eligibility_of(p, mine, book, usdc, held).standing;
            let y = eligibility_of(q, mine, book, usdc, held).standing;
            &&& x is Some <==> y is Some
            &&& x is Some ==> x->0.two_sided == y->0.two_sided
        }),
{
    if let Some(mid) = mid_of(book) {
        let a = terms_of(p, mine, mid, usdc, held);
        let b = terms_of(q, mine, mid, usdc, held);
        lemma_qualifying_looks_at_cover_alone(mine, a, b, true);
        lemma_qualifying_looks_at_cover_alone(mine, a, b, false);
    }
}

/// Whether some covered order of at least one token rests on a side. An order that
/// is no bid stands on the other side.
pub open spec fn side_is_quoted(mine: Seq<Json<Micros>>, t: Terms<Micros>, bids: bool) -> bool {
    exists|i: int|
        0 <= i < mine.len() && is_bid(#[trigger] mine[i]) == bids && covered(mine[i], t)
            && Micros::whole(1).at_most(mine[i].amount_at("quantity"@))
}

/// Whether every order is of a whole number of tokens.
pub open spec fn whole_sizes(mine: Seq<Json<Micros>>) -> bool {
    forall|i: int|
        0 <= i < mine.len() ==> 0 <= (#[trigger] mine[i]).amount_at("quantity"@).units
            && mine[i].amount_at("quantity"@).units as int % 1_000_000 == 0
}

proof fn lemma_whole_sizes_qualify(mine: Seq<Json<Micros>>, t: Terms<Micros>, bids: bool)
    requires
        whole_sizes(mine),
    ensures
        side_is_quoted(mine, t, bids) ==> 1_000_000 <= qualifying(mine, t, bids).units,
        !side_is_quoted(mine, t, bids) ==> qualifying(mine, t, bids).units == 0,
    decreases mine.len(),
{
    if mine.len() > 0 {
        let head = mine.drop_last();
        let o = mine.last();
        assert(mine[mine.len() - 1] == o);
        assert forall|i: int| 0 <= i < head.len() implies 0 <= (#[trigger] head[i]).amount_at(
            "quantity"@,
        ).units && head[i].amount_at("quantity"@).units as int % 1_000_000 == 0 by {
            assert(head[i] == mine[i]);
        }
        lemma_whole_sizes_qualify(head, t, bids);
        if side_is_quoted(head, t, bids) {
            let i = choose|i: int|
                0 <= i < head.len() && is_bid(#[trigger] head[i]) == bids && covered(head[i], t)
                    && Micros::whole(1).at_most(head[i].amount_at("quantity"@));
            assert(mine[i] == head[i]);
        }
        if side_is_quoted(mine, t, bids) && !side_is_quoted(head, t, bids) {
            let i = choose|i: int|
                0 <= i < mine.len() && is_bid(#[trigger] mine[i]) == bids && covered(mine[i], t)
                    && Micros::whole(1).at_most(mine[i].amount_at("quantity"@));
            if i < head.len() {
                assert(head[i] == mine[i]);
            }
        }
    }
}

/// With a two-sided minimum of one token, and orders of whole tokens, a position is
/// two-sided exactly when a covered bid and a covered ask of at least one token rest.
pub proof fn one_covered_token_a_side_is_two_sided(
    program: Json<Micros>,
    mine: Seq<Json<Micros>>,
    book: Json<Micros>,
    usdc: Micros,
    held: Micros,
    mid: Micros,
)
    requires
        mid_of(book) == Some(mid),
        program.amount_at("minTwoSidedLiquidity"@) == Micros::whole(1),
        whole_sizes(mine),
    ensures
        ({
            let t = terms_of(program, mine, mid, usdc, held);
            eligibility_of(program, mine, book, usdc, held).standing matches Some(s)
                && s.two_sided == (side_is_quoted(mine, t, true) && side_is_quoted(mine, t, false))
        }),
{
    let t = terms_of(program, mine, mid, usdc, held);
    lemma_whole_sizes_qualify(mine, t, true);
    lemma_whole_sizes_qualify(mine, t, false);
}

/// Qualifying a side and scoring are separate: an order that is too small or out
/// of band still counts toward its side as long as it is covered, and adds nothing
/// to the score.
pub proof fn a_covered_order_qualifies_its_side_without_scoring<N: Amount>(
    mine: Seq<Json<N>>,
    o: Json<N>,
    t: Terms<N>,
)
    requires
        covered(o, t),
        !in_band(o, t) || !big_enough(o, t),
    ensures
        qualifying(mine.push(o), t, is_bid(o)) == qualifying(mine, t, is_bid(o)).sum(
            o.amount_at("quantity"@),
        ),
        own_score(mine.push(o), t) == own_score(mine, t),
{
    assert(mine.push(o).drop_last() =~= mine);
}

/// An order that is not covered neither qualifies its side nor scores.
pub proof fn an_uncovered_order_counts_for_nothing<N: Amount>(
    mine: Seq<Json<N>>,
    o: Json<N>,
    t: Terms<N>,
    bids: bool,
)
    requires
        !covered(o, t),
    ensures
        qualifying(mine.push(o), t, bids) == qualifying(mine, t, bids),
        own_score(mine.push(o), t) == own_score(mine, t),
{
    assert(mine.push(o).drop_last() =~= mine);
}

/// A missing period lies strictly between two paid ones, a whole number of periods
/// after the first of them.
pub proof fn a_gap_lies_between_two_payouts(from: u64, to: u64, period: u64, k: int)
    requires
        from < to,
        0 <= k < missing(from, to, period).len(),
    ensures
        from < missing(from, to, period)[k],
        missing(from, to, period)[k] + period <= to,
        missing(from, to, period)[k] == from + (k + 1) * period,
{
    let steps = (to - from) / (period as int);
    assert((k + 1) * period + period <= to - from && (k + 1) * period >= period)
        by (nonlinear_arith)
        requires
            0 <= k,
            k + 2 <= steps,
            period > 0,
            steps == (to - from) / (period as int),
    ;
}

/// A period that was paid is never reported as a gap.
pub proof fn a_paid_period_is_no_gap(times: Seq<u64>, period: u64, i: int, k: int)
    requires
        increasing(times),
        0 <= i < times.len(),
        0 <= k < gaps_in(times, period).len(),
    ensures
        gaps_in(times, period)[k] != times[i],
    decreases times.len(),
{
    let head = times.drop_last();
    let n = times.len() as int;
    let older = gaps_in(head, period);
    let newer = missing(times[n - 2], times[n - 1], period);
    if k < older.len() {
        assert(gaps_in(times, period)[k] == older[k]);
        if i < n - 1 {
            a_paid_period_is_no_gap(head, period, i, k);
            assert(head[i] == times[i]);
        } else {
            lemma_gaps_end_before_last(head, period, k);
        }
    } else {
        a_gap_lies_between_two_payouts(times[n - 2], times[n - 1], period, k - older.len());
        assert(gaps_in(times, period)[k] == newer[k - older.len()]);
        if i < n - 2 {
            assert(times[i] < times[n - 2]);
        }
    }
}

proof fn lemma_gaps_end_before_last(times: Seq<u64>, period: u64, k: int)
    requires
        increasing(times),
        0 <= k < gaps_in(times, period).len(),
    ensures
        gaps_in(times, period)[k] < times.last(),
    decreases times.len(),
{
    let head = times.drop_last();
    let n = times.len() as int;
    let older = gaps_in(head, period);
    if k < older.len() {
        lemma_gaps_end_before_last(head, period, k);
        assert(head.last() == times[n - 2]);
        assert(times[n - 2] < times[n - 1]);
    } else {
        a_gap_lies_between_two_payouts(times[n - 2], times[n - 1], period, k - older.len());
    }
}

/// The gaps are listed from the earliest to the latest, none twice.
pub proof fn gaps_strictly_increase(times: Seq<u64>, period: u64)
    requires
        increasing(times),
    ensures
        increasing(gaps_in(times, period)),
    decreases times.len(),
{
    if times.len() >= 2 {
        let head = times.drop_last();
        let n = times.len() as int;
        let older = gaps_in(head, period);
        let newer = missing(times[n - 2], times[n - 1], period);
        let all = gaps_in(times, period);
        gaps_strictly_increase(head, period);
        assert(times[n - 2] < times[n - 1]);
        assert forall|i: int, j: int| 0 <= i < j < all.len() implies all[i] < all[j] by {
            if j >= older.len() {
                let k = j - older.len();
                a_gap_lies_between_two_payouts(times[n - 2], times[n - 1], period, k);
                if i >= older.len() {
                    let m = i - older.len();
                    a_gap_lies_between_two_payouts(times[n - 2], times[n - 1], period, m);
                    assert((m + 1) * period < (k + 1) * period) by (nonlinear_arith)
                        requires
                            m < k,
                            period > 0,
                    ;
                } else {
                    lemma_gaps_end_before_last(head, period, i);
                    assert(head.last() == times[n - 2]);
                }
            }
        }
    }
}

/// Whether a time lies a whole number of periods from another.
pub open spec fn in_step(from: u64, to: u64, period: u64) -> bool {
    (to - from) % (period as int) == 0
}

/// Whether all the times lie a whole number of periods from the first.
pub open spec fn all_in_step(times: Seq<u64>, period: u64) -> bool {
    forall|i: int| 0 <= i < times.len() ==> in_step(times[0], #[trigger] times[i], period)
}

/// Two times in step with a third lie a whole number of periods apart.
proof fn lemma_steps_between(first: u64, from: u64, to: u64, period: u64) -> (steps: int)
    requires
        period > 0,
        in_step(first, from, period),
        in_step(first, to, period),
    ensures
        to - from == steps * period,
        steps == (to - from) / (period as int),
{
    let d = period as int;
    let (p, q) = ((to - first) / d, (from - first) / d);
    lemma_fundamental_div_mod(to - first, d);
    lemma_fundamental_div_mod(from - first, d);
    assert(d * p - d * q == (p - q) * d) by (nonlinear_arith);
    lemma_fundamental_div_mod_converse(to - from, d, p - q, 0);
    p - q
}

/// Every unpaid period is reported: where the payouts lie whole periods apart, each
/// period strictly between the first and the last that none of them names is a gap.
pub proof fn every_unpaid_period_is_a_gap(times: Seq<u64>, period: u64, t: u64)
    requires
        period > 0,
        increasing(times),
        all_in_step(times, period),
        times.len() > 0,
        times[0] < t < times.last(),
        in_step(times[0], t, period),
        !times.contains(t),
    ensures
        gaps_in(times, period).contains(t),
    decreases times.len(),
{
    let head = times.drop_last();
    let n = times.len() as int;
    let (from, to) = (times[n - 2], times[n - 1]);
    let older = gaps_in(head, period);
    let newer = missing(from, to, period);
    let all = gaps_in(times, period);
    assert(in_step(times[0], from, period) && in_step(times[0], to, period));
    assert(times.contains(from));
    if t > from {
        let steps = lemma_steps_between(times[0], from, to, period);
        let m = lemma_steps_between(times[0], from, t, period);
        assert(0 < m < steps) by (nonlinear_arith)
            requires
                period > 0,
                0 < m * period < steps * period,
        ;
        assert(newer[m - 1] == t);
        assert(all[older.len() + m - 1] == t);
    } else {
        assert forall|i: int| 0 <= i < head.len() implies in_step(
            head[0],
            #[trigger] head[i],
            period,
        ) by {
            assert(head[i] == times[i]);
        }
        if head.contains(t) {
            let i = choose|i: int| 0 <= i < head.len() && head[i] == t;
            assert(times[i] == t);
        }
        every_unpaid_period_is_a_gap(head, period, t);
        let k = choose|k: int| 0 <= k < older.len() && older[k] == t;
        assert(all[k] == t);
    }
}

/// A gap lies strictly between the first and the last payout, a whole number of
/// periods after the first.
pub proof fn a_gap_is_in_step(times: Seq<u64>, period: u64, k: int)
    requires
        period > 0,
        increasing(times),
        all_in_step(times, period),
        0 <= k < gaps_in(times, period).len(),
    ensures
        times[0] < gaps_in(times, period)[k] < times.last(),
        in_step(times[0], gaps_in(times, period)[k], period),
    decreases times.len(),
{
    let head = times.drop_last();
    let n = times.len() as int;
    let (from, to) = (times[n - 2], times[n - 1]);
    let older = gaps_in(head, period);
    assert(from < to);
    if k < older.len() {
        assert forall|i: int| 0 <= i < head.len() implies in_step(
            head[0],
            #[trigger] head[i],
            period,
        ) by {
            assert(head[i] == times[i]);
        }
        a_gap_is_in_step(head, period, k);
        assert(head.last() == from);
    } else {
        let m = k - older.len();
        let d = period as int;
        a_gap_lies_between_two_payouts(from, to, period, m);
        assert(in_step(times[0], from, period));
        let q = (from - times[0]) / d;
        lemma_fundamental_div_mod(from - times[0], d);
        let gap = gaps_in(times, period)[k];
        assert(d * q + (m + 1) * d == (q + m + 1) * d) by (nonlinear_arith);
        lemma_fundamental_div_mod_converse(gap - times[0], d, q + m + 1, 0);
        if n > 2 {
            assert(times[0] < from);
        }
    }
}

/// Payouts one period apart leave no gap.
pub proof fn an_unbroken_streak_has_no_gap(times: Seq<u64>, period: u64)
    requires
        period > 0,
        forall|i: int| 0 <= i < times.len() - 1 ==> times[i + 1] - #[trigger] times[i] == period,
    ensures
        gaps_in(times, period).len() == 0,
    decreases times.len(),
{
    if times.len() >= 2 {
        let head = times.drop_last();
        let n = times.len() as int;
        assert forall|i: int| 0 <= i < head.len() - 1 implies head[i + 1] - #[trigger] head[i]
            == period by {
            assert(times[i + 1] - times[i] == period);
        }
        an_unbroken_streak_has_no_gap(head, period);
        assert(times[(n - 2) + 1] - times[n - 2] == period);
        assert((times[n - 1] - times[n - 2]) / (period as int) == 1) by (nonlinear_arith)
            requires
                times[n - 1] - times[n - 2] == period,
                period > 0,
        ;
    }
}

/// The reconciliation lists the best earner first.
pub proof fn reconciliation_lists_the_best_earner_first<N: Amount>(
    rewards: Seq<Json<N>>,
    programs: Seq<Json<N>>,
)
    ensures
        ({
            let rows = reconciliation_of(rewards, programs).properties;
            forall|i: int, j: int|
                #![trigger rows[i], rows[j]]
                0 <= i < j < rows.len() ==> rows[i].earned.rank() >= rows[j].earned.rank()
        }),
{
    let tag = |r: PayoutsView<N>| earnings_key(r);
    let tagged = payout_rows(rewards, programs).map_values(tag);
    let sorted = stable_sorted(tagged);
    let rows = reconciliation_of(rewards, programs).properties;
    sorting_is_ordered_and_stable(tagged);
    sorting_keeps_the_members(tagged);
    assert forall|i: int, j: int|
        #![trigger rows[i], rows[j]]
        0 <= i < j < rows.len() implies rows[i].earned.rank() >= rows[j].earned.rank() by {
        assert(sorted.contains(sorted[i]) && sorted.contains(sorted[j]));
        assert(tagged.contains(sorted[i]) && tagged.contains(sorted[j]));
        let a = choose|a: int| 0 <= a < tagged.len() && tagged[a] == sorted[i];
        let b = choose|b: int| 0 <= b < tagged.len() && tagged[b] == sorted[j];
        assert(sorted[i].0 <= sorted[j].0);
    }
}

/// Reading the history always ends: past the cap no page is read, and a page that
/// repeats its cursor is the last.
pub proof fn paging_always_ends<N>(page: Json<N>, cursor: Option<Seq<char>>, read: nat)
    ensures
        read >= PAGE_CAP ==> read_on(page, cursor, read) is None,
        read_on(page, cursor, read) is Some ==> read_on(page, cursor, read) != cursor,
        page.text_at("nextCursor"@) is None ==> read_on(page, cursor, read) is None,
{
}

/// An order at the mid scores its whole size, and one that rests a dollar or more
/// past the allowed spread scores nothing.
pub proof fn score_is_full_at_the_mid_and_nothing_past_the_band(
    spread: Micros,
    quantity: Micros,
    dist: Micros,
)
    requires
        Micros::whole(0).at_most(spread),
        spread.sum(Micros::whole(1)).finite(),
    ensures
        score(Micros::whole(0), spread, quantity) == quantity,
        spread.sum(Micros::whole(1)).at_most(dist) ==> score(dist, spread, quantity)
            == Micros::whole(0),
{
    let reach = spread.sum(Micros::whole(1));
    let r = reach.units as int;
    let q = quantity.units as int;
    multiples_divide_exactly(1_000_000, r);
    multiples_divide_exactly(1_000_000, 1_000_000);
    multiples_divide_exactly(q, 1_000_000);
    assert(divided(r * 1_000_000, r) == 1_000_000);
    assert(divided(1_000_000 * q, 1_000_000) == q);
    if reach.at_most(dist) {
        let gap = reach.difference(dist.magnitude());
        assert(gap.units <= 0);
        rounding_is_monotone(gap.units * 1_000_000, 0, r);
        multiples_divide_exactly(0, r);
        multiples_divide_exactly(0, 1_000_000);
        let ratio = gap.quotient(reach).greater(Micros::whole(0));
        assert(ratio.units == 0);
        let weight = ratio.product(ratio);
        assert(weight.units == 0);
        assert(weight.units * quantity.units == 0) by (nonlinear_arith)
            requires
                weight.units == 0,
        ;
        assert(weight.product(quantity).units == 0);
    }
}

/// An order never scores less than one of the same size that rests farther from the
/// mid.
pub proof fn score_never_falls_toward_the_mid(
    near: Micros,
    far: Micros,
    spread: Micros,
    quantity: Micros,
)
    requires
        Micros::whole(0).at_most(spread),
        spread.sum(Micros::whole(1)).finite(),
        near.magnitude().at_most(far.magnitude()),
        Micros::whole(0).at_most(quantity),
    ensures
        score(far, spread, quantity).at_most(score(near, spread, quantity)),
{
    let reach = spread.sum(Micros::whole(1));
    let r = reach.units as int;
    let a = reach.difference(far.magnitude());
    let b = reach.difference(near.magnitude());
    assert(a.units <= b.units);
    rounding_is_monotone(a.units * 1_000_000, b.units * 1_000_000, r);
    let x = a.quotient(reach).greater(Micros::whole(0)).units as int;
    let y = b.quotient(reach).greater(Micros::whole(0)).units as int;
    assert(0 <= x <= y);
    assert(x * x <= y * y) by (nonlinear_arith)
        requires
            0 <= x <= y,
    ;
    rounding_is_monotone(x * x, y * y, 1_000_000);
    let u = clamped(divided(x * x, 1_000_000)) as int;
    let v = clamped(divided(y * y, 1_000_000)) as int;
    let q = quantity.units as int;
    assert(u <= v);
    assert(u * q <= v * q) by (nonlinear_arith)
        requires
            u <= v,
            0 <= q,
    ;
    rounding_is_monotone(u * q, v * q, 1_000_000);
}

} // verus!
