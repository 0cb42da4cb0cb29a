use vstd::prelude::*;

use crate::amount::Amount;
use crate::commands::quote::apply::{
    disposition_of, inverted_text, partway_lines, partway_text, price_refusal, progress_of,
    request_of, step_text, tokens_held, DispositionView, ProgressView, Render, RequestView,
};
use crate::commands::quote::plan::{
    cancellation, creation, fresh_cover, fresh_quantity, held_back,
    left_alone, leg, moved_cover, moved_quantity, orders_on, provision_plan, pull_plan, quoting,
    recenter_plan, spared, total_cost, total_quantity, untouched_side, StepView, Targets,
};
use crate::commands::quote::{
    advisory, broken_rail, close, first_at, half_cent, market_of, others_best, out_of_band, resting,
    without_own, Cover, Market, Rails, Side,
};
use crate::failure::FailureView;
use crate::json::{lemma_filter_splits, the_first_match_is_found, Json};
use crate::micros::{rounding_is_within_half, Micros};
use crate::text::{decimal_text, holds_text, joined_text, lemma_holds_between};

verus! {

proof fn lemma_side_words_differ()
    ensures
        Side::Buy.word() != Side::Sell.word(),
{
    reveal_strlit("buy");
    reveal_strlit("sell");
    assert("buy"@.len() != "sell"@.len());
}

/// The shape of what a move does to one side.
proof fn lemma_leg_shape<N: Amount>(
    m: Market<N>,
    side: Side,
    target: Option<N>,
    asked: Option<u32>,
    existing: Seq<Json<N>>,
    have: N,
    rails: Rails<N>,
)
    ensures
        leg(m, side, target, asked, existing, have, rails) matches Ok(l) ==> {
            &&& forall|i: int| 0 <= i < l.0.len() ==> (#[trigger] l.0[i]).direction == side.word()
            &&& target is None ==> l.0.len() == 0
            &&& target is Some ==> l.0.len() == existing.len() + 1
            &&& target is Some ==> l.0.last() == creation(
                side,
                target->0,
                moved_quantity(existing, asked),
                m.mid,
            )
            &&& forall|i: int|
                0 <= i < l.0.len() - 1 ==> #[trigger] l.0[i] == cancellation(
                    existing[i],
                    side.word(),
                )
        },
{
}

/// A recenter touches only the sides it is given a price for: no step belongs to
/// an omitted side, and every order of an omitted side is reported as left alone.
pub proof fn recenter_leaves_omitted_sides_alone<N: Amount>(
    program: Json<N>,
    mine: Seq<Json<N>>,
    book: Json<N>,
    usdc: N,
    held: N,
    t: Targets<N>,
)
    ensures
        recenter_plan(program, mine, book, usdc, held, t) matches Ok(p) ==> {
            &&& t.bid is None ==> forall|i: int|
                0 <= i < p.steps.len() ==> (#[trigger] p.steps[i]).direction == Side::Sell.word()
            &&& t.ask is None ==> forall|i: int|
                0 <= i < p.steps.len() ==> (#[trigger] p.steps[i]).direction == Side::Buy.word()
            &&& t.bid is None ==> forall|i: int|
                0 <= i < orders_on(mine, Side::Buy).len() ==> p.untouched.contains(
                    #[trigger] left_alone(orders_on(mine, Side::Buy)[i], Side::Buy),
                )
            &&& t.ask is None ==> forall|i: int|
                0 <= i < orders_on(mine, Side::Sell).len() ==> p.untouched.contains(
                    #[trigger] left_alone(orders_on(mine, Side::Sell)[i], Side::Sell),
                )
        },
{
    if let Ok(p) = recenter_plan(program, mine, book, usdc, held, t) {
        let rails = Rails { min_ask: t.min_ask, allow_out_of_band: t.allow_out_of_band };
        let m = market_of(program, mine, book)->0;
        let bids = orders_on(mine, Side::Buy);
        let asks = orders_on(mine, Side::Sell);
        lemma_leg_shape(m, Side::Buy, t.bid, t.bid_qty, bids, usdc, rails);
        lemma_leg_shape(
            m,
            Side::Sell,
            t.ask,
            t.ask_qty,
            asks,
            held,
            rails,
        );
        let kept_bids = untouched_side(mine, Side::Buy, t.bid);
        let kept_asks = untouched_side(mine, Side::Sell, t.ask);
        if t.bid is None {
            assert forall|i: int| 0 <= i < bids.len() implies p.untouched.contains(
                #[trigger] left_alone(bids[i], Side::Buy),
            ) by {
                assert(p.untouched[i] == kept_bids[i]);
            }
        }
        if t.ask is None {
            assert forall|i: int| 0 <= i < asks.len() implies p.untouched.contains(
                #[trigger] left_alone(asks[i], Side::Sell),
            ) by {
                assert(p.untouched[kept_bids.len() + i] == kept_asks[i]);
            }
        }
    }
}

/// Within a side, nothing follows the order it posts, so every cancellation comes
/// first and each moved side is posted exactly once.
pub proof fn recenter_cancels_before_it_posts<N: Amount>(
    program: Json<N>,
    mine: Seq<Json<N>>,
    book: Json<N>,
    usdc: N,
    held: N,
    t: Targets<N>,
)
    ensures
        recenter_plan(program, mine, book, usdc, held, t) matches Ok(p) ==> {
            &&& forall|i: int, j: int|
                #![trigger p.steps[i], p.steps[j]]
                0 <= i < j < p.steps.len() && p.steps[i].op is Create ==> p.steps[j].direction
                    != p.steps[i].direction
            &&& t.bid is Some ==> exists|i: int|
                0 <= i < p.steps.len() && (#[trigger] p.steps[i]).op is Create
                    && p.steps[i].direction == Side::Buy.word() && p.steps[i].price == t.bid->0
            &&& t.ask is Some ==> exists|i: int|
                0 <= i < p.steps.len() && (#[trigger] p.steps[i]).op is Create
                    && p.steps[i].direction == Side::Sell.word() && p.steps[i].price == t.ask->0
        },
{
    lemma_side_words_differ();
    if let Ok(p) = recenter_plan(program, mine, book, usdc, held, t) {
        let rails = Rails { min_ask: t.min_ask, allow_out_of_band: t.allow_out_of_band };
        let m = market_of(program, mine, book)->0;
        let bids = orders_on(mine, Side::Buy);
        let asks = orders_on(mine, Side::Sell);
        lemma_leg_shape(m, Side::Buy, t.bid, t.bid_qty, bids, usdc, rails);
        lemma_leg_shape(
            m,
            Side::Sell,
            t.ask,
            t.ask_qty,
            asks,
            held,
            rails,
        );
        let b = leg(m, Side::Buy, t.bid, t.bid_qty, bids, usdc, rails)->Ok_0.0;
        let a = leg(
            m,
            Side::Sell,
            t.ask,
            t.ask_qty,
            asks,
            held,
            rails,
        )->Ok_0.0;
        assert(p.steps == b + a);
        if t.bid is Some {
            assert(p.steps[b.len() - 1] == b.last());
        }
        if t.ask is Some {
            assert(p.steps[b.len() + a.len() - 1] == a.last());
        }
        assert forall|i: int, j: int|
            #![trigger p.steps[i], p.steps[j]]
            0 <= i < j < p.steps.len() && p.steps[i].op is Create implies p.steps[j].direction
            != p.steps[i].direction by {
            if i < b.len() {
                assert(p.steps[i] == b[i]);
                assert(i == b.len() - 1);
                assert(p.steps[j] == a[j - b.len()]);
            } else {
                assert(p.steps[i] == a[i - b.len()]);
                assert(i - b.len() == a.len() - 1);
            }
        }
    }
}

/// What holds of an order that breaks no rail.
pub open spec fn safe_to_rest<N: Amount>(
    m: Market<N>,
    side: Side,
    price: N,
    qty: N,
    cover: Cover<N>,
    r: Rails<N>,
) -> bool {
    &&& side is Buy && m.mkt_best_ask is Some ==> !m.mkt_best_ask->0.at_most(price)
    &&& side is Sell && m.mkt_best_bid is Some ==> !price.at_most(m.mkt_best_bid->0)
    &&& !cover.have.less(cover.need)
    &&& !qty.less(m.min_contracts)
    &&& side is Sell && r.min_ask is Some ==> !price.less(r.min_ask->0)
    &&& !r.allow_out_of_band ==> !out_of_band(m, price)
}

/// An order passes the rails exactly when it does not cross the market, is
/// covered, is large enough, respects the floor on asks and lies in the band or is
/// allowed outside it.
pub proof fn rails_admit_exactly_the_safe_orders<N: Amount>(
    m: Market<N>,
    side: Side,
    price: N,
    qty: N,
    cover: Cover<N>,
    r: Rails<N>,
)
    ensures
        broken_rail(m, side, price, qty, cover, r) is None <==> safe_to_rest(
            m,
            side,
            price,
            qty,
            cover,
            r,
        ),
{
}

/// Whatever a recenter posts is safe to rest.
pub proof fn recenter_posts_only_safe_orders<N: Amount>(
    program: Json<N>,
    mine: Seq<Json<N>>,
    book: Json<N>,
    usdc: N,
    held: N,
    t: Targets<N>,
)
    ensures
        recenter_plan(program, mine, book, usdc, held, t) matches Ok(p) ==> {
            let rails = Rails { min_ask: t.min_ask, allow_out_of_band: t.allow_out_of_band };
            let bid_qty = moved_quantity(orders_on(mine, Side::Buy), t.bid_qty);
            let ask_qty = moved_quantity(orders_on(mine, Side::Sell), t.ask_qty);
            market_of(program, mine, book) matches Some(m) && {
                &&& t.bid is Some ==> safe_to_rest(
                    m,
                    Side::Buy,
                    t.bid->0,
                    bid_qty,
                    moved_cover(Side::Buy, t.bid->0, bid_qty, usdc),
                    rails,
                )
                &&& t.ask is Some ==> safe_to_rest(
                    m,
                    Side::Sell,
                    t.ask->0,
                    ask_qty,
                    moved_cover(Side::Sell, t.ask->0, ask_qty, held),
                    rails,
                )
                &&& forall|i: int|
                    0 <= i < p.steps.len() && (#[trigger] p.steps[i]).op is Create ==> {
                        ||| t.bid is Some && p.steps[i] == creation(
                            Side::Buy,
                            t.bid->0,
                            bid_qty,
                            m.mid,
                        )
                        ||| t.ask is Some && p.steps[i] == creation(
                            Side::Sell,
                            t.ask->0,
                            ask_qty,
                            m.mid,
                        )
                    }
            }
        },
{
    if let Ok(p) = recenter_plan(program, mine, book, usdc, held, t) {
        let rails = Rails { min_ask: t.min_ask, allow_out_of_band: t.allow_out_of_band };
        let m = market_of(program, mine, book)->0;
        let bids = orders_on(mine, Side::Buy);
        let asks = orders_on(mine, Side::Sell);
        lemma_leg_shape(m, Side::Buy, t.bid, t.bid_qty, bids, usdc, rails);
        lemma_leg_shape(
            m,
            Side::Sell,
            t.ask,
            t.ask_qty,
            asks,
            held,
            rails,
        );
        let b = leg(m, Side::Buy, t.bid, t.bid_qty, bids, usdc, rails)->Ok_0.0;
        assert forall|i: int|
            0 <= i < p.steps.len() && (#[trigger] p.steps[i]).op is Create implies {
            ||| t.bid is Some && p.steps[i] == creation(
                Side::Buy,
                t.bid->0,
                moved_quantity(bids, t.bid_qty),
                m.mid,
            )
            ||| t.ask is Some && p.steps[i] == creation(
                Side::Sell,
                t.ask->0,
                moved_quantity(asks, t.ask_qty),
                m.mid,
            )
        } by {
            if i < b.len() {
                assert(p.steps[i] == b[i]);
            }
        }
    }
}

/// A recenter counts the side it leaves in place: while the orders resting there
/// commit more than the balance behind them, nothing is moved. Where the book has a
/// mid to measure against, the refusal is a usage error.
pub proof fn recenter_counts_the_side_left_in_place<N: Amount>(
    program: Json<N>,
    mine: Seq<Json<N>>,
    book: Json<N>,
    usdc: N,
    held: N,
    t: Targets<N>,
)
    requires
        (t.bid is None && usdc.less(total_cost(orders_on(mine, Side::Buy)))) || (t.ask is None
            && held.less(total_quantity(orders_on(mine, Side::Sell)))),
    ensures
        recenter_plan(program, mine, book, usdc, held, t) is Err,
        market_of(program, mine, book) is Some ==> (recenter_plan(
            program,
            mine,
            book,
            usdc,
            held,
            t,
        ) matches Err(e) && e is Usage),
{
}

/// A recenter that is given a side always has something to send.
pub proof fn recenter_never_plans_nothing<N: Amount>(
    program: Json<N>,
    mine: Seq<Json<N>>,
    book: Json<N>,
    usdc: N,
    held: N,
    t: Targets<N>,
)
    requires
        t.bid is Some || t.ask is Some,
    ensures
        recenter_plan(program, mine, book, usdc, held, t) matches Ok(p) ==> p.steps.len() > 0,
{
    let rails = Rails { min_ask: t.min_ask, allow_out_of_band: t.allow_out_of_band };
    if market_of(program, mine, book) is Some {
        let m = market_of(program, mine, book)->0;
        lemma_leg_shape(
            m,
            Side::Buy,
            t.bid,
            t.bid_qty,
            orders_on(mine, Side::Buy),
            usdc,
            rails,
        );
        lemma_leg_shape(
            m,
            Side::Sell,
            t.ask,
            t.ask_qty,
            orders_on(mine, Side::Sell),
            held,
            rails,
        );
    }
}

/// A fresh quote is both sides or nothing: one bid and one ask of the same size,
/// each safe to rest inside the reward band.
pub proof fn provision_is_two_sided_or_nothing<N: Amount>(
    program: Json<N>,
    mine: Seq<Json<N>>,
    book: Json<N>,
    usdc: N,
    held: N,
    bid: N,
    ask: N,
    asked: Option<u32>,
    min_ask: Option<N>,
)
    ensures
        provision_plan(program, mine, book, usdc, held, bid, ask, asked, min_ask) matches Ok(p) ==> {
            let rails = Rails { min_ask, allow_out_of_band: false };
            market_of(program, mine, book) matches Some(m) && {
                let qty = fresh_quantity(m, asked);
                &&& p.steps.len() == 2
                &&& p.steps[0] == creation(Side::Buy, bid, qty, m.mid)
                &&& p.steps[1] == creation(Side::Sell, ask, qty, m.mid)
                &&& safe_to_rest(
                    m,
                    Side::Buy,
                    bid,
                    qty,
                    fresh_cover(Side::Buy, bid, qty, usdc, held),
                    rails,
                )
                &&& safe_to_rest(
                    m,
                    Side::Sell,
                    ask,
                    qty,
                    fresh_cover(Side::Sell, ask, qty, usdc, held),
                    rails,
                )
            }
        },
{
}

/// A property that is already quoted, on either side, gets no fresh quote.
pub proof fn provision_refuses_a_quoted_property<N: Amount>(
    program: Json<N>,
    mine: Seq<Json<N>>,
    book: Json<N>,
    usdc: N,
    held: N,
    bid: N,
    ask: N,
    asked: Option<u32>,
    min_ask: Option<N>,
)
    requires
        quoting(mine, Side::Buy) || quoting(mine, Side::Sell),
    ensures
        provision_plan(program, mine, book, usdc, held, bid, ask, asked, min_ask) is Err,
{
}

/// A stand-down only cancels, and never a sell at or above the protected price.
pub proof fn pull_never_sweeps_a_protected_ask<N: Amount>(
    program: Json<N>,
    mine: Seq<Json<N>>,
    keep_above: Option<N>,
    side: Option<Side>,
)
    ensures
        ({
            let p = pull_plan(program, mine, keep_above, side);
            &&& p.band is None
            &&& forall|i: int|
                0 <= i < p.steps.len() ==> {
                    &&& (#[trigger] p.steps[i]).op is Cancel
                    &&& keep_above is Some && p.steps[i].direction == Side::Sell.word()
                        ==> !keep_above->0.at_most(p.steps[i].price)
                    &&& side is Some ==> p.steps[i].direction == side->0.word()
                }
        }),
{
    let go = |o: Json<N>| !spared(o, keep_above, side);
    let p = pull_plan(program, mine, keep_above, side);
    let chosen = mine.filter(go);
    assert forall|i: int| 0 <= i < p.steps.len() implies {
        &&& (#[trigger] p.steps[i]).op is Cancel
        &&& keep_above is Some && p.steps[i].direction == Side::Sell.word()
            ==> !keep_above->0.at_most(p.steps[i].price)
        &&& side is Some ==> p.steps[i].direction == side->0.word()
    } by {
        assert(p.steps[i] == cancellation(chosen[i], chosen[i].name_at("direction"@)));
        mine.lemma_filter_pred(go, i);
    }
}

/// Every order of ours is either cancelled or kept by a stand-down, and an order
/// that no guard spares is cancelled. With no guards at all nothing is kept.
pub proof fn pull_decides_every_order<N: Amount>(
    program: Json<N>,
    mine: Seq<Json<N>>,
    keep_above: Option<N>,
    side: Option<Side>,
)
    ensures
        ({
            let p = pull_plan(program, mine, keep_above, side);
            &&& p.steps.len() + p.untouched.len() == mine.len()
            &&& forall|i: int|
                0 <= i < mine.len() && !spared(#[trigger] mine[i], keep_above, side)
                    ==> p.steps.contains(cancellation(mine[i], mine[i].name_at("direction"@)))
            &&& keep_above is None && side is None ==> p.untouched.len() == 0
        }),
{
    let go = |o: Json<N>| !spared(o, keep_above, side);
    let stay = |o: Json<N>| spared(o, keep_above, side);
    let step = |o: Json<N>| cancellation(o, o.name_at("direction"@));
    lemma_filter_splits(mine, go, stay);
    let p = pull_plan(program, mine, keep_above, side);
    let chosen = mine.filter(go);
    assert forall|i: int|
        0 <= i < mine.len() && !spared(
            #[trigger] mine[i],
            keep_above,
            side,
        ) implies p.steps.contains(cancellation(mine[i], mine[i].name_at("direction"@))) by {
        mine.lemma_filter_contains(go, i);
        let j = choose|j: int| 0 <= j < chosen.len() && chosen[j] == mine[i];
        assert(p.steps[j] == step(chosen[j]));
    }
    if keep_above is None && side is None {
        let left = mine.filter(stay);
        if left.len() > 0 {
            mine.lemma_filter_pred(stay, 0);
        }
    }
}

/// The price a caller protects guards asks only: a bid is never held back by it.
pub proof fn keep_above_never_protects_a_bid<N: Amount>(o: Json<N>, keep_above: Option<N>)
    requires
        o.text_at("direction"@) == Some(Side::Buy.word()),
    ensures
        !held_back(o, keep_above),
{
    lemma_side_words_differ();
}

/// Without the caller's word nothing is sent, whatever the plan holds.
pub proof fn nothing_is_sent_by_default(what: Seq<char>, property_id: Seq<char>, count: nat)
    ensures
        disposition_of(false, what, property_id, count) == (DispositionView::Show {
            schema: "quote-plan"@,
            mode: Render::DryRun,
        }),
{
}

/// A run of steps: the answers come one by one, each with an error or without.
pub open spec fn run_of<N: Amount>(
    steps: Seq<StepView<N>>,
    done: nat,
    answers: Seq<Option<Seq<char>>>,
) -> ProgressView
    decreases steps.len() - done,
{
    if done >= steps.len() {
        ProgressView::Finished
    } else {
        match progress_of(steps, done, answers[done as int]) {
            ProgressView::Continue(next) => run_of(steps, next, answers),
            other => other,
        }
    }
}

/// A run finishes exactly when every request succeeds. Otherwise it stops at the
/// first that fails, sends nothing more, and reports exactly the steps before it
/// as applied.
pub proof fn a_run_stops_at_the_first_failure<N: Amount>(
    steps: Seq<StepView<N>>,
    done: nat,
    answers: Seq<Option<Seq<char>>>,
    failed: nat,
)
    requires
        done <= failed <= steps.len(),
        steps.len() == answers.len(),
        forall|i: int| done <= i < failed ==> (#[trigger] answers[i]) is None,
        failed < steps.len() ==> answers[failed as int] is Some,
    ensures
        failed == steps.len() ==> run_of(steps, done, answers) == ProgressView::Finished,
        failed < steps.len() ==> run_of(steps, done, answers) == (ProgressView::Stopped {
            lines: partway_lines(steps.take(failed as int), steps[failed as int]),
            failure: FailureView::Other(
                partway_text(
                    steps.take(failed as int),
                    steps[failed as int],
                    answers[failed as int]->0,
                ),
            ),
        }),
    decreases steps.len() - done,
{
    if done < failed {
        assert(answers[done as int] is None);
        if done + 1 < steps.len() {
            a_run_stops_at_the_first_failure(steps, done + 1, answers, failed);
        }
    }
}

/// Our own resting size is never taken for the market: a level that holds nothing
/// but one order of ours leaves no trace in the prices of the others.
pub proof fn own_size_is_not_the_market(
    levels: Seq<(Micros, Micros)>,
    o: Json<Micros>,
    side: Side,
)
    requires
        o.text_at("direction"@) == Some(side.word()),
        forall|i: int|
            0 <= i < levels.len() ==> !close(
                (#[trigger] levels[i]).0,
                o.amount_at("price"@),
            ),
    ensures
        others_best(
            levels.push((o.amount_at("price"@), o.amount_at("quantity"@))),
            seq![o],
            side,
        ) == others_best(levels, Seq::empty(), side),
{
    let p = o.amount_at("price"@);
    let q = o.amount_at("quantity"@);
    let ours = levels.push((p, q));
    assert(half_cent::<Micros>().units == 5000) by {
        rounding_is_within_half(5_000_000int * 1_000_000, 1_000_000_000);
    }
    assert(close(p, p));
    lemma_first_at_end(levels, p, q);
    assert(seq![o].drop_last() =~= Seq::empty());
    assert(seq![o].last() == o);
    let left = without_own(ours, seq![o], side.word());
    assert(without_own(ours, Seq::<Json<Micros>>::empty(), side.word()) == ours);
    assert(left == ours.update(levels.len() as int, (p, q.difference(q))));
    assert(left =~= levels.push((p, q.difference(q))));
    assert(q.difference(q).units == 0);
    let keep = |l: (Micros, Micros)| Micros::whole(0).less(l.1);
    reveal(Seq::filter);
    assert(left.drop_last() =~= levels);
    assert(resting(left) == resting(levels));
    assert(without_own(levels, Seq::<Json<Micros>>::empty(), side.word()) == levels);
}

proof fn lemma_first_at_end(levels: Seq<(Micros, Micros)>, p: Micros, q: Micros)
    requires
        close(p, p),
        forall|i: int| 0 <= i < levels.len() ==> !close((#[trigger] levels[i]).0, p),
    ensures
        first_at(levels.push((p, q)), p) == Some(levels.len() as int),
    decreases levels.len(),
{
    let all = levels.push((p, q));
    if levels.len() == 0 {
        assert(all[0] == (p, q));
    } else {
        let tail = levels.skip(1);
        assert(!close(levels[0].0, p));
        assert(all[0] == levels[0]);
        assert forall|i: int| 0 <= i < tail.len() implies !close((#[trigger] tail[i]).0, p) by {
            assert(tail[i] == levels[i + 1]);
        }
        lemma_first_at_end(tail, p, q);
        assert(all.skip(1) =~= tail.push((p, q)));
    }
}

/// The prices of a quote are usable exactly when each one given is an ordinary number
/// of at least a cent; of several faults the first is told, by the name of its option.
pub proof fn prices_start_at_a_cent<N: Amount>(bid: Option<N>, ask: Option<N>, min_ask: Option<N>)
    ensures
        ({
            let bad = |p: Option<N>|
                p is Some && (!p->0.finite() || p->0.less(N::whole(1).quotient(N::whole(100))));
            price_refusal(bid, ask, min_ask) == if bad(bid) {
                Some(FailureView::Usage("--bid"@ + " must be at least $0.01"@))
            } else if bad(ask) {
                Some(FailureView::Usage("--ask"@ + " must be at least $0.01"@))
            } else if bad(min_ask) {
                Some(FailureView::Usage("--min-ask"@ + " must be at least $0.01"@))
            } else {
                None
            }
        }),
{
}

/// The tokens held of a property are those of its first position, or none.
pub proof fn the_first_position_says_what_is_held<N: Amount>(
    positions: Json<N>,
    property_id: Seq<char>,
    k: int,
)
    requires
        ({
            let items = positions.items_at("positions"@);
            &&& 0 <= k <= items.len()
            &&& forall|j: int|
                0 <= j < k ==> (#[trigger] items[j]).text_at("propertyId"@) != Some(property_id)
            &&& k < items.len() ==> items[k].text_at("propertyId"@) == Some(property_id)
        }),
    ensures
        ({
            let items = positions.items_at("positions"@);
            tokens_held(positions, property_id) == if k < items.len() {
                items[k].amount_at("currentTokens"@)
            } else {
                N::whole(0)
            }
        }),
{
    the_first_match_is_found(positions.items_at("positions"@), "propertyId"@, property_id, k);
}

/// What is sent is what was planned: a cancellation deletes the order by the text of
/// its id, and a creation posts the planned direction, price and quantity on the
/// property.
pub proof fn what_is_sent_is_what_was_planned<N>(step: StepView<N>, property_id: Seq<char>)
    ensures
        step.op is Create ==> request_of(step, property_id) == (RequestView::Post {
            property_id,
            direction: step.direction,
            price: step.price,
            quantity: step.quantity,
        }),
        step.op is Cancel && step.order_id is Some && step.order_id->0.as_text() is Some
            ==> request_of(step, property_id) == (RequestView::<N>::Delete {
            path: "/public/v1/orders/"@ + step.order_id->0.as_text()->0,
        }),
{
}

/// A plan with steps is executed only after the operator has confirmed it, and the
/// question says what is done, where, and in how many operations. One without steps is
/// shown as nothing to do.
pub proof fn a_plan_is_confirmed_before_it_is_sent(
    what: Seq<char>,
    property_id: Seq<char>,
    count: nat,
)
    ensures
        count > 0 ==> disposition_of(true, what, property_id, count) == DispositionView::Confirm(
            what + " "@ + property_id + ": "@ + decimal_text(count)
                + " order operation(s) on real money"@,
        ),
        count == 0 ==> disposition_of(true, what, property_id, count) == (DispositionView::Show {
            schema: "quote-noop"@,
            mode: Render::NoOp,
        }),
{
}

proof fn lemma_joined_holds(parts: Seq<Seq<char>>, sep: Seq<char>, k: int) -> (split: (
    Seq<char>,
    Seq<char>,
))
    requires
        0 <= k < parts.len(),
    ensures
        joined_text(parts, sep) == split.0 + parts[k] + split.1,
    decreases parts.len(),
{
    let head = parts.drop_last();
    if parts.len() == 1 {
        assert(parts[0] =~= Seq::<char>::empty() + parts[k] + Seq::<char>::empty());
        (Seq::empty(), Seq::empty())
    } else if k == parts.len() - 1 {
        let before = joined_text(head, sep) + sep;
        assert(joined_text(parts, sep) =~= before + parts[k] + Seq::<char>::empty());
        (before, Seq::empty())
    } else {
        let rest = lemma_joined_holds(head, sep, k);
        let after = rest.1 + sep + parts.last();
        assert(joined_text(parts, sep) =~= rest.0 + parts[k] + after);
        (rest.0, after)
    }
}

/// The message of a run that stopped names the step that failed, the error, and every
/// step that had landed: what it does, its side, its price to the cent and its size.
pub proof fn a_stopped_run_names_every_step<N: Amount>(
    applied: Seq<StepView<N>>,
    failed: StepView<N>,
    err: Seq<char>,
    k: int,
)
    requires
        0 <= k < applied.len(),
    ensures
        ({
            let told = |s: StepView<N>|
                (if s.op is Cancel {
                    "cancel"@
                } else {
                    "create"@
                }) + " "@ + s.direction + " $"@ + s.price.fixed_text(2) + " x"@
                    + s.quantity.plain_text();
            &&& holds_text(partway_text(applied, failed, err), told(failed))
            &&& holds_text(partway_text(applied, failed, err), told(applied[k]))
            &&& holds_text(partway_text(applied, failed, err), err)
        }),
{
    let texts = applied.map_values(|s: StepView<N>| step_text(s));
    let listed = joined_text(texts, "; "@);
    let split = lemma_joined_holds(texts, "; "@, k);
    let (a, b, c) = ("recenter failed partway on `"@, "`: "@, ". Already applied: "@);
    let d =
        ". A side may now be unquoted and earning $0 — check `lofty rewards eligibility` and re-post it"@;
    let whole = partway_text(applied, failed, err);
    assert(texts[k] == step_text(applied[k]));
    assert(whole =~= a + step_text(failed) + (b + err + c + listed + d));
    lemma_holds_between(a, step_text(failed), b + err + c + listed + d);
    assert(whole =~= (a + step_text(failed) + b) + err + (c + listed + d));
    lemma_holds_between(a + step_text(failed) + b, err, c + listed + d);
    assert(whole =~= (a + step_text(failed) + b + err + c + split.0) + texts[k] + (split.1 + d));
    lemma_holds_between(a + step_text(failed) + b + err + c + split.0, texts[k], split.1 + d);
}

/// The operator of a run that stopped sees every step that landed, in order, then the
/// one that failed, then what to do.
pub proof fn a_stopped_run_is_shown_in_full<N: Amount>(
    applied: Seq<StepView<N>>,
    failed: StepView<N>,
)
    ensures
        ({
            let lines = partway_lines(applied, failed);
            let told = |s: StepView<N>|
                (if s.op is Cancel {
                    "cancel"@
                } else {
                    "create"@
                }) + " "@ + s.direction + " $"@ + s.price.fixed_text(2) + " x"@
                    + s.quantity.plain_text();
            &&& lines.len() == applied.len() + 3
            &&& lines[0] == "⚠ recenter FAILED partway — a side may now be unquoted and earning $0"@
            &&& forall|k: int|
                0 <= k < applied.len() ==> lines[1 + k] == "    applied: "@ + told(
                    #[trigger] applied[k],
                )
            &&& lines[applied.len() as int + 1] == "    FAILED:  "@ + told(failed)
            &&& lines[applied.len() as int + 2]
                == "    verify with `lofty rewards eligibility`, then re-post the missing side"@
        }),
{
}

/// A step that fails stops the run with nothing more sent; one that succeeds leads to
/// the next, or ends the run after the last.
pub proof fn a_run_goes_on_step_by_step<N: Amount>(
    steps: Seq<StepView<N>>,
    done: nat,
    error: Option<Seq<char>>,
)
    requires
        done < steps.len(),
    ensures
        progress_of(steps, done, error) is Stopped <==> error is Some,
        error is None && done + 1 < steps.len() ==> progress_of(steps, done, error)
            == ProgressView::Continue(done + 1),
        error is None && done + 1 == steps.len() ==> progress_of(steps, done, error) is Finished,
{
}

/// An order that is let rest outside the band is noted with its price and the band.
pub proof fn an_order_outside_the_band_is_noted<N: Amount>(m: Market<N>, side: Side, price: N)
    ensures
        advisory(m, side, price) is Some <==> m.spread.less(price.difference(m.mid).magnitude()),
        advisory(m, side, price) matches Some(note) ==> note == (if side == Side::Buy {
            "buy"@
        } else {
            "sell"@
        }) + " $"@ + price.fixed_text(2) + " is outside the band [$"@ + m.mid.difference(
            m.spread,
        ).fixed_text(2) + ", $"@ + m.mid.sum(m.spread).fixed_text(2)
            + "] — it will rest but earn nothing"@,
{
}

/// A bid that is not below its ask is told with both prices.
pub proof fn an_inverted_quote_is_told_with_both_prices<N: Amount>(bid: N, ask: N)
    ensures
        inverted_text(bid, ask) == "--bid $"@ + bid.fixed_text(2) + " must be below --ask $"@
            + ask.fixed_text(2),
{
}

} // verus!
