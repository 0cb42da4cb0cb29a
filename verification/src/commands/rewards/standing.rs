use vstd::prelude::*;

use crate::amount::Amount;
use crate::book::{best, best_is_the_extreme, levels_of, prices_of};
use crate::commands::quote::placing::{directed, orders_are_added_up};
use crate::commands::quote::plan::orders_on;
use crate::commands::quote::Side;
use crate::commands::rewards::eligibility::{
    check_of, daily_total, display_name, eligibility_of, engaged, engaged_orders, levels_score,
    mid_of, own_score, qualifying, score, scores, terms_of, EligibilityView, Terms,
};
use crate::json::Json;
use crate::micros::{
    clamped, divided, multiples_divide_exactly, rounding_is_monotone, rounding_is_within_half,
    Micros,
};
use crate::tally::added_up;

verus! {

/// The score of an order is its size, weighed by the square of how near it rests to
/// the mid: the part of the reach, the allowed spread and one, that it leaves unused.
/// Past its reach an order weighs nothing.
pub proof fn a_score_is_the_square_of_nearness<N: Amount>(dist: N, spread: N, quantity: N)
    ensures
        ({
            let reach = spread.sum(N::whole(1));
            let unused = reach.difference(dist.magnitude()).quotient(reach);
            score(dist, spread, quantity) == unused.greater(N::whole(0)).product(
                unused.greater(N::whole(0)),
            ).product(quantity)
        }),
{
}

/// Half way out an order scores a quarter of its size.
pub proof fn half_way_out_scores_a_quarter(
    dist: Micros,
    spread: Micros,
    quantity: Micros,
    quarter: int,
)
    requires
        0 <= spread.units,
        spread.units + 1_000_000 < i64::MAX,
        2 * dist.units == spread.units + 1_000_000,
        quantity.units == 4 * quarter,
    ensures
        score(dist, spread, quantity).units == quarter,
{
    let r = spread.units + 1_000_000;
    let d = dist.units as int;
    assert(d * 1_000_000 == 500_000 * r) by (nonlinear_arith)
        requires
            2 * d == r,
    ;
    multiples_divide_exactly(500_000, r);
    multiples_divide_exactly(250_000, 1_000_000);
    assert(250_000 * quantity.units == quarter * 1_000_000);
    multiples_divide_exactly(quarter, 1_000_000);
    let reach = spread.sum(Micros::whole(1));
    let unused = reach.difference(dist.magnitude()).quotient(reach);
    assert(unused.units == 500_000);
    assert(unused.product(unused).units == 250_000) by {
        assert(500_000int * 500_000 == 250_000int * 1_000_000);
    }
}

/// Whether the wallet pays for all our bids at once.
pub open spec fn bids_are_paid_for<N: Amount>(mine: Seq<Json<N>>, usdc: N) -> bool {
    added_up(
        directed(mine, "buy"@),
        |o: Json<N>| o.amount_at("price"@).product(o.amount_at("quantity"@)),
    ).at_most(usdc)
}

/// Whether the tokens of all our asks are held.
pub open spec fn asks_are_held<N: Amount>(mine: Seq<Json<N>>, held: N) -> bool {
    added_up(directed(mine, "sell"@), |o: Json<N>| o.amount_at("quantity"@)).at_most(held)
}

/// Whether an order is backed: a bid by the wallet, any other by what is held.
pub open spec fn backed<N: Amount>(o: Json<N>, mine: Seq<Json<N>>, usdc: N, held: N) -> bool {
    if o.text_at("direction"@) == Some("buy"@) {
        bids_are_paid_for(mine, usdc)
    } else {
        asks_are_held(mine, held)
    }
}

proof fn lemma_cover_of_terms<N: Amount>(
    program: Json<N>,
    mine: Seq<Json<N>>,
    mid: N,
    usdc: N,
    held: N,
)
    ensures
        terms_of(program, mine, mid, usdc, held) == (Terms {
            mid,
            spread: program.amount_at("allowedSpread"@),
            min_contracts: program.amount_at("minContracts"@),
            bids_covered: bids_are_paid_for(mine, usdc),
            asks_covered: asks_are_held(mine, held),
        }),
{
    assert(orders_on(mine, Side::Buy) == directed(mine, "buy"@));
    assert(orders_on(mine, Side::Sell) == directed(mine, "sell"@));
    orders_are_added_up(orders_on(mine, Side::Buy));
    orders_are_added_up(orders_on(mine, Side::Sell));
}

proof fn lemma_levels_are_added_up<N: Amount>(levels: Seq<(N, N)>, t: Terms<N>)
    ensures
        levels_score(levels, t) == added_up(
            levels.filter(
                |l: (N, N)|
                    t.min_contracts.at_most(l.1) && l.0.difference(t.mid).magnitude().at_most(
                        t.spread,
                    ),
            ),
            |l: (N, N)| score(l.0.difference(t.mid), t.spread, l.1),
        ),
    decreases levels.len(),
{
    reveal(Seq::filter);
    if levels.len() > 0 {
        let keep = |l: (N, N)|
            t.min_contracts.at_most(l.1) && l.0.difference(t.mid).magnitude().at_most(t.spread);
        lemma_levels_are_added_up(levels.drop_last(), t);
        let head = levels.drop_last().filter(keep);
        assert(head.push(levels.last()).drop_last() =~= head);
    }
}

proof fn lemma_own_score_is_added_up<N: Amount>(mine: Seq<Json<N>>, t: Terms<N>)
    ensures
        own_score(mine, t) == added_up(
            mine.filter(|o: Json<N>| scores(o, t)),
            |o: Json<N>|
                score(
                    o.amount_at("price"@).difference(t.mid).magnitude(),
                    t.spread,
                    o.amount_at("quantity"@),
                ),
        ),
    decreases mine.len(),
{
    reveal(Seq::filter);
    if mine.len() > 0 {
        let keep = |o: Json<N>| scores(o, t);
        lemma_own_score_is_added_up(mine.drop_last(), t);
        let head = mine.drop_last().filter(keep);
        assert(head.push(mine.last()).drop_last() =~= head);
    }
}

proof fn lemma_qualifying_is_added_up<N: Amount>(mine: Seq<Json<N>>, t: Terms<N>, bids: bool)
    ensures
        qualifying(mine, t, bids) == added_up(
            mine.filter(
                |o: Json<N>|
                    (o.text_at("direction"@) == Some("buy"@)) == bids && if bids {
                        t.bids_covered
                    } else {
                        t.asks_covered
                    },
            ),
            |o: Json<N>| o.amount_at("quantity"@),
        ),
    decreases mine.len(),
{
    reveal(Seq::filter);
    if mine.len() > 0 {
        let keep = |o: Json<N>|
            (o.text_at("direction"@) == Some("buy"@)) == bids && if bids {
                t.bids_covered
            } else {
                t.asks_covered
            };
        lemma_qualifying_is_added_up(mine.drop_last(), t, bids);
        let head = mine.drop_last().filter(keep);
        assert(head.push(mine.last()).drop_last() =~= head);
    }
}

/// The competition is all the rest of the book: the score of every level of at least
/// the program's size within the allowed spread of the mid, bids and asks alike, less
/// our own score, and never below nothing.
pub proof fn the_competition_is_both_sides_of_the_book<N: Amount>(
    program: Json<N>,
    mine: Seq<Json<N>>,
    book: Json<N>,
    usdc: N,
    held: N,
)
    ensures
        eligibility_of(program, mine, book, usdc, held).standing matches Some(s) ==> {
            let mid = s.band.mid;
            let spread = program.amount_at("allowedSpread"@);
            let least = program.amount_at("minContracts"@);
            let counts = |l: (N, N)|
                least.at_most(l.1) && l.0.difference(mid).magnitude().at_most(spread);
            let worth = |l: (N, N)| score(l.0.difference(mid), spread, l.1);
            let bids = added_up(levels_of(book, "bids"@, "buyOrders"@).filter(counts), worth);
            let asks = added_up(levels_of(book, "asks"@, "sellOrders"@).filter(counts), worth);
            s.competing_score == bids.sum(asks).difference(s.our_score).greater(N::whole(0))
        },
{
    if let Some(mid) = mid_of(book) {
        let t = terms_of(program, mine, mid, usdc, held);
        lemma_levels_are_added_up(levels_of(book, "bids"@, "buyOrders"@), t);
        lemma_levels_are_added_up(levels_of(book, "asks"@, "sellOrders"@), t);
    }
}

/// Our score is that of our orders that rest within the allowed spread of the mid, are
/// of at least the program's size and are backed, each scored by its distance from the
/// mid and its size.
pub proof fn our_score_is_that_of_our_good_orders<N: Amount>(
    program: Json<N>,
    mine: Seq<Json<N>>,
    book: Json<N>,
    usdc: N,
    held: N,
)
    ensures
        eligibility_of(program, mine, book, usdc, held).standing matches Some(s) ==> {
            let mid = s.band.mid;
            let spread = program.amount_at("allowedSpread"@);
            let least = program.amount_at("minContracts"@);
            s.our_score == added_up(
                mine.filter(
                    |o: Json<N>|
                        o.amount_at("price"@).difference(mid).magnitude().at_most(spread)
                            && least.at_most(o.amount_at("quantity"@)) && backed(
                            o,
                            mine,
                            usdc,
                            held,
                        ),
                ),
                |o: Json<N>|
                    score(
                        o.amount_at("price"@).difference(mid).magnitude(),
                        spread,
                        o.amount_at("quantity"@),
                    ),
            )
        },
{
    if let Some(mid) = mid_of(book) {
        let t = terms_of(program, mine, mid, usdc, held);
        let spread = program.amount_at("allowedSpread"@);
        let least = program.amount_at("minContracts"@);
        lemma_cover_of_terms(program, mine, mid, usdc, held);
        lemma_own_score_is_added_up(mine, t);
        let f = |o: Json<N>| scores(o, t);
        let g = |o: Json<N>|
            o.amount_at("price"@).difference(mid).magnitude().at_most(spread) && least.at_most(
                o.amount_at("quantity"@),
            ) && backed(o, mine, usdc, held);
        assert(f =~= g);
    }
}

/// A position is two-sided exactly when the bids the wallet pays for, and the asks
/// whose tokens are held, each add up to the program's two-sided minimum, which is one
/// token at the least. It earns when it is two-sided and has a score; the reason it
/// does not names the side that is missing, bids first.
pub proof fn a_position_is_two_sided_when_both_sides_are_backed<N: Amount>(
    program: Json<N>,
    mine: Seq<Json<N>>,
    book: Json<N>,
    usdc: N,
    held: N,
)
    ensures
        ({
            let e = eligibility_of(program, mine, book, usdc, held);
            let need = program.amount_at("minTwoSidedLiquidity"@).greater(N::whole(1));
            let size = |o: Json<N>| o.amount_at("quantity"@);
            let bids = added_up(
                mine.filter(
                    |o: Json<N>|
                        o.text_at("direction"@) == Some("buy"@) && bids_are_paid_for(mine, usdc),
                ),
                size,
            );
            let asks = added_up(
                mine.filter(
                    |o: Json<N>|
                        o.text_at("direction"@) != Some("buy"@) && asks_are_held(mine, held),
                ),
                size,
            );
            e.standing matches Some(s) ==> {
                &&& s.two_sided <==> need.at_most(bids) && need.at_most(asks)
                &&& e.earning <==> s.two_sided && N::whole(0).less(s.our_score)
                &&& e.earning ==> e.reason is None
                &&& !s.two_sided ==> e.reason == Some(
                    if bids.less(need) {
                        "not two-sided: no qualifying BID (one-sided liquidity earns nothing)"@
                    } else {
                        "not two-sided: no qualifying ASK (one-sided liquidity earns nothing)"@
                    },
                )
                &&& s.two_sided && !e.earning ==> e.reason == Some(
                    "two-sided, but no order is in-band and sized, so nothing scores"@,
                )
            }
        }),
{
    if let Some(mid) = mid_of(book) {
        let t = terms_of(program, mine, mid, usdc, held);
        lemma_cover_of_terms(program, mine, mid, usdc, held);
        lemma_qualifying_is_added_up(mine, t, true);
        lemma_qualifying_is_added_up(mine, t, false);
        let f = |o: Json<N>|
            (o.text_at("direction"@) == Some("buy"@)) == true && if true {
                t.bids_covered
            } else {
                t.asks_covered
            };
        let g = |o: Json<N>|
            o.text_at("direction"@) == Some("buy"@) && bids_are_paid_for(mine, usdc);
        let h = |o: Json<N>|
            (o.text_at("direction"@) == Some("buy"@)) == false && if false {
                t.bids_covered
            } else {
                t.asks_covered
            };
        let k = |o: Json<N>|
            o.text_at("direction"@) != Some("buy"@) && asks_are_held(mine, held);
        assert(f =~= g);
        assert(h =~= k);
    }
}

/// A property has a standing exactly when both sides of its book have a price. Without
/// one nothing is earned, none of our orders is looked at, and the reason says so.
pub proof fn a_standing_needs_both_sides_of_the_book<N: Amount>(
    program: Json<N>,
    mine: Seq<Json<N>>,
    book: Json<N>,
    usdc: N,
    held: N,
)
    ensures
        ({
            let e = eligibility_of(program, mine, book, usdc, held);
            &&& e.property_id == program.name_at("propertyId"@)
            &&& e.standing is Some <==> prices_of(book, "bids"@, "buyOrders"@).len() > 0
                && prices_of(book, "asks"@, "sellOrders"@).len() > 0
            &&& e.standing is None ==> !e.earning && e.orders.len() == 0 && e.expected_daily
                == N::whole(0) && e.reason == Some(
                "order book is one-sided or empty — no mid to measure against"@,
            )
            &&& e.standing matches Some(s) ==> {
                &&& s.band.low == s.band.mid.difference(program.amount_at("allowedSpread"@))
                &&& s.band.high == s.band.mid.sum(program.amount_at("allowedSpread"@))
            }
        }),
{
    lemma_best_is_known(prices_of(book, "bids"@, "buyOrders"@), true);
    lemma_best_is_known(prices_of(book, "asks"@, "sellOrders"@), false);
}

proof fn lemma_best_is_known<N: Amount>(prices: Seq<N>, want_max: bool)
    ensures
        best(prices, want_max) is Some <==> prices.len() > 0,
{
}

/// The mid our orders are measured from lies half way between the highest bid and the
/// lowest ask of the book.
pub proof fn the_standing_is_measured_from_half_way(
    program: Json<Micros>,
    mine: Seq<Json<Micros>>,
    book: Json<Micros>,
    usdc: Micros,
    held: Micros,
    i: int,
    j: int,
)
    requires
        ({
            let bids = prices_of(book, "bids"@, "buyOrders"@);
            let asks = prices_of(book, "asks"@, "sellOrders"@);
            &&& 0 <= i < bids.len()
            &&& 0 <= j < asks.len()
            &&& forall|k: int| 0 <= k < bids.len() ==> (#[trigger] bids[k]).units <= bids[i].units
            &&& forall|k: int| 0 <= k < asks.len() ==> asks[j].units <= (#[trigger] asks[k]).units
            &&& i64::MIN <= bids[i].units + asks[j].units <= i64::MAX
        }),
    ensures
        ({
            let high = prices_of(book, "bids"@, "buyOrders"@)[i].units;
            let low = prices_of(book, "asks"@, "sellOrders"@)[j].units;
            eligibility_of(program, mine, book, usdc, held).standing matches Some(s) && -1 <= 2
                * s.band.mid.units - (high + low) <= 1
        }),
{
    let bids = prices_of(book, "bids"@, "buyOrders"@);
    let asks = prices_of(book, "asks"@, "sellOrders"@);
    best_is_the_extreme(bids, true);
    best_is_the_extreme(asks, false);
    let x = best(bids, true)->0;
    let y = best(asks, false)->0;
    let k = choose|k: int| 0 <= k < bids.len() && bids[k] == x;
    let l = choose|l: int| 0 <= l < asks.len() && asks[l] == y;
    assert(bids[k].units <= bids[i].units && asks[j].units <= asks[l].units);
    rounding_is_within_half((x.units + y.units) * 1_000_000, 2_000_000);
}

/// Every order of ours is looked at, in order: how far from the mid it rests and
/// whether that is within the allowed spread, whether it is of the program's size,
/// whether it is backed, and what is wrong with it if it does not score.
pub proof fn every_order_is_held_against_the_rules<N: Amount>(
    program: Json<N>,
    mine: Seq<Json<N>>,
    book: Json<N>,
    usdc: N,
    held: N,
    i: int,
)
    requires
        0 <= i < mine.len(),
    ensures
        ({
            let e = eligibility_of(program, mine, book, usdc, held);
            e.standing matches Some(s) ==> e.orders.len() == mine.len() && {
                let (o, c) = (mine[i], e.orders[i]);
                &&& c.direction == if o.text_at("direction"@) == Some("buy"@) {
                    "buy"@
                } else {
                    "sell"@
                }
                &&& c.price == o.amount_at("price"@)
                &&& c.quantity == o.amount_at("quantity"@)
                &&& c.dist_from_mid == c.price.difference(s.band.mid).magnitude()
                &&& c.in_band <==> c.dist_from_mid.at_most(program.amount_at("allowedSpread"@))
                &&& c.meets_min_contracts <==> program.amount_at("minContracts"@).at_most(
                    c.quantity,
                )
                &&& c.covered <==> backed(o, mine, usdc, held)
                &&& c.scoring <==> c.in_band && c.meets_min_contracts && c.covered
                &&& c.scoring <==> c.issues.len() == 0
                &&& c.issues.contains("out of band"@) <==> !c.in_band
                &&& c.issues.contains("below minContracts"@) <==> !c.meets_min_contracts
                &&& c.issues.contains("not covered"@) <==> !c.covered
            }
        }),
{
    if let Some(mid) = mid_of(book) {
        let t = terms_of(program, mine, mid, usdc, held);
        lemma_cover_of_terms(program, mine, mid, usdc, held);
        let e = eligibility_of(program, mine, book, usdc, held);
        let c = e.orders[i];
        assert(c == check_of(mine[i], t));
        reveal_strlit("out of band");
        reveal_strlit("below minContracts");
        reveal_strlit("not covered");
        assert("out of band"@.len() != "below minContracts"@.len());
        assert("not covered"@.len() != "below minContracts"@.len());
        assert("not covered"@[0] != "out of band"@[0]);
        let (a, b, d) = ("out of band"@, "below minContracts"@, "not covered"@);
        let first = if c.in_band {
            0int
        } else {
            1
        };
        let second = if c.meets_min_contracts {
            first
        } else {
            first + 1
        };
        if !c.in_band {
            assert(c.issues[0] == a);
        }
        if !c.meets_min_contracts {
            assert(c.issues[first] == b);
        }
        if !c.covered {
            assert(c.issues[second] == d);
        }
    }
}

/// A program goes by the second line of its address, else by its id.
pub proof fn a_program_goes_by_its_address<N: Amount>(
    program: Json<N>,
    mine: Seq<Json<N>>,
    book: Json<N>,
    usdc: N,
    held: N,
)
    ensures
        program.inner("address"@, "line2"@) matches Some(v) && v.as_text() is Some
            ==> display_name(program) == program.inner("address"@, "line2"@)->0.as_text()->0,
        program.inner("address"@, "line2"@) is None || program.inner(
            "address"@,
            "line2"@,
        )->0.as_text() is None ==> display_name(program) == program.name_at("propertyId"@),
        eligibility_of(program, mine, book, usdc, held).standing matches Some(s) ==> s.name
            == display_name(program),
{
}

/// The properties looked at are those with an active order of ours and, when one is
/// asked for, that one.
pub proof fn a_program_counts_when_we_quote_it<N>(
    program: Json<N>,
    active: Seq<Json<N>>,
    filter: Option<Seq<char>>,
)
    ensures
        engaged(program, active, filter) <==> {
            &&& filter is None || filter->0 == program.name_at("propertyId"@)
            &&& exists|i: int|
                0 <= i < active.len() && (#[trigger] active[i]).text_at("propertyId"@) == Some(
                    program.name_at("propertyId"@),
                )
        },
{
    let keep = |o: Json<N>| o.text_at("propertyId"@) == Some(program.name_at("propertyId"@));
    let ours = active.filter(keep);
    assert(ours == engaged_orders(active, program));
    if ours.len() > 0 {
        active.lemma_filter_pred(keep, 0);
        assert(ours.contains(ours[0]));
        active.lemma_filter_contains_rev(keep, ours[0]);
        let i = choose|i: int| 0 <= i < active.len() && active[i] == ours[0];
        assert(active[i].text_at("propertyId"@) == Some(program.name_at("propertyId"@)));
    }
    if exists|i: int|
        0 <= i < active.len() && (#[trigger] active[i]).text_at("propertyId"@) == Some(
            program.name_at("propertyId"@),
        ) {
        let i = choose|i: int|
            0 <= i < active.len() && (#[trigger] active[i]).text_at("propertyId"@) == Some(
                program.name_at("propertyId"@),
            );
        active.lemma_filter_contains(keep, i);
    }
}

/// The projected total is what the properties are each expected to earn, added up.
pub proof fn the_projection_is_added_up<N: Amount>(rows: Seq<EligibilityView<N>>)
    ensures
        daily_total(rows) == added_up(rows, |r: EligibilityView<N>| r.expected_daily),
    decreases rows.len(),
{
    if rows.len() > 0 {
        the_projection_is_added_up(rows.drop_last());
    }
}

proof fn lemma_score_is_no_debt(dist: Micros, spread: Micros, quantity: Micros)
    requires
        0 <= quantity.units,
    ensures
        0 <= score(dist, spread, quantity).units,
{
    let reach = spread.sum(Micros::whole(1));
    let r = reach.difference(dist.magnitude()).quotient(reach).greater(Micros::whole(0));
    let x = r.units as int;
    assert(0 <= x * x) by (nonlinear_arith);
    rounding_is_monotone(0, x * x, 1_000_000);
    multiples_divide_exactly(0, 1_000_000);
    let w = r.product(r).units as int;
    let q = quantity.units as int;
    assert(0 <= w * q) by (nonlinear_arith)
        requires
            0 <= w,
            0 <= q,
    ;
    rounding_is_monotone(0, w * q, 1_000_000);
}

proof fn lemma_levels_score_is_no_debt(levels: Seq<(Micros, Micros)>, t: Terms<Micros>)
    requires
        0 <= t.min_contracts.units,
    ensures
        0 <= levels_score(levels, t).units,
    decreases levels.len(),
{
    if levels.len() > 0 {
        lemma_levels_score_is_no_debt(levels.drop_last(), t);
        let (price, quantity) = levels.last();
        if t.min_contracts.at_most(quantity) {
            lemma_score_is_no_debt(price.difference(t.mid), t.spread, quantity);
        }
    }
}

/// A rival's order counts the same on either side of the book. While we are not the
/// whole book, one more level of at least the program's size within the allowed
/// spread, which leaves the mid where it is, raises the competing score by exactly its
/// own score, whether it is a bid or an ask.
pub proof fn a_rival_on_either_side_competes(
    program: Json<Micros>,
    mine: Seq<Json<Micros>>,
    before: Json<Micros>,
    after: Json<Micros>,
    usdc: Micros,
    held: Micros,
    level: (Micros, Micros),
    asking: bool,
)
    requires
        levels_of(after, "asks"@, "sellOrders"@) == if asking {
            levels_of(before, "asks"@, "sellOrders"@).push(level)
        } else {
            levels_of(before, "asks"@, "sellOrders"@)
        },
        levels_of(after, "bids"@, "buyOrders"@) == if asking {
            levels_of(before, "bids"@, "buyOrders"@)
        } else {
            levels_of(before, "bids"@, "buyOrders"@).push(level)
        },
        0 <= program.amount_at("minContracts"@).units <= level.1.units,
        ({
            let x = eligibility_of(program, mine, before, usdc, held).standing;
            let y = eligibility_of(program, mine, after, usdc, held).standing;
            &&& x is Some && y is Some
            &&& x->0.band.mid == y->0.band.mid
            &&& level.0.difference(x->0.band.mid).magnitude().at_most(
                program.amount_at("allowedSpread"@),
            )
            &&& 0 < x->0.competing_score.units
            &&& 0 <= x->0.our_score.units
            &&& x->0.our_score.units + x->0.competing_score.units + score(
                level.0.difference(x->0.band.mid),
                program.amount_at("allowedSpread"@),
                level.1,
            ).units <= i64::MAX
        }),
    ensures
        ({
            let x = eligibility_of(program, mine, before, usdc, held).standing->0;
            let y = eligibility_of(program, mine, after, usdc, held).standing->0;
            &&& y.our_score == x.our_score
            &&& y.competing_score.units == x.competing_score.units + score(
                level.0.difference(x.band.mid),
                program.amount_at("allowedSpread"@),
                level.1,
            ).units
        }),
{
    let mid = mid_of(before)->0;
    let t = terms_of(program, mine, mid, usdc, held);
    let (bids, asks) = (
        levels_of(before, "bids"@, "buyOrders"@),
        levels_of(before, "asks"@, "sellOrders"@),
    );
    assert(bids.push(level).drop_last() =~= bids);
    assert(asks.push(level).drop_last() =~= asks);
    lemma_levels_score_is_no_debt(bids, t);
    lemma_levels_score_is_no_debt(asks, t);
    lemma_score_is_no_debt(level.0.difference(mid), t.spread, level.1);
}

} // verus!
