use vstd::prelude::*;

use crate::amount::Amount;
use crate::commands::quote::plan::{
    leg, orders_on, provision_plan, recenter_plan, total_cost, total_quantity, untouched_side,
    KeptView, Op, PlanView, StepView, Targets,
};
use crate::commands::quote::{
    broken_rail, market_of, refusal_text, Cover, Market, Rail, Rails, Side,
};
use crate::failure::FailureView;
use crate::json::Json;
use crate::tally::added_up;
use crate::text::joined_text;

verus! {

/// The tokens of some orders are their sizes added up, and what they cost is the
/// product of price and size of each, added up.
pub proof fn orders_are_added_up<N: Amount>(orders: Seq<Json<N>>)
    ensures
        total_quantity(orders) == added_up(orders, |o: Json<N>| o.amount_at("quantity"@)),
        total_cost(orders) == added_up(
            orders,
            |o: Json<N>| o.amount_at("price"@).product(o.amount_at("quantity"@)),
        ),
    decreases orders.len(),
{
    if orders.len() > 0 {
        orders_are_added_up(orders.drop_last());
    }
}

/// Our orders in one direction.
pub open spec fn directed<N>(mine: Seq<Json<N>>, direction: Seq<char>) -> Seq<Json<N>> {
    mine.filter(|o: Json<N>| o.text_at("direction"@) == Some(direction))
}

/// The request that takes an order off the book, by its own id.
pub open spec fn withdrawn<N: Amount>(o: Json<N>, direction: Seq<char>) -> StepView<N> {
    StepView {
        op: Op::Cancel,
        direction,
        order_id: o.member("orderId"@),
        price: o.amount_at("price"@),
        quantity: o.amount_at("quantity"@),
        dist_from_mid: None,
    }
}

/// What a move does to one side, step by step.
proof fn lemma_side_steps<N: Amount>(
    m: Market<N>,
    side: Side,
    target: Option<N>,
    asked: Option<u32>,
    existing: Seq<Json<N>>,
    have: N,
    rails: Rails<N>,
)
    ensures
        leg(m, side, target, asked, existing, have, rails) matches Ok(l) ==> {
            &&& target is None ==> l.0.len() == 0 && l.1.len() == 0
            &&& target is Some ==> l.0.len() == existing.len() + 1
            &&& target is Some ==> l.0.last() == (StepView {
                op: Op::Create,
                direction: side.word(),
                order_id: None,
                price: target->0,
                quantity: match asked {
                    Some(n) => N::whole(n as u64),
                    None => added_up(existing, |o: Json<N>| o.amount_at("quantity"@)),
                },
                dist_from_mid: Some(target->0.difference(m.mid).magnitude()),
            })
            &&& forall|i: int|
                0 <= i < l.0.len() - 1 ==> #[trigger] l.0[i] == withdrawn(existing[i], side.word())
        },
{
    orders_are_added_up(existing);
}

/// A recenter posts what it was asked to post. The new order of a side carries the
/// price it was given and, whatever rests there, the size it was given; without a
/// given size it carries the sizes of all that rests on that side, added up.
pub proof fn a_recenter_posts_what_was_asked<N: Amount>(
    program: Json<N>,
    mine: Seq<Json<N>>,
    book: Json<N>,
    usdc: N,
    held: N,
    t: Targets<N>,
)
    ensures
        recenter_plan(program, mine, book, usdc, held, t) matches Ok(p) ==> p.band matches Some(
            band,
        ) && {
            &&& t.bid is Some ==> exists|i: int|
                0 <= i < p.steps.len() && (#[trigger] p.steps[i]).op is Create
                    && p.steps[i].direction == "buy"@
            &&& t.ask is Some ==> exists|i: int|
                0 <= i < p.steps.len() && (#[trigger] p.steps[i]).op is Create
                    && p.steps[i].direction == "sell"@
            &&& forall|i: int|
                0 <= i < p.steps.len() && (#[trigger] p.steps[i]).op is Create ==> {
                    let s = p.steps[i];
                    &&& s.order_id is None
                    &&& s.dist_from_mid == Some(s.price.difference(band.mid).magnitude())
                    &&& s.direction == "buy"@ || s.direction == "sell"@
                    &&& s.direction == "buy"@ ==> {
                        &&& t.bid == Some(s.price)
                        &&& t.bid_qty matches Some(n) ==> s.quantity == N::whole(n as u64)
                        &&& t.bid_qty is None ==> s.quantity == added_up(
                            directed(mine, "buy"@),
                            |o: Json<N>| o.amount_at("quantity"@),
                        )
                    }
                    &&& s.direction == "sell"@ ==> {
                        &&& t.ask == Some(s.price)
                        &&& t.ask_qty matches Some(n) ==> s.quantity == N::whole(n as u64)
                        &&& t.ask_qty is None ==> s.quantity == added_up(
                            directed(mine, "sell"@),
                            |o: Json<N>| o.amount_at("quantity"@),
                        )
                    }
                }
        },
{
    reveal_strlit("buy");
    reveal_strlit("sell");
    assert("buy"@.len() != "sell"@.len());
    if let Ok(p) = recenter_plan(program, mine, book, usdc, held, t) {
        let rails = Rails { min_ask: t.min_ask, allow_out_of_band: t.allow_out_of_band };
        let m = market_of(program, mine, book)->0;
        let bids = orders_on(mine, Side::Buy);
        let asks = orders_on(mine, Side::Sell);
        assert(bids == directed(mine, "buy"@) && asks == directed(mine, "sell"@));
        lemma_side_steps(m, Side::Buy, t.bid, t.bid_qty, bids, usdc, rails);
        lemma_side_steps(m, Side::Sell, t.ask, t.ask_qty, asks, held, rails);
        let b = leg(m, Side::Buy, t.bid, t.bid_qty, bids, usdc, rails)->Ok_0.0;
        let a = leg(m, Side::Sell, t.ask, t.ask_qty, asks, held, rails)->Ok_0.0;
        assert(p.steps == b + a);
        if t.bid is Some {
            assert(p.steps[b.len() - 1] == b.last());
        }
        if t.ask is Some {
            assert(p.steps[b.len() + a.len() - 1] == a.last());
        }
        assert forall|i: int|
            0 <= i < p.steps.len() && (#[trigger] p.steps[i]).op is Create implies p.steps[i]
            == b.last() && i == b.len() - 1 && t.bid is Some || p.steps[i] == a.last() && i
            == b.len() + a.len() - 1 && t.ask is Some by {
            if i < b.len() {
                assert(p.steps[i] == b[i]);
            } else {
                assert(p.steps[i] == a[i - b.len()]);
            }
        }
    }
}

/// A recenter takes off the book every order of a side it moves, each by its own id
/// and at its own price and size, and no other; and it does nothing beside that but
/// post one order a side.
pub proof fn a_recenter_takes_off_all_it_moves<N: Amount>(
    program: Json<N>,
    mine: Seq<Json<N>>,
    book: Json<N>,
    usdc: N,
    held: N,
    t: Targets<N>,
)
    ensures
        recenter_plan(program, mine, book, usdc, held, t) matches Ok(p) ==> {
            let (bids, asks) = (directed(mine, "buy"@), directed(mine, "sell"@));
            &&& p.property_id == program.member("propertyId"@)
            &&& p.steps.len() == (if t.bid is Some {
                bids.len() + 1
            } else {
                0
            }) + (if t.ask is Some {
                asks.len() + 1
            } else {
                0
            })
            &&& t.bid is Some ==> forall|i: int|
                0 <= i < bids.len() ==> p.steps.contains(
                    #[trigger] withdrawn(bids[i], "buy"@),
                )
            &&& t.ask is Some ==> forall|i: int|
                0 <= i < asks.len() ==> p.steps.contains(
                    #[trigger] withdrawn(asks[i], "sell"@),
                )
            &&& forall|k: int|
                0 <= k < p.steps.len() && (#[trigger] p.steps[k]).op is Cancel ==> {
                    ||| t.bid is Some && exists|i: int|
                        0 <= i < bids.len() && p.steps[k] == withdrawn(
                            #[trigger] bids[i],
                            "buy"@,
                        )
                    ||| t.ask is Some && exists|i: int|
                        0 <= i < asks.len() && p.steps[k] == withdrawn(
                            #[trigger] asks[i],
                            "sell"@,
                        )
                }
        },
{
    if let Ok(p) = recenter_plan(program, mine, book, usdc, held, t) {
        let rails = Rails { min_ask: t.min_ask, allow_out_of_band: t.allow_out_of_band };
        let m = market_of(program, mine, book)->0;
        let bids = orders_on(mine, Side::Buy);
        let asks = orders_on(mine, Side::Sell);
        assert(bids == directed(mine, "buy"@) && asks == directed(mine, "sell"@));
        lemma_side_steps(m, Side::Buy, t.bid, t.bid_qty, bids, usdc, rails);
        lemma_side_steps(m, Side::Sell, t.ask, t.ask_qty, asks, held, rails);
        let b = leg(m, Side::Buy, t.bid, t.bid_qty, bids, usdc, rails)->Ok_0.0;
        let a = leg(m, Side::Sell, t.ask, t.ask_qty, asks, held, rails)->Ok_0.0;
        assert(p.steps == b + a);
        if t.bid is Some {
            assert forall|i: int| 0 <= i < bids.len() implies p.steps.contains(
                #[trigger] withdrawn(bids[i], "buy"@),
            ) by {
                assert(p.steps[i] == b[i]);
            }
        }
        if t.ask is Some {
            assert forall|i: int| 0 <= i < asks.len() implies p.steps.contains(
                #[trigger] withdrawn(asks[i], "sell"@),
            ) by {
                assert(p.steps[b.len() + i] == a[i]);
            }
        }
        assert forall|k: int|
            0 <= k < p.steps.len() && (#[trigger] p.steps[k]).op is Cancel implies {
            ||| t.bid is Some && exists|i: int|
                0 <= i < bids.len() && p.steps[k] == withdrawn(#[trigger] bids[i], "buy"@)
            ||| t.ask is Some && exists|i: int|
                0 <= i < asks.len() && p.steps[k] == withdrawn(#[trigger] asks[i], "sell"@)
        } by {
            if k < b.len() {
                assert(p.steps[k] == b[k]);
                if k < b.len() - 1 {
                    assert(p.steps[k] == withdrawn(bids[k], "buy"@));
                }
            } else {
                let j = k - b.len();
                assert(p.steps[k] == a[j]);
                if j < a.len() - 1 {
                    assert(p.steps[k] == withdrawn(asks[j], "sell"@));
                }
            }
        }
    }
}

/// What a recenter reports as left alone: our orders of the sides it was given no
/// price for, bids first, each at its own price and size, and no other.
pub proof fn a_recenter_reports_what_it_leaves<N: Amount>(
    program: Json<N>,
    mine: Seq<Json<N>>,
    book: Json<N>,
    usdc: N,
    held: N,
    t: Targets<N>,
)
    ensures
        recenter_plan(program, mine, book, usdc, held, t) matches Ok(p) ==> {
            let bids = if t.bid is None {
                directed(mine, "buy"@)
            } else {
                Seq::empty()
            };
            let asks = if t.ask is None {
                directed(mine, "sell"@)
            } else {
                Seq::empty()
            };
            &&& p.untouched.len() == bids.len() + asks.len()
            &&& forall|i: int|
                0 <= i < bids.len() ==> #[trigger] p.untouched[i] == (KeptView {
                    direction: "buy"@,
                    price: bids[i].amount_at("price"@),
                    quantity: bids[i].amount_at("quantity"@),
                    reason: None,
                })
            &&& forall|i: int|
                bids.len() <= i < p.untouched.len() ==> #[trigger] p.untouched[i] == (KeptView {
                    direction: "sell"@,
                    price: asks[i - bids.len()].amount_at("price"@),
                    quantity: asks[i - bids.len()].amount_at("quantity"@),
                    reason: None,
                })
        },
{
    if let Ok(p) = recenter_plan(program, mine, book, usdc, held, t) {
        let kept_bids = untouched_side(mine, Side::Buy, t.bid);
        let kept_asks = untouched_side(mine, Side::Sell, t.ask);
        assert(p.untouched == kept_bids + kept_asks);
        assert(orders_on(mine, Side::Buy) == directed(mine, "buy"@));
        assert(orders_on(mine, Side::Sell) == directed(mine, "sell"@));
    }
}

/// Whether a bid may rest: it lies below the others' best ask, the wallet pays for
/// its whole size at its price, it reaches the program's size, and it lies within the
/// allowed spread of the mid unless the caller lets it rest outside.
pub open spec fn bid_may_rest<N: Amount>(
    program: Json<N>,
    m: Market<N>,
    price: N,
    quantity: N,
    usdc: N,
    anywhere: bool,
) -> bool {
    &&& m.mkt_best_ask matches Some(best) ==> !best.at_most(price)
    &&& !usdc.less(price.product(quantity))
    &&& !quantity.less(program.amount_at("minContracts"@))
    &&& anywhere || !program.amount_at("allowedSpread"@).less(price.difference(m.mid).magnitude())
}

/// Whether an ask may rest: it lies above the others' best bid, the tokens it sells
/// are held, it reaches the program's size, it is not under the caller's floor, and it
/// lies within the allowed spread of the mid unless the caller lets it rest outside.
pub open spec fn ask_may_rest<N: Amount>(
    program: Json<N>,
    m: Market<N>,
    price: N,
    quantity: N,
    held: N,
    floor: Option<N>,
    anywhere: bool,
) -> bool {
    &&& m.mkt_best_bid matches Some(best) ==> !price.at_most(best)
    &&& !held.less(quantity)
    &&& !quantity.less(program.amount_at("minContracts"@))
    &&& floor matches Some(least) ==> !price.less(least)
    &&& anywhere || !program.amount_at("allowedSpread"@).less(price.difference(m.mid).magnitude())
}

/// A recenter is planned exactly when everything it leaves on the book is safe there.
/// A new order must have a size and may rest; of a side that is left in place, the
/// wallet must pay for all the bids, or the tokens of all the asks must be held. A
/// book without a mid refuses it whatever was asked; any other refusal is a usage
/// error.
pub proof fn a_recenter_is_planned_exactly_when_it_is_safe<N: Amount>(
    program: Json<N>,
    mine: Seq<Json<N>>,
    book: Json<N>,
    usdc: N,
    held: N,
    t: Targets<N>,
)
    ensures
        ({
            let plan = recenter_plan(program, mine, book, usdc, held, t);
            let (bids, asks) = (directed(mine, "buy"@), directed(mine, "sell"@));
            let bid_qty = match t.bid_qty {
                Some(n) => N::whole(n as u64),
                None => added_up(bids, |o: Json<N>| o.amount_at("quantity"@)),
            };
            let ask_qty = match t.ask_qty {
                Some(n) => N::whole(n as u64),
                None => added_up(asks, |o: Json<N>| o.amount_at("quantity"@)),
            };
            match market_of(program, mine, book) {
                None => plan matches Err(e) && e is Other,
                Some(m) => {
                    &&& plan is Ok <==> {
                        &&& t.bid matches Some(price) ==> !bid_qty.at_most(N::whole(0))
                            && bid_may_rest(program, m, price, bid_qty, usdc, t.allow_out_of_band)
                        &&& t.bid is None ==> !usdc.less(
                            added_up(
                                bids,
                                |o: Json<N>| o.amount_at("price"@).product(o.amount_at("quantity"@)),
                            ),
                        )
                        &&& t.ask matches Some(price) ==> !ask_qty.at_most(N::whole(0))
                            && ask_may_rest(
                            program,
                            m,
                            price,
                            ask_qty,
                            held,
                            t.min_ask,
                            t.allow_out_of_band,
                        )
                        &&& t.ask is None ==> !held.less(
                            added_up(asks, |o: Json<N>| o.amount_at("quantity"@)),
                        )
                    }
                    &&& plan matches Err(e) ==> e is Usage
                },
            }
        }),
{
    assert(orders_on(mine, Side::Buy) == directed(mine, "buy"@));
    assert(orders_on(mine, Side::Sell) == directed(mine, "sell"@));
    orders_are_added_up(orders_on(mine, Side::Buy));
    orders_are_added_up(orders_on(mine, Side::Sell));
}

/// Whatever a recenter posts may rest: each posted bid lies below the others' best
/// ask, is paid for by the wallet and is large enough, and each posted ask lies above
/// the others' best bid and the caller's floor and sells only held tokens.
pub proof fn what_a_recenter_posts_may_rest<N: Amount>(
    program: Json<N>,
    mine: Seq<Json<N>>,
    book: Json<N>,
    usdc: N,
    held: N,
    t: Targets<N>,
)
    ensures
        recenter_plan(program, mine, book, usdc, held, t) matches Ok(p) ==> market_of(
            program,
            mine,
            book,
        ) matches Some(m) && forall|i: int|
            0 <= i < p.steps.len() && (#[trigger] p.steps[i]).op is Create ==> {
                let s = p.steps[i];
                &&& !s.quantity.at_most(N::whole(0))
                &&& s.direction == "buy"@ ==> bid_may_rest(
                    program,
                    m,
                    s.price,
                    s.quantity,
                    usdc,
                    t.allow_out_of_band,
                )
                &&& s.direction == "sell"@ ==> ask_may_rest(
                    program,
                    m,
                    s.price,
                    s.quantity,
                    held,
                    t.min_ask,
                    t.allow_out_of_band,
                )
            },
{
    a_recenter_posts_what_was_asked(program, mine, book, usdc, held, t);
    a_recenter_is_planned_exactly_when_it_is_safe(program, mine, book, usdc, held, t);
}

/// A plan that posts shows the band it measured against: the mid, and the program's
/// allowed spread to both sides of it. It carries one note for each posted order that
/// lies farther from the mid than that.
pub proof fn a_recenter_shows_its_band<N: Amount>(
    program: Json<N>,
    mine: Seq<Json<N>>,
    book: Json<N>,
    usdc: N,
    held: N,
    t: Targets<N>,
)
    ensures
        recenter_plan(program, mine, book, usdc, held, t) matches Ok(p) ==> p.band matches Some(
            band,
        ) && {
            let spread = program.amount_at("allowedSpread"@);
            let far = |target: Option<N>|
                target is Some && spread.less(target->0.difference(band.mid).magnitude());
            &&& market_of(program, mine, book) matches Some(m) && band.mid == m.mid
            &&& band.low == band.mid.difference(spread)
            &&& band.high == band.mid.sum(spread)
            &&& p.notes.len() == (if far(t.bid) {
                1nat
            } else {
                0nat
            }) + (if far(t.ask) {
                1nat
            } else {
                0nat
            })
        },
{
}

/// A fresh quote is planned exactly when the property is quoted on neither side and
/// both of its orders may rest inside the band. Both carry the size asked for, else
/// the program's minimum.
pub proof fn a_fresh_quote_is_planned_exactly_when_it_is_safe<N: Amount>(
    program: Json<N>,
    mine: Seq<Json<N>>,
    book: Json<N>,
    usdc: N,
    held: N,
    bid: N,
    ask: N,
    asked: Option<u32>,
    min_ask: Option<N>,
)
    ensures
        ({
            let plan = provision_plan(program, mine, book, usdc, held, bid, ask, asked, min_ask);
            let quantity = match asked {
                Some(n) => N::whole(n as u64),
                None => program.amount_at("minContracts"@),
            };
            match market_of(program, mine, book) {
                None => plan matches Err(e) && e is Other,
                Some(m) => {
                    &&& plan is Ok <==> {
                        &&& forall|i: int|
                            0 <= i < mine.len() ==> (#[trigger] mine[i]).text_at("direction"@)
                                != Some("buy"@) && mine[i].text_at("direction"@) != Some("sell"@)
                        &&& bid_may_rest(program, m, bid, quantity, usdc, false)
                        &&& ask_may_rest(program, m, ask, quantity, held, min_ask, false)
                    }
                    &&& plan matches Err(e) ==> e is Usage
                },
            }
        }),
{
}

/// A fresh quote posts one bid and one ask, nothing else, at the prices given and in
/// one size. The wallet pays for the whole bid and the ask sells only held tokens.
pub proof fn a_fresh_quote_is_paid_for<N: Amount>(
    program: Json<N>,
    mine: Seq<Json<N>>,
    book: Json<N>,
    usdc: N,
    held: N,
    bid: N,
    ask: N,
    asked: Option<u32>,
    min_ask: Option<N>,
)
    ensures
        provision_plan(program, mine, book, usdc, held, bid, ask, asked, min_ask) matches Ok(p) ==> {
            let (b, s) = (p.steps[0], p.steps[1]);
            &&& p.property_id == program.member("propertyId"@)
            &&& p.steps.len() == 2
            &&& p.untouched.len() == 0
            &&& p.notes.len() == 0
            &&& b.op is Create && s.op is Create
            &&& b.order_id is None && s.order_id is None
            &&& b.direction == "buy"@ && s.direction == "sell"@
            &&& b.price == bid && s.price == ask
            &&& b.quantity == s.quantity
            &&& b.quantity == match asked {
                Some(n) => N::whole(n as u64),
                None => program.amount_at("minContracts"@),
            }
            &&& !usdc.less(b.price.product(b.quantity))
            &&& !held.less(s.quantity)
            &&& !b.quantity.less(program.amount_at("minContracts"@))
            &&& min_ask matches Some(least) ==> !s.price.less(least)
            &&& p.band matches Some(band) && {
                let spread = program.amount_at("allowedSpread"@);
                &&& market_of(program, mine, book) matches Some(m) && band.mid == m.mid
                &&& band.low == band.mid.difference(spread)
                &&& band.high == band.mid.sum(spread)
                &&& b.dist_from_mid == Some(bid.difference(band.mid).magnitude())
                &&& s.dist_from_mid == Some(ask.difference(band.mid).magnitude())
                &&& !spread.less(bid.difference(band.mid).magnitude())
                &&& !spread.less(ask.difference(band.mid).magnitude())
            }
        },
{
}

/// Of several broken rails the caller is told the one that costs most: crossing the
/// market, then a missing cover, then too small a size, then the floor, then the
/// band.
pub proof fn the_costliest_rail_is_named<N: Amount>(
    m: Market<N>,
    side: Side,
    price: N,
    qty: N,
    cover: Cover<N>,
    r: Rails<N>,
)
    ensures
        ({
            let rail = broken_rail(m, side, price, qty, cover, r);
            let over_ask = side == Side::Buy && m.mkt_best_ask is Some
                && m.mkt_best_ask->0.at_most(price);
            let under_bid = side == Side::Sell && m.mkt_best_bid is Some && price.at_most(
                m.mkt_best_bid->0,
            );
            let bare = cover.have.less(cover.need);
            let small = qty.less(m.min_contracts);
            let cheap = side == Side::Sell && r.min_ask is Some && price.less(r.min_ask->0);
            let far = m.spread.less(price.difference(m.mid).magnitude());
            &&& rail == Some(Rail::CrossesAsk) <==> over_ask
            &&& rail == Some(Rail::CrossesBid) <==> under_bid
            &&& rail == Some(Rail::Uncovered) <==> bare && !over_ask && !under_bid
            &&& rail == Some(Rail::TooSmall) <==> small && !bare && !over_ask && !under_bid
            &&& rail == Some(Rail::UnderFloor) <==> cheap && !small && !bare && !over_ask
                && !under_bid
            &&& rail == Some(Rail::OutOfBand) <==> far && !r.allow_out_of_band && !cheap && !small
                && !bare && !over_ask && !under_bid
        }),
{
}

/// The outcome of a plan that is refused as a usage error.
pub open spec fn refused<N>(why: Seq<char>) -> Result<PlanView<N>, FailureView> {
    Err(FailureView::Usage(why))
}

/// A refusal says what was wrong, with the figures: the price and the best price it
/// would cross, what the order needs and what there is, its size and the size that
/// earns, the floor it is under, or the band it is outside of.
pub proof fn a_refusal_says_what_was_wrong<N: Amount>(
    m: Market<N>,
    side: Side,
    price: N,
    qty: N,
    cover: Cover<N>,
    r: Rails<N>,
)
    ensures
        ({
            let word = if side == Side::Buy {
                "buy"@
            } else {
                "sell"@
            };
            let told = |rail: Rail| refusal_text(rail, m, side, price, qty, cover, r);
            let taker = " and fill immediately as a taker; this command only rests liquidity"@;
            let dropped = " — Lofty auto-cancels uncovered orders"@;
            &&& m.mkt_best_ask matches Some(best) ==> told(Rail::CrossesAsk) == "bid $"@
                + price.fixed_text(2) + " would cross the best ask $"@ + best.fixed_text(2) + taker
            &&& m.mkt_best_bid matches Some(best) ==> told(Rail::CrossesBid) == "ask $"@
                + price.fixed_text(2) + " would cross the best bid $"@ + best.fixed_text(2) + taker
            &&& side == Side::Buy ==> told(Rail::Uncovered) == "bid needs $"@
                + cover.need.fixed_text(2) + " of cover but the wallet holds $"@
                + cover.have.fixed_text(2) + dropped
            &&& side == Side::Sell ==> told(Rail::Uncovered) == "ask needs "@
                + cover.need.plain_text() + " token(s) but only "@ + cover.have.plain_text()
                + " are held"@ + dropped
            &&& told(Rail::TooSmall) == word + " size "@ + qty.plain_text()
                + " is below minContracts "@ + m.min_contracts.plain_text()
                + " — it would rest but earn nothing"@
            &&& r.min_ask matches Some(least) ==> told(Rail::UnderFloor) == "ask $"@
                + price.fixed_text(2) + " is below --min-ask $"@ + least.fixed_text(2)
            &&& told(Rail::OutOfBand) == word + " $"@ + price.fixed_text(2)
                + " is outside the reward band [$"@ + m.mid.difference(m.spread).fixed_text(2)
                + ", $"@ + m.mid.sum(m.spread).fixed_text(2) + "] (mid $"@ + m.mid.fixed_text(2)
                + ") and would earn nothing — pass --allow-out-of-band to place it anyway"@
        }),
{
    reveal_strlit(" are held — Lofty auto-cancels uncovered orders");
    reveal_strlit(" are held");
    reveal_strlit(" — Lofty auto-cancels uncovered orders");
    assert(" are held — Lofty auto-cancels uncovered orders"@ =~= " are held"@
        + " — Lofty auto-cancels uncovered orders"@);
    let a = "ask needs "@ + cover.need.plain_text() + " token(s) but only "@
        + cover.have.plain_text();
    assert(a + " are held — Lofty auto-cancels uncovered orders"@ =~= a + " are held"@
        + " — Lofty auto-cancels uncovered orders"@);
}

/// A recenter that moves the bid is refused for the bid before anything is said of the
/// ask, and the refusal is of the bid as it would have been posted.
pub proof fn a_recenter_is_refused_for_the_bid_first<N: Amount>(
    program: Json<N>,
    mine: Seq<Json<N>>,
    book: Json<N>,
    usdc: N,
    held: N,
    t: Targets<N>,
    m: Market<N>,
)
    requires
        market_of(program, mine, book) == Some(m),
        t.bid is Some,
    ensures
        ({
            let plan = recenter_plan(program, mine, book, usdc, held, t);
            let rails = Rails { min_ask: t.min_ask, allow_out_of_band: t.allow_out_of_band };
            let price = t.bid->0;
            let qty = match t.bid_qty {
                Some(n) => N::whole(n as u64),
                None => added_up(directed(mine, "buy"@), |o: Json<N>| o.amount_at("quantity"@)),
            };
            let cover = Cover { need: price.product(qty), have: usdc };
            &&& qty.at_most(N::whole(0)) ==> plan == refused::<N>(
                "no resting "@ + "buy"@ + " to take a size from — pass --"@ + "bid"@ + "-qty"@,
            )
            &&& !qty.at_most(N::whole(0)) && broken_rail(m, Side::Buy, price, qty, cover, rails)
                is Some ==> plan == refused::<N>(
                refusal_text(
                    broken_rail(m, Side::Buy, price, qty, cover, rails)->0,
                    m,
                    Side::Buy,
                    price,
                    qty,
                    cover,
                    rails,
                ),
            )
        }),
{
    assert(orders_on(mine, Side::Buy) == directed(mine, "buy"@));
    orders_are_added_up(orders_on(mine, Side::Buy));
}

/// A recenter of the ask alone is refused for the bids it leaves where the wallet does
/// not pay for them, and else for the ask as it would have been posted.
pub proof fn a_recenter_of_the_ask_is_refused_for_the_ask<N: Amount>(
    program: Json<N>,
    mine: Seq<Json<N>>,
    book: Json<N>,
    usdc: N,
    held: N,
    t: Targets<N>,
    m: Market<N>,
)
    requires
        market_of(program, mine, book) == Some(m),
        t.bid is None,
        t.ask is Some,
    ensures
        ({
            let plan = recenter_plan(program, mine, book, usdc, held, t);
            let rails = Rails { min_ask: t.min_ask, allow_out_of_band: t.allow_out_of_band };
            let price = t.ask->0;
            let cost = added_up(
                directed(mine, "buy"@),
                |o: Json<N>| o.amount_at("price"@).product(o.amount_at("quantity"@)),
            );
            let qty = match t.ask_qty {
                Some(n) => N::whole(n as u64),
                None => added_up(directed(mine, "sell"@), |o: Json<N>| o.amount_at("quantity"@)),
            };
            let cover = Cover { need: qty, have: held };
            &&& usdc.less(cost) ==> plan == refused::<N>(
                "bid needs $"@ + cost.fixed_text(2) + " of cover but the wallet holds $"@
                    + usdc.fixed_text(2) + " — Lofty auto-cancels uncovered orders"@,
            )
            &&& !usdc.less(cost) && qty.at_most(N::whole(0)) ==> plan == refused::<N>(
                "no resting "@ + "sell"@ + " to take a size from — pass --"@ + "ask"@ + "-qty"@,
            )
            &&& !usdc.less(cost) && !qty.at_most(N::whole(0)) && broken_rail(
                m,
                Side::Sell,
                price,
                qty,
                cover,
                rails,
            ) is Some ==> plan == refused::<N>(
                refusal_text(
                    broken_rail(m, Side::Sell, price, qty, cover, rails)->0,
                    m,
                    Side::Sell,
                    price,
                    qty,
                    cover,
                    rails,
                ),
            )
        }),
{
    assert(orders_on(mine, Side::Buy) == directed(mine, "buy"@));
    assert(orders_on(mine, Side::Sell) == directed(mine, "sell"@));
    orders_are_added_up(orders_on(mine, Side::Buy));
    orders_are_added_up(orders_on(mine, Side::Sell));
}

/// A fresh quote is refused for what is already quoted, then for its bid, then for its
/// ask, each as it would have been posted.
pub proof fn a_fresh_quote_is_refused_in_order<N: Amount>(
    program: Json<N>,
    mine: Seq<Json<N>>,
    book: Json<N>,
    usdc: N,
    held: N,
    bid: N,
    ask: N,
    asked: Option<u32>,
    min_ask: Option<N>,
    m: Market<N>,
)
    requires
        market_of(program, mine, book) == Some(m),
    ensures
        ({
            let plan = provision_plan(program, mine, book, usdc, held, bid, ask, asked, min_ask);
            let rails = Rails { min_ask, allow_out_of_band: false };
            let qty = match asked {
                Some(n) => N::whole(n as u64),
                None => program.amount_at("minContracts"@),
            };
            let bids = exists|i: int|
                0 <= i < mine.len() && (#[trigger] mine[i]).text_at("direction"@) == Some("buy"@);
            let asks = exists|i: int|
                0 <= i < mine.len() && (#[trigger] mine[i]).text_at("direction"@) == Some("sell"@);
            let paid = Cover { need: bid.product(qty), have: usdc };
            let kept = Cover { need: qty, have: held };
            let first = broken_rail(m, Side::Buy, bid, qty, paid, rails);
            let second = broken_rail(m, Side::Sell, ask, qty, kept, rails);
            let moved =
                " on this property — use `quote recenter` to move it, or `quote pull` to stand down first"@;
            &&& bids && asks ==> plan == refused::<N>(
                "already quoting "@ + ("buy"@ + " and "@ + "sell"@) + moved,
            )
            &&& bids && !asks ==> plan == refused::<N>(
                "already quoting "@ + "buy"@ + moved,
            )
            &&& !bids && asks ==> plan == refused::<N>(
                "already quoting "@ + "sell"@ + moved,
            )
            &&& !bids && !asks && first is Some ==> plan == refused::<N>(
                refusal_text(first->0, m, Side::Buy, bid, qty, paid, rails),
            )
            &&& !bids && !asks && first is None && second is Some ==> plan == refused::<N>(
                refusal_text(second->0, m, Side::Sell, ask, qty, kept, rails),
            )
        }),
{
    let both = seq!["buy"@, "sell"@];
    assert(both.drop_last() =~= seq!["buy"@]);
    assert(joined_text(both, " and "@) == "buy"@ + " and "@ + "sell"@) by {
        reveal_with_fuel(joined_text, 2);
    }
    assert(seq!["buy"@] + seq!["sell"@] =~= both);
    assert(seq!["buy"@] + Seq::<Seq<char>>::empty() =~= seq!["buy"@]);
    assert(Seq::<Seq<char>>::empty() + seq!["sell"@] =~= seq!["sell"@]);
}

} // verus!
