use vstd::prelude::*;

use crate::amount::Amount;
use crate::book::{best_is_the_extreme, level_prices, levels_of};
use crate::commands::quote::{
    close, first_at, half_cent, market_of, others_best, resting, without_own, Side,
};
use crate::json::Json;
use crate::micros::{rounding_is_within_half, Micros};
use crate::tally::tally;

verus! {

/// Two prices are one level exactly when they lie less than half a cent apart.
pub proof fn levels_are_told_apart_by_half_a_cent(a: Micros, b: Micros)
    ensures
        close(a, b) <==> -5_000 < a.units - b.units < 5_000,
{
    assert(half_cent::<Micros>().units == 5_000) by {
        rounding_is_within_half(5_000_000int * 1_000_000, 1_000_000_000);
    }
}

/// A market is known exactly when both sides of the book hold a level. It carries the
/// program's spread and size, and the best prices of the others on each side.
pub proof fn a_market_needs_both_sides<N: Amount>(
    program: Json<N>,
    mine: Seq<Json<N>>,
    book: Json<N>,
)
    ensures
        ({
            let bids = levels_of(book, "bids"@, "buyOrders"@);
            let asks = levels_of(book, "asks"@, "sellOrders"@);
            &&& market_of(program, mine, book) is Some <==> bids.len() > 0 && asks.len() > 0
            &&& market_of(program, mine, book) matches Some(m) ==> {
                &&& m.spread == program.amount_at("allowedSpread"@)
                &&& m.min_contracts == program.amount_at("minContracts"@)
                &&& m.mkt_best_bid == others_best(bids, mine, Side::Buy)
                &&& m.mkt_best_ask == others_best(asks, mine, Side::Sell)
            }
        }),
{
    assert(level_prices(levels_of(book, "bids"@, "buyOrders"@)).len() == levels_of(
        book,
        "bids"@,
        "buyOrders"@,
    ).len());
    assert(level_prices(levels_of(book, "asks"@, "sellOrders"@)).len() == levels_of(
        book,
        "asks"@,
        "sellOrders"@,
    ).len());
    lemma_best_of_some(level_prices(levels_of(book, "bids"@, "buyOrders"@)), true);
    lemma_best_of_some(level_prices(levels_of(book, "asks"@, "sellOrders"@)), false);
}

proof fn lemma_best_of_some<N: Amount>(prices: Seq<N>, want_max: bool)
    ensures
        crate::book::best(prices, want_max) is Some <==> prices.len() > 0,
{
}

/// The mid lies half way between the highest bid and the lowest ask of the whole book,
/// our own orders among them.
pub proof fn the_mid_lies_half_way(
    program: Json<Micros>,
    mine: Seq<Json<Micros>>,
    book: Json<Micros>,
    i: int,
    j: int,
)
    requires
        ({
            let bids = levels_of(book, "bids"@, "buyOrders"@);
            let asks = levels_of(book, "asks"@, "sellOrders"@);
            &&& 0 <= i < bids.len()
            &&& 0 <= j < asks.len()
            &&& forall|k: int| 0 <= k < bids.len() ==> (#[trigger] bids[k]).0.units <= bids[i].0.units
            &&& forall|k: int| 0 <= k < asks.len() ==> asks[j].0.units <= (#[trigger] asks[k]).0.units
            &&& i64::MIN <= bids[i].0.units + asks[j].0.units <= i64::MAX
        }),
    ensures
        ({
            let high = levels_of(book, "bids"@, "buyOrders"@)[i].0.units;
            let low = levels_of(book, "asks"@, "sellOrders"@)[j].0.units;
            market_of(program, mine, book) matches Some(m) && -1 <= 2 * m.mid.units - (high + low)
                <= 1
        }),
{
    let bids = levels_of(book, "bids"@, "buyOrders"@);
    let asks = levels_of(book, "asks"@, "sellOrders"@);
    let (b, a) = (level_prices(bids), level_prices(asks));
    best_is_the_extreme(b, true);
    best_is_the_extreme(a, false);
    assert(b[i] == bids[i].0 && a[j] == asks[j].0);
    let x = crate::book::best(b, true)->0;
    let y = crate::book::best(a, false)->0;
    let k = choose|k: int| 0 <= k < b.len() && b[k] == x;
    let l = choose|l: int| 0 <= l < a.len() && a[l] == y;
    assert(bids[k].0 == x && asks[l].0 == y);
    assert(x == bids[i].0 && y == asks[j].0);
    let s = x.units + y.units;
    rounding_is_within_half(s * 1_000_000, 2_000_000);
}

/// Whether no two levels are so near that an order could rest at both.
pub open spec fn a_cent_apart(levels: Seq<(Micros, Micros)>) -> bool {
    forall|i: int, j: int|
        0 <= i < j < levels.len() ==> (#[trigger] levels[i]).0.units - (#[trigger] levels[j]).0.units
            >= 10_000 || levels[j].0.units - levels[i].0.units >= 10_000
}

/// The millionths of a token that we have resting in a direction at a price.
pub open spec fn own_at(mine: Seq<Json<Micros>>, direction: Seq<char>, price: Micros) -> int {
    tally(
        mine,
        |o: Json<Micros>|
            if o.text_at("direction"@) == Some(direction) && -5_000 < price.units - o.amount_at(
                "price"@,
            ).units < 5_000 {
                o.amount_at("quantity"@).units as int
            } else {
                0
            },
    )
}

/// The millionths of a token of all our orders.
pub open spec fn own_size(mine: Seq<Json<Micros>>) -> int {
    tally(mine, |o: Json<Micros>| o.amount_at("quantity"@).units as int)
}

pub open spec fn sized(mine: Seq<Json<Micros>>) -> bool {
    &&& forall|i: int| 0 <= i < mine.len() ==> (#[trigger] mine[i]).amount_at("quantity"@).units >= 0
    &&& own_size(mine) <= i64::MAX
}

proof fn lemma_sized_head(mine: Seq<Json<Micros>>)
    requires
        sized(mine),
        mine.len() > 0,
    ensures
        sized(mine.drop_last()),
        own_size(mine) == own_size(mine.drop_last()) + mine.last().amount_at("quantity"@).units,
        mine.last().amount_at("quantity"@).units >= 0,
{
    let head = mine.drop_last();
    assert forall|i: int| 0 <= i < head.len() implies (#[trigger] head[i]).amount_at(
        "quantity"@,
    ).units >= 0 by {
        assert(head[i] == mine[i]);
    }
    assert(mine[mine.len() - 1].amount_at("quantity"@).units >= 0);
}

proof fn lemma_own_at_is_part(mine: Seq<Json<Micros>>, direction: Seq<char>, price: Micros)
    requires
        sized(mine),
    ensures
        0 <= own_at(mine, direction, price) <= own_size(mine),
    decreases mine.len(),
{
    if mine.len() > 0 {
        lemma_sized_head(mine);
        lemma_own_at_is_part(mine.drop_last(), direction, price);
    }
}

proof fn lemma_first_at(levels: Seq<(Micros, Micros)>, price: Micros)
    ensures
        first_at(levels, price) matches Some(i) ==> 0 <= i < levels.len() && close(
            levels[i].0,
            price,
        ),
        first_at(levels, price) is None ==> forall|i: int|
            0 <= i < levels.len() ==> !close((#[trigger] levels[i]).0, price),
    decreases levels.len(),
{
    if levels.len() > 0 && !close(levels[0].0, price) {
        let tail = levels.skip(1);
        lemma_first_at(tail, price);
        if first_at(levels, price) is None {
            assert forall|i: int| 0 <= i < levels.len() implies !close(
                (#[trigger] levels[i]).0,
                price,
            ) by {
                if i > 0 {
                    assert(tail[i - 1] == levels[i]);
                }
            }
        }
    }
}

proof fn lemma_what_is_left(
    levels: Seq<(Micros, Micros)>,
    mine: Seq<Json<Micros>>,
    direction: Seq<char>,
)
    requires
        a_cent_apart(levels),
        forall|i: int| 0 <= i < levels.len() ==> (#[trigger] levels[i]).1.units >= 0,
        sized(mine),
    ensures
        ({
            let left = without_own(levels, mine, direction);
            &&& left.len() == levels.len()
            &&& forall|i: int|
                0 <= i < levels.len() ==> (#[trigger] left[i]).0 == levels[i].0 && left[i].1.units
                    == levels[i].1.units - own_at(mine, direction, levels[i].0)
        }),
    decreases mine.len(),
{
    if mine.len() > 0 {
        let head = mine.drop_last();
        let o = mine.last();
        lemma_sized_head(mine);
        lemma_what_is_left(levels, head, direction);
        let rest = without_own(levels, head, direction);
        let left = without_own(levels, mine, direction);
        let p = o.amount_at("price"@);
        lemma_first_at(rest, p);
        assert forall|i: int| 0 <= i < levels.len() implies (#[trigger] left[i]).0 == levels[i].0
            && left[i].1.units == levels[i].1.units - own_at(mine, direction, levels[i].0) by {
            assert(rest[i].0 == levels[i].0);
            lemma_own_at_is_part(head, direction, levels[i].0);
            lemma_own_at_is_part(mine, direction, levels[i].0);
            levels_are_told_apart_by_half_a_cent(levels[i].0, p);
            if o.text_at("direction"@) == Some(direction) {
                if let Some(k) = first_at(rest, p) {
                    assert(rest[k].0 == levels[k].0);
                    levels_are_told_apart_by_half_a_cent(levels[k].0, p);
                    if k < i {
                        assert(levels[k].0.units - levels[i].0.units >= 10_000
                            || levels[i].0.units - levels[k].0.units >= 10_000);
                    } else if i < k {
                        assert(levels[i].0.units - levels[k].0.units >= 10_000
                            || levels[k].0.units - levels[i].0.units >= 10_000);
                    }
                } else {
                    assert(!close(rest[i].0, p));
                }
            }
        }
    }
}

/// The market of the others is what is left of the book without us. A level counts
/// exactly when it holds more than our own orders there, and of the levels that count
/// the best one is the market: the highest bid, or the lowest ask.
pub proof fn the_market_is_what_the_others_hold(
    levels: Seq<(Micros, Micros)>,
    mine: Seq<Json<Micros>>,
    side: Side,
)
    requires
        a_cent_apart(levels),
        forall|i: int| 0 <= i < levels.len() ==> (#[trigger] levels[i]).1.units >= 0,
        sized(mine),
    ensures
        ({
            let direction = if side == Side::Buy {
                "buy"@
            } else {
                "sell"@
            };
            &&& others_best(levels, mine, side) matches Some(x) ==> exists|i: int|
                0 <= i < levels.len() && (#[trigger] levels[i]).0 == x && levels[i].1.units > own_at(
                    mine,
                    direction,
                    x,
                )
            &&& forall|i: int|
                0 <= i < levels.len() && (#[trigger] levels[i]).1.units > own_at(
                    mine,
                    direction,
                    levels[i].0,
                ) ==> (others_best(levels, mine, side) matches Some(x) && if side == Side::Buy {
                    levels[i].0.units <= x.units
                } else {
                    x.units <= levels[i].0.units
                })
        }),
{
    let direction = side.word();
    let left = without_own(levels, mine, direction);
    let keep = |l: (Micros, Micros)| Micros::whole(0).less(l.1);
    let kept = left.filter(keep);
    assert(kept == resting(left));
    let prices = level_prices(kept);
    lemma_what_is_left(levels, mine, direction);
    best_is_the_extreme(prices, side is Buy);
    if let Some(x) = others_best(levels, mine, side) {
        let k = choose|k: int| 0 <= k < prices.len() && prices[k] == x;
        assert(kept[k].0 == x);
        left.lemma_filter_pred(keep, k);
        assert(kept.contains(kept[k]));
        left.lemma_filter_contains_rev(keep, kept[k]);
        let i = choose|i: int| 0 <= i < left.len() && left[i] == kept[k];
        assert(levels[i].0 == x);
    }
    assert forall|i: int|
        0 <= i < levels.len() && (#[trigger] levels[i]).1.units > own_at(
            mine,
            direction,
            levels[i].0,
        ) implies (others_best(levels, mine, side) matches Some(x) && if side == Side::Buy {
        levels[i].0.units <= x.units
    } else {
        x.units <= levels[i].0.units
    }) by {
        assert(left[i].0 == levels[i].0);
        left.lemma_filter_contains(keep, i);
        let k = choose|k: int| 0 <= k < kept.len() && kept[k] == left[i];
        assert(prices[k] == levels[i].0);
    }
}

} // verus!
