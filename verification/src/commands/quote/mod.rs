pub mod apply;
pub mod laws;
pub mod market;
pub mod placing;
pub mod plan;
pub mod stand_down;

use vstd::prelude::*;

use crate::amount::Amount;
use crate::book::{best, best_level, level_prices, levels, levels_of};
use crate::failure::{Failure, FailureView};
use crate::json::Json;
use crate::text::owned_chars;

verus! {

#[derive(Clone, Copy, Debug, PartialEq, Eq, Structural)]
pub enum Side {
    Buy,
    Sell,
}

impl Side {
    /// The word the API uses for this side.
    pub open spec fn word(self) -> Seq<char> {
        match self {
            Side::Buy => "buy"@,
            Side::Sell => "sell"@,
        }
    }

    pub fn as_str(self) -> (r: &'static str)
        ensures
            r@ == self.word(),
    {
        match self {
            Side::Buy => "buy",
            Side::Sell => "sell",
        }
    }
}

/// Live market facts every placement rail measures against. The best prices leave
/// our own resting size out, so re-pricing past our own order is never mistaken
/// for crossing the market; a side with no other size has no best price.
#[derive(Debug)]
pub struct Market<N> {
    pub mid: N,
    pub spread: N,
    pub min_contracts: N,
    pub mkt_best_bid: Option<N>,
    pub mkt_best_ask: Option<N>,
}

/// What an order must be backed by: bids by wallet USDC, asks by held tokens.
#[derive(Debug)]
pub struct Cover<N> {
    pub need: N,
    pub have: N,
}

/// Caller-supplied guards.
#[derive(Debug)]
pub struct Rails<N> {
    pub min_ask: Option<N>,
    pub allow_out_of_band: bool,
}

/// The rails in the order they are checked, which is the order of what a
/// violation costs.
#[derive(Clone, Copy, Debug, PartialEq, Eq, Structural)]
pub enum Rail {
    /// A bid at or above the best ask fills at once, as a taker.
    CrossesAsk,
    /// An ask at or below the best bid fills at once, as a taker.
    CrossesBid,
    /// The balance does not back the order, so it would be cancelled.
    Uncovered,
    /// The order rests below the program's size and earns nothing.
    TooSmall,
    /// An ask under the caller's own floor.
    UnderFloor,
    /// The order rests outside the reward band and earns nothing.
    OutOfBand,
}

/// Half a cent: prices closer than this are the same level.
pub open spec fn half_cent<N: Amount>() -> N {
    N::whole(5).quotient(N::whole(1000))
}

pub fn half_cent_amount<N: Amount>() -> (r: N)
    ensures
        r == half_cent::<N>(),
{
    N::of(5).over(N::of(1000))
}

/// Whether two prices are the same level.
pub open spec fn close<N: Amount>(a: N, b: N) -> bool {
    a.difference(b).magnitude().less(half_cent())
}

/// The first level at a price.
pub open spec fn first_at<N: Amount>(levels: Seq<(N, N)>, price: N) -> Option<int>
    decreases levels.len(),
{
    if levels.len() == 0 {
        None
    } else if close(levels[0].0, price) {
        Some(0)
    } else {
        match first_at(levels.skip(1), price) {
            Some(i) => Some(i + 1),
            None => None,
        }
    }
}

/// The levels with `quantity` taken off the first one at `price`.
pub open spec fn taken_out<N: Amount>(levels: Seq<(N, N)>, price: N, quantity: N) -> Seq<(N, N)> {
    match first_at(levels, price) {
        Some(i) => levels.update(i, (levels[i].0, levels[i].1.difference(quantity))),
        None => levels,
    }
}

/// The levels with the size of our own orders in one direction taken off.
pub open spec fn without_own<N: Amount>(
    levels: Seq<(N, N)>,
    mine: Seq<Json<N>>,
    direction: Seq<char>,
) -> Seq<(N, N)>
    decreases mine.len(),
{
    if mine.len() == 0 {
        levels
    } else {
        let rest = without_own(levels, mine.drop_last(), direction);
        let o = mine.last();
        if o.text_at("direction"@) == Some(direction) {
            taken_out(rest, o.amount_at("price"@), o.amount_at("quantity"@))
        } else {
            rest
        }
    }
}

/// The levels that still hold size.
pub open spec fn resting<N: Amount>(levels: Seq<(N, N)>) -> Seq<(N, N)> {
    levels.filter(|l: (N, N)| N::whole(0).less(l.1))
}

/// The best price on one side of the market once our own orders are set aside.
pub open spec fn others_best<N: Amount>(
    levels: Seq<(N, N)>,
    mine: Seq<Json<N>>,
    side: Side,
) -> Option<N> {
    best(level_prices(resting(without_own(levels, mine, side.word()))), side is Buy)
}

/// The market a plan measures against: the mid of the whole book, which is what
/// the reward band is measured from, and the best prices of the others. There is
/// none when a side of the book is empty.
pub open spec fn market_of<N: Amount>(
    program: Json<N>,
    mine: Seq<Json<N>>,
    book: Json<N>,
) -> Option<Market<N>> {
    let bids = levels_of(book, "bids"@, "buyOrders"@);
    let asks = levels_of(book, "asks"@, "sellOrders"@);
    match (best(level_prices(bids), true), best(level_prices(asks), false)) {
        (Some(bid), Some(ask)) => Some(
            Market {
                mid: bid.sum(ask).quotient(N::whole(2)),
                spread: program.amount_at("allowedSpread"@),
                min_contracts: program.amount_at("minContracts"@),
                mkt_best_bid: others_best(bids, mine, Side::Buy),
                mkt_best_ask: others_best(asks, mine, Side::Sell),
            },
        ),
        _ => None,
    }
}

pub open spec fn no_mid_text() -> Seq<char> {
    "order book is one-sided or empty — no mid to measure the band against"@
}

fn find_level<N: Amount>(levels: &Vec<(N, N)>, price: N) -> (r: Option<usize>)
    ensures
        match r {
            Some(i) => i < levels.len() && first_at(levels@, price) == Some(i as int),
            None => first_at(levels@, price) is None,
        },
{
    let mut i: usize = 0;
    assert(levels@.skip(0) =~= levels@);
    while i < levels.len()
        invariant
            i <= levels.len(),
            first_at(levels@, price) == match first_at(levels@.skip(i as int), price) {
                Some(k) => Some(k + i),
                None => None,
            },
        decreases levels.len() - i,
    {
        if levels[i].0.minus(price).absolute().is_below(half_cent_amount()) {
            return Some(i);
        }
        assert(levels@.skip(i as int).skip(1) =~= levels@.skip(i as int + 1));
        i = i + 1;
    }
    None
}

/// The best price on one side of the market once our own orders are set aside.
fn others_best_price<N: Amount>(levels: Vec<(N, N)>, mine: &Vec<&Json<N>>, side: Side) -> (r: Option<N>)
    ensures
        r == others_best(levels@, mine@.unref(), side),
{
    let ghost start = levels@;
    let ghost orders = mine@.unref();
    let mut levels = levels;
    let mut i: usize = 0;
    while i < mine.len()
        invariant
            i <= mine.len(),
            orders == mine@.unref(),
            levels@ == without_own(start, orders.take(i as int), side.word()),
        decreases mine.len() - i,
    {
        let o = mine[i];
        assert(orders.take(i as int + 1).drop_last() =~= orders.take(i as int));
        assert(orders.take(i as int + 1).last() == *o);
        if o.text_is("direction", side.as_str()) {
            let price = o.amount_in("price");
            let quantity = o.amount_in("quantity");
            match find_level(&levels, price) {
                Some(k) => {
                    let l = levels[k];
                    levels.set(k, (l.0, l.1.minus(quantity)));
                },
                None => {},
            }
        }
        i = i + 1;
    }
    assert(orders.take(mine.len() as int) =~= orders);
    let ghost keep = |l: (N, N)| N::whole(0).less(l.1);
    let mut kept: Vec<(N, N)> = Vec::new();
    let mut j: usize = 0;
    while j < levels.len()
        invariant
            j <= levels.len(),
            keep == (|l: (N, N)| N::whole(0).less(l.1)),
            kept@ == levels@.take(j as int).filter(keep),
        decreases levels.len() - j,
    {
        proof {
            crate::json::lemma_filter_step(levels@, j as int, keep);
        }
        if N::of(0).is_below(levels[j].1) {
            kept.push(levels[j]);
        }
        j = j + 1;
    }
    assert(levels@.take(levels.len() as int) =~= levels@);
    best_level(&kept, matches!(side, Side::Buy))
}

/// Shared derivation of the market: the mid from the whole book, and the best
/// prices with our own size removed.
pub fn market_from<N: Amount>(program: &Json<N>, mine: &Vec<&Json<N>>, book: &Json<N>) -> (r: Result<
    Market<N>,
    Failure,
>)
    ensures
        match market_of(*program, mine@.unref(), *book) {
            Some(m) => r == Ok::<Market<N>, Failure>(m),
            None => r matches Err(e) && e@ == FailureView::Other(no_mid_text()),
        },
{
    let bids = levels(book, "bids", "buyOrders");
    let asks = levels(book, "asks", "sellOrders");
    match (best_level(&bids, true), best_level(&asks, false)) {
        (Some(bid), Some(ask)) => Ok(
            Market {
                mid: bid.plus(ask).over(N::of(2)),
                spread: program.amount_in("allowedSpread"),
                min_contracts: program.amount_in("minContracts"),
                mkt_best_bid: others_best_price(bids, mine, Side::Buy),
                mkt_best_ask: others_best_price(asks, mine, Side::Sell),
            },
        ),
        _ => Err(
            Failure::Other(
                "order book is one-sided or empty — no mid to measure the band against".to_owned(),
            ),
        ),
    }
}

/// Whether a price lies outside the reward band.
pub open spec fn out_of_band<N: Amount>(m: Market<N>, price: N) -> bool {
    m.spread.less(price.difference(m.mid).magnitude())
}

/// The first rail an order breaks, if it breaks one.
pub open spec fn broken_rail<N: Amount>(
    m: Market<N>,
    side: Side,
    price: N,
    qty: N,
    cover: Cover<N>,
    r: Rails<N>,
) -> Option<Rail> {
    if side is Buy && m.mkt_best_ask is Some && m.mkt_best_ask->0.at_most(price) {
        Some(Rail::CrossesAsk)
    } else if side is Sell && m.mkt_best_bid is Some && price.at_most(m.mkt_best_bid->0) {
        Some(Rail::CrossesBid)
    } else if cover.have.less(cover.need) {
        Some(Rail::Uncovered)
    } else if qty.less(m.min_contracts) {
        Some(Rail::TooSmall)
    } else if side is Sell && r.min_ask is Some && price.less(r.min_ask->0) {
        Some(Rail::UnderFloor)
    } else if out_of_band(m, price) && !r.allow_out_of_band {
        Some(Rail::OutOfBand)
    } else {
        None
    }
}

/// What the caller is told about orders that no balance backs.
pub open spec fn uncovered_text<N: Amount>(side: Side, cover: Cover<N>) -> Seq<char> {
    match side {
        Side::Buy => "bid needs $"@ + cover.need.fixed_text(2)
            + " of cover but the wallet holds $"@ + cover.have.fixed_text(2)
            + " — Lofty auto-cancels uncovered orders"@,
        Side::Sell => "ask needs "@ + cover.need.plain_text() + " token(s) but only "@
            + cover.have.plain_text() + " are held — Lofty auto-cancels uncovered orders"@,
    }
}

pub fn describe_uncovered<N: Amount>(side: Side, cover: &Cover<N>) -> (r: String)
    ensures
        r@ == uncovered_text(side, *cover),
{
    match side {
        Side::Buy => "bid needs $".to_owned().concat(&cover.need.fixed(2)).concat(
            " of cover but the wallet holds $",
        ).concat(&cover.have.fixed(2)).concat(" — Lofty auto-cancels uncovered orders"),
        Side::Sell => "ask needs ".to_owned().concat(&cover.need.plain()).concat(
            " token(s) but only ",
        ).concat(&cover.have.plain()).concat(" are held — Lofty auto-cancels uncovered orders"),
    }
}

/// What the caller is told about a broken rail.
pub open spec fn refusal_text<N: Amount>(
    rail: Rail,
    m: Market<N>,
    side: Side,
    price: N,
    qty: N,
    cover: Cover<N>,
    r: Rails<N>,
) -> Seq<char> {
    match rail {
        Rail::CrossesAsk => "bid $"@ + price.fixed_text(2) + " would cross the best ask $"@
            + m.mkt_best_ask->0.fixed_text(2)
            + " and fill immediately as a taker; this command only rests liquidity"@,
        Rail::CrossesBid => "ask $"@ + price.fixed_text(2) + " would cross the best bid $"@
            + m.mkt_best_bid->0.fixed_text(2)
            + " and fill immediately as a taker; this command only rests liquidity"@,
        Rail::Uncovered => uncovered_text(side, cover),
        Rail::TooSmall => side.word() + " size "@ + qty.plain_text() + " is below minContracts "@
            + m.min_contracts.plain_text() + " — it would rest but earn nothing"@,
        Rail::UnderFloor => "ask $"@ + price.fixed_text(2) + " is below --min-ask $"@
            + r.min_ask->0.fixed_text(2),
        Rail::OutOfBand => side.word() + " $"@ + price.fixed_text(2)
            + " is outside the reward band [$"@ + m.mid.difference(m.spread).fixed_text(2) + ", $"@
            + m.mid.sum(m.spread).fixed_text(2) + "] (mid $"@ + m.mid.fixed_text(2)
            + ") and would earn nothing — pass --allow-out-of-band to place it anyway"@,
    }
}

/// What the caller is told about an order that is allowed but will not earn.
pub open spec fn advisory<N: Amount>(m: Market<N>, side: Side, price: N) -> Option<Seq<char>> {
    if out_of_band(m, price) {
        Some(
            side.word() + " $"@ + price.fixed_text(2) + " is outside the band [$"@
                + m.mid.difference(m.spread).fixed_text(2) + ", $"@ + m.mid.sum(
                m.spread,
            ).fixed_text(2) + "] — it will rest but earn nothing"@,
        )
    } else {
        None
    }
}

/// The shared safety rails for any order a `quote` primitive is about to place,
/// and the single place every primitive enforces them.
///
/// Returns an advisory note when an order is allowed but won't earn, and an error
/// when placing it would be a mistake.
pub fn check_placement<N: Amount>(
    m: &Market<N>,
    side: Side,
    price: N,
    qty: N,
    cover: Cover<N>,
    r: &Rails<N>,
) -> (res: Result<Option<String>, Failure>)
    ensures
        match broken_rail(*m, side, price, qty, cover, *r) {
            Some(rail) => res matches Err(e) && e@ == FailureView::Usage(
                refusal_text(rail, *m, side, price, qty, cover, *r),
            ),
            None => res matches Ok(note) && owned_chars(note) == advisory(*m, side, price),
        },
{
    let buying: bool = matches!(side, Side::Buy);
    if buying {
        if let Some(ask) = m.mkt_best_ask {
            if ask.is_at_most(price) {
                return Err(
                    Failure::Usage(
                        "bid $".to_owned().concat(&price.fixed(2)).concat(
                            " would cross the best ask $",
                        ).concat(&ask.fixed(2)).concat(
                            " and fill immediately as a taker; this command only rests liquidity",
                        ),
                    ),
                );
            }
        }
    } else {
        if let Some(bid) = m.mkt_best_bid {
            if price.is_at_most(bid) {
                return Err(
                    Failure::Usage(
                        "ask $".to_owned().concat(&price.fixed(2)).concat(
                            " would cross the best bid $",
                        ).concat(&bid.fixed(2)).concat(
                            " and fill immediately as a taker; this command only rests liquidity",
                        ),
                    ),
                );
            }
        }
    }
    if cover.have.is_below(cover.need) {
        return Err(Failure::Usage(describe_uncovered(side, &cover)));
    }
    if qty.is_below(m.min_contracts) {
        return Err(
            Failure::Usage(
                side.as_str().to_owned().concat(" size ").concat(&qty.plain()).concat(
                    " is below minContracts ",
                ).concat(&m.min_contracts.plain()).concat(" — it would rest but earn nothing"),
            ),
        );
    }
    if !buying {
        if let Some(floor) = r.min_ask {
            if price.is_below(floor) {
                return Err(
                    Failure::Usage(
                        "ask $".to_owned().concat(&price.fixed(2)).concat(
                            " is below --min-ask $",
                        ).concat(&floor.fixed(2)),
                    ),
                );
            }
        }
    }
    if m.spread.is_below(price.minus(m.mid).absolute()) {
        let lo = m.mid.minus(m.spread).fixed(2);
        let hi = m.mid.plus(m.spread).fixed(2);
        if !r.allow_out_of_band {
            return Err(
                Failure::Usage(
                    side.as_str().to_owned().concat(" $").concat(&price.fixed(2)).concat(
                        " is outside the reward band [$",
                    ).concat(&lo).concat(", $").concat(&hi).concat("] (mid $").concat(
                        &m.mid.fixed(2),
                    ).concat(
                        ") and would earn nothing — pass --allow-out-of-band to place it anyway",
                    ),
                ),
            );
        }
        return Ok(
            Some(
                side.as_str().to_owned().concat(" $").concat(&price.fixed(2)).concat(
                    " is outside the band [$",
                ).concat(&lo).concat(", $").concat(&hi).concat(
                    "] — it will rest but earn nothing",
                ),
            ),
        );
    }
    Ok(None)
}

} // verus!
