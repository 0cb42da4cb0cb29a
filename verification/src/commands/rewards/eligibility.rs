use vstd::prelude::*;

use crate::amount::Amount;
use crate::book::{best, best_of, levels, levels_of, prices_of};
use crate::commands::quote::plan::{
    cost_total, orders_on, quantity_total, total_cost, total_quantity, Band,
};
use crate::commands::quote::Side;
use crate::failure::{outcome, Failure, FailureView};
use crate::json::{lemma_filter_step, select_text, with_text, Json};
use crate::report::{line_views, say, say_all, Line, LineView};
use crate::text::{chars_of, decimal, decimal_text, joined_strs, joined_text, same, str_texts};

verus! {

/// The published score of an order: it rises quadratically the closer the order
/// rests to the mid, and is nothing one past the allowed spread.
pub open spec fn score<N: Amount>(dist: N, spread: N, quantity: N) -> N {
    let reach = spread.sum(N::whole(1));
    let ratio = reach.difference(dist.magnitude()).quotient(reach).greater(N::whole(0));
    ratio.product(ratio).product(quantity)
}

pub fn score_order<N: Amount>(dist_from_mid: N, allowed_spread: N, quantity: N) -> (r: N)
    ensures
        r == score(dist_from_mid, allowed_spread, quantity),
{
    let reach = allowed_spread.plus(N::of(1));
    let ratio = reach.minus(dist_from_mid.absolute()).over(reach).larger_of(N::of(0));
    ratio.times(ratio).times(quantity)
}

/// What our orders on a property are measured against.
pub struct Terms<N> {
    pub mid: N,
    pub spread: N,
    pub min_contracts: N,
    pub bids_covered: bool,
    pub asks_covered: bool,
}

/// One of our orders against the rules.
#[derive(Debug)]
pub struct OrderCheck<N> {
    pub direction: &'static str,
    pub price: N,
    pub quantity: N,
    pub dist_from_mid: N,
    pub in_band: bool,
    pub meets_min_contracts: bool,
    pub covered: bool,
    pub scoring: bool,
    pub issues: Vec<&'static str>,
}

pub struct OrderCheckView<N> {
    pub direction: Seq<char>,
    pub price: N,
    pub quantity: N,
    pub dist_from_mid: N,
    pub in_band: bool,
    pub meets_min_contracts: bool,
    pub covered: bool,
    pub scoring: bool,
    pub issues: Seq<Seq<char>>,
}

impl<N> View for OrderCheck<N> {
    type V = OrderCheckView<N>;

    open spec fn view(&self) -> OrderCheckView<N> {
        OrderCheckView {
            direction: self.direction@,
            price: self.price,
            quantity: self.quantity,
            dist_from_mid: self.dist_from_mid,
            in_band: self.in_band,
            meets_min_contracts: self.meets_min_contracts,
            covered: self.covered,
            scoring: self.scoring,
            issues: str_texts(self.issues@),
        }
    }
}

pub open spec fn check_views<N>(checks: Seq<OrderCheck<N>>) -> Seq<OrderCheckView<N>> {
    checks.map_values(|c: OrderCheck<N>| c@)
}

/// What a property with a two-sided book is worth to us.
#[derive(Debug)]
pub struct Standing<'a, N> {
    pub name: &'a str,
    pub band: Band<N>,
    pub two_sided: bool,
    pub our_score: N,
    pub competing_score: N,
    pub expected_share: N,
}

pub struct StandingView<N> {
    pub name: Seq<char>,
    pub band: Band<N>,
    pub two_sided: bool,
    pub our_score: N,
    pub competing_score: N,
    pub expected_share: N,
}

impl<'a, N> View for Standing<'a, N> {
    type V = StandingView<N>;

    open spec fn view(&self) -> StandingView<N> {
        StandingView {
            name: self.name@,
            band: self.band,
            two_sided: self.two_sided,
            our_score: self.our_score,
            competing_score: self.competing_score,
            expected_share: self.expected_share,
        }
    }
}

/// Whether our orders on a property earn rewards, and why not. A property whose
/// book has no mid has no standing.
#[derive(Debug)]
pub struct Eligibility<'a, N> {
    pub property_id: &'a str,
    pub earning: bool,
    pub reason: Option<&'static str>,
    pub standing: Option<Standing<'a, N>>,
    pub expected_daily: N,
    pub orders: Vec<OrderCheck<N>>,
}

pub struct EligibilityView<N> {
    pub property_id: Seq<char>,
    pub earning: bool,
    pub reason: Option<Seq<char>>,
    pub standing: Option<StandingView<N>>,
    pub expected_daily: N,
    pub orders: Seq<OrderCheckView<N>>,
}

impl<'a, N> View for Eligibility<'a, N> {
    type V = EligibilityView<N>;

    open spec fn view(&self) -> EligibilityView<N> {
        EligibilityView {
            property_id: self.property_id@,
            earning: self.earning,
            reason: chars_of(self.reason),
            standing: match self.standing {
                Some(s) => Some(s@),
                None => None,
            },
            expected_daily: self.expected_daily,
            orders: check_views(self.orders@),
        }
    }
}

pub open spec fn eligibility_views<'a, N>(rows: Seq<Eligibility<'a, N>>) -> Seq<
    EligibilityView<N>,
> {
    rows.map_values(|r: Eligibility<'a, N>| r@)
}

pub open spec fn is_bid<N>(o: Json<N>) -> bool {
    o.text_at("direction"@) == Some(Side::Buy.word())
}

pub open spec fn dist<N: Amount>(o: Json<N>, t: Terms<N>) -> N {
    o.amount_at("price"@).difference(t.mid).magnitude()
}

pub open spec fn in_band<N: Amount>(o: Json<N>, t: Terms<N>) -> bool {
    dist(o, t).at_most(t.spread)
}

pub open spec fn big_enough<N: Amount>(o: Json<N>, t: Terms<N>) -> bool {
    t.min_contracts.at_most(o.amount_at("quantity"@))
}

pub open spec fn covered<N>(o: Json<N>, t: Terms<N>) -> bool {
    if is_bid(o) {
        t.bids_covered
    } else {
        t.asks_covered
    }
}

/// To score, an order rests in the band, is large enough and is covered.
pub open spec fn scores<N: Amount>(o: Json<N>, t: Terms<N>) -> bool {
    in_band(o, t) && big_enough(o, t) && covered(o, t)
}

pub open spec fn issues_of<N: Amount>(o: Json<N>, t: Terms<N>) -> Seq<Seq<char>> {
    (if in_band(o, t) {
        Seq::empty()
    } else {
        seq!["out of band"@]
    }) + (if big_enough(o, t) {
        Seq::empty()
    } else {
        seq!["below minContracts"@]
    }) + (if covered(o, t) {
        Seq::empty()
    } else {
        seq!["not covered"@]
    })
}

pub open spec fn check_of<N: Amount>(o: Json<N>, t: Terms<N>) -> OrderCheckView<N> {
    OrderCheckView {
        direction: if is_bid(o) {
            Side::Buy.word()
        } else {
            Side::Sell.word()
        },
        price: o.amount_at("price"@),
        quantity: o.amount_at("quantity"@),
        dist_from_mid: dist(o, t),
        in_band: in_band(o, t),
        meets_min_contracts: big_enough(o, t),
        covered: covered(o, t),
        scoring: scores(o, t),
        issues: issues_of(o, t),
    }
}

/// The covered tokens on one side: these establish that the side exists, whatever
/// their size and wherever they rest.
pub open spec fn qualifying<N: Amount>(mine: Seq<Json<N>>, t: Terms<N>, bids: bool) -> N
    decreases mine.len(),
{
    if mine.len() == 0 {
        N::whole(0)
    } else {
        let rest = qualifying(mine.drop_last(), t, bids);
        let o = mine.last();
        if covered(o, t) && is_bid(o) == bids {
            rest.sum(o.amount_at("quantity"@))
        } else {
            rest
        }
    }
}

/// The score of the orders that score.
pub open spec fn own_score<N: Amount>(mine: Seq<Json<N>>, t: Terms<N>) -> N
    decreases mine.len(),
{
    if mine.len() == 0 {
        N::whole(0)
    } else {
        let rest = own_score(mine.drop_last(), t);
        let o = mine.last();
        if scores(o, t) {
            rest.sum(score(dist(o, t), t.spread, o.amount_at("quantity"@)))
        } else {
            rest
        }
    }
}

/// The score of the levels of a book that rest in the band and are large enough.
pub open spec fn levels_score<N: Amount>(levels: Seq<(N, N)>, t: Terms<N>) -> N
    decreases levels.len(),
{
    if levels.len() == 0 {
        N::whole(0)
    } else {
        let rest = levels_score(levels.drop_last(), t);
        let (price, quantity) = levels.last();
        let away = price.difference(t.mid);
        if t.min_contracts.at_most(quantity) && away.magnitude().at_most(t.spread) {
            rest.sum(score(away, t.spread, quantity))
        } else {
            rest
        }
    }
}

/// The mid of a book.
pub open spec fn mid_of<N: Amount>(book: Json<N>) -> Option<N> {
    match (
        best(prices_of(book, "bids"@, "buyOrders"@), true),
        best(prices_of(book, "asks"@, "sellOrders"@), false),
    ) {
        (Some(bid), Some(ask)) => Some(bid.sum(ask).quotient(N::whole(2))),
        _ => None,
    }
}

pub open spec fn terms_of<N: Amount>(
    program: Json<N>,
    mine: Seq<Json<N>>,
    mid: N,
    usdc: N,
    held: N,
) -> Terms<N> {
    Terms {
        mid,
        spread: program.amount_at("allowedSpread"@),
        min_contracts: program.amount_at("minContracts"@),
        bids_covered: total_cost(orders_on(mine, Side::Buy)).at_most(usdc),
        asks_covered: total_quantity(orders_on(mine, Side::Sell)).at_most(held),
    }
}

/// The tokens a side needs to count as quoted.
pub open spec fn side_minimum<N: Amount>(program: Json<N>) -> N {
    program.amount_at("minTwoSidedLiquidity"@).greater(N::whole(1))
}

pub open spec fn no_mid_reason() -> Seq<char> {
    "order book is one-sided or empty — no mid to measure against"@
}

pub open spec fn no_bid_reason() -> Seq<char> {
    "not two-sided: no qualifying BID (one-sided liquidity earns nothing)"@
}

pub open spec fn no_ask_reason() -> Seq<char> {
    "not two-sided: no qualifying ASK (one-sided liquidity earns nothing)"@
}

pub open spec fn no_score_reason() -> Seq<char> {
    "two-sided, but no order is in-band and sized, so nothing scores"@
}

/// The name a program is shown under: the second line of its address, else its id.
pub open spec fn display_name<N>(program: Json<N>) -> Seq<char> {
    match program.inner("address"@, "line2"@) {
        Some(v) => match v.as_text() {
            Some(s) => s,
            None => program.name_at("propertyId"@),
        },
        None => program.name_at("propertyId"@),
    }
}

/// One property's eligibility.
///
/// A position earns when it is two-sided and something scores. A side exists when
/// its covered orders reach the program's two-sided minimum; scoring has the
/// stricter bar.
pub open spec fn eligibility_of<N: Amount>(
    program: Json<N>,
    mine: Seq<Json<N>>,
    book: Json<N>,
    usdc: N,
    held: N,
) -> EligibilityView<N> {
    match mid_of(book) {
        None => EligibilityView {
            property_id: program.name_at("propertyId"@),
            earning: false,
            reason: Some(no_mid_reason()),
            standing: None,
            expected_daily: N::whole(0),
            orders: Seq::empty(),
        },
        Some(mid) => {
            let t = terms_of(program, mine, mid, usdc, held);
            let need = side_minimum(program);
            let bid_shares = qualifying(mine, t, true);
            let ask_shares = qualifying(mine, t, false);
            let ours = own_score(mine, t);
            let two_sided = need.at_most(bid_shares) && need.at_most(ask_shares);
            let earning = two_sided && N::whole(0).less(ours);
            let book_score = levels_score(levels_of(book, "bids"@, "buyOrders"@), t).sum(
                levels_score(levels_of(book, "asks"@, "sellOrders"@), t),
            );
            let competing = book_score.difference(ours).greater(N::whole(0));
            let total = ours.sum(competing);
            let share = if earning && N::whole(0).less(total) {
                ours.quotient(total)
            } else {
                N::whole(0)
            };
            EligibilityView {
                property_id: program.name_at("propertyId"@),
                earning,
                reason: if earning {
                    None
                } else if !two_sided {
                    if bid_shares.less(need) {
                        Some(no_bid_reason())
                    } else {
                        Some(no_ask_reason())
                    }
                } else {
                    Some(no_score_reason())
                },
                standing: Some(
                    StandingView {
                        name: display_name(program),
                        band: Band {
                            mid,
                            low: mid.difference(t.spread),
                            high: mid.sum(t.spread),
                        },
                        two_sided,
                        our_score: ours,
                        competing_score: competing,
                        expected_share: share,
                    },
                ),
                expected_daily: share.product(program.amount_at("dailyRewards"@)),
                orders: mine.map_values(|o: Json<N>| check_of(o, t)),
            }
        },
    }
}

fn check_order<N: Amount>(o: &Json<N>, t: &Terms<N>) -> (r: OrderCheck<N>)
    ensures
        r@ == check_of(*o, *t),
{
    let is_buy: bool = o.text_is("direction", Side::Buy.as_str());
    let price = o.amount_in("price");
    let quantity = o.amount_in("quantity");
    let dist_from_mid = price.minus(t.mid).absolute();
    let in_band: bool = dist_from_mid.is_at_most(t.spread);
    let meets_min_contracts: bool = t.min_contracts.is_at_most(quantity);
    let covered: bool = if is_buy {
        t.bids_covered
    } else {
        t.asks_covered
    };
    let mut issues: Vec<&'static str> = Vec::new();
    if !in_band {
        issues.push("out of band");
    }
    if !meets_min_contracts {
        issues.push("below minContracts");
    }
    if !covered {
        issues.push("not covered");
    }
    assert(str_texts(issues@) =~= issues_of(*o, *t));
    OrderCheck {
        direction: if is_buy {
            Side::Buy.as_str()
        } else {
            Side::Sell.as_str()
        },
        price,
        quantity,
        dist_from_mid,
        in_band,
        meets_min_contracts,
        covered,
        scoring: in_band && meets_min_contracts && covered,
        issues,
    }
}

fn score_levels<N: Amount>(levels: &Vec<(N, N)>, t: &Terms<N>) -> (r: N)
    ensures
        r == levels_score(levels@, *t),
{
    let mut total = N::of(0);
    let mut i: usize = 0;
    while i < levels.len()
        invariant
            i <= levels.len(),
            total == levels_score(levels@.take(i as int), *t),
        decreases levels.len() - i,
    {
        assert(levels@.take(i as int + 1).drop_last() =~= levels@.take(i as int));
        let (price, quantity) = levels[i];
        let away = price.minus(t.mid);
        if t.min_contracts.is_at_most(quantity) && away.absolute().is_at_most(t.spread) {
            total = total.plus(score_order(away, t.spread, quantity));
        }
        i = i + 1;
    }
    assert(levels@.take(levels.len() as int) =~= levels@);
    total
}

pub fn name_of<'a, N>(program: &'a Json<N>) -> (r: &'a str)
    ensures
        r@ == display_name(*program),
{
    let line = match program.get_inner("address", "line2") {
        Some(v) => v.text(),
        None => None,
    };
    match line {
        Some(s) => s,
        None => program.name_in("propertyId"),
    }
}

fn book_mid<N: Amount>(book: &Json<N>) -> (r: Option<N>)
    ensures
        r == mid_of(*book),
{
    let bid = best_of(book, "bids", "buyOrders", true);
    let ask = best_of(book, "asks", "sellOrders", false);
    match (bid, ask) {
        (Some(b), Some(a)) => Some(b.plus(a).over(N::of(2))),
        _ => None,
    }
}

struct Tally<N> {
    bid_shares: N,
    ask_shares: N,
    our_score: N,
    checks: Vec<OrderCheck<N>>,
}

fn tally<N: Amount>(mine: &Vec<&Json<N>>, t: &Terms<N>) -> (r: Tally<N>)
    ensures
        r.bid_shares == qualifying(mine@.unref(), *t, true),
        r.ask_shares == qualifying(mine@.unref(), *t, false),
        r.our_score == own_score(mine@.unref(), *t),
        check_views(r.checks@) == mine@.unref().map_values(|o: Json<N>| check_of(o, *t)),
{
    let ghost all = mine@.unref();
    let ghost f = |o: Json<N>| check_of(o, *t);
    let mut bid_shares = N::of(0);
    let mut ask_shares = N::of(0);
    let mut our_score = N::of(0);
    let mut checks: Vec<OrderCheck<N>> = Vec::new();
    let mut i: usize = 0;
    assert(check_views(checks@) =~= all.take(0).map_values(f));
    while i < mine.len()
        invariant
            i <= mine.len(),
            all == mine@.unref(),
            f == (|o: Json<N>| check_of(o, *t)),
            bid_shares == qualifying(all.take(i as int), *t, true),
            ask_shares == qualifying(all.take(i as int), *t, false),
            our_score == own_score(all.take(i as int), *t),
            check_views(checks@) == all.take(i as int).map_values(f),
        decreases mine.len() - i,
    {
        let o = mine[i];
        assert(all.take(i as int + 1).drop_last() =~= all.take(i as int));
        assert(all.take(i as int + 1).last() == *o);
        let is_buy: bool = o.text_is("direction", Side::Buy.as_str());
        let check = check_order(o, t);
        if check.covered {
            if is_buy {
                bid_shares = bid_shares.plus(check.quantity);
            } else {
                ask_shares = ask_shares.plus(check.quantity);
            }
        }
        if check.scoring {
            our_score = our_score.plus(
                score_order(check.dist_from_mid, t.spread, check.quantity),
            );
        }
        let ghost before = checks@;
        checks.push(check);
        assert(check_views(checks@) =~= check_views(before).push(f(*o)));
        i = i + 1;
        assert(check_views(checks@) =~= all.take(i as int).map_values(f));
    }
    assert(all.take(mine.len() as int) =~= all);
    Tally { bid_shares, ask_shares, our_score, checks }
}

/// Evaluate one property's eligibility for rewards.
pub fn eligibility<'a, N: Amount>(
    program: &'a Json<N>,
    mine: &Vec<&Json<N>>,
    book: &Json<N>,
    usdc: N,
    held: N,
) -> (r: Eligibility<'a, N>)
    ensures
        r@ == eligibility_of(*program, mine@.unref(), *book, usdc, held),
{
    let property_id = program.name_in("propertyId");
    let mid = match book_mid(book) {
        Some(m) => m,
        None => {
            let orders: Vec<OrderCheck<N>> = Vec::new();
            assert(check_views(orders@) =~= Seq::empty());
            return Eligibility {
                property_id,
                earning: false,
                reason: Some("order book is one-sided or empty — no mid to measure against"),
                standing: None,
                expected_daily: N::of(0),
                orders,
            };
        },
    };
    let t = Terms {
        mid,
        spread: program.amount_in("allowedSpread"),
        min_contracts: program.amount_in("minContracts"),
        bids_covered: cost_total(
            &select_text(mine, "direction", Side::Buy.as_str()),
        ).is_at_most(usdc),
        asks_covered: quantity_total(
            &select_text(mine, "direction", Side::Sell.as_str()),
        ).is_at_most(held),
    };
    let sums = tally(mine, &t);
    let ours = sums.our_score;
    let need = program.amount_in("minTwoSidedLiquidity").larger_of(N::of(1));
    let two_sided: bool = need.is_at_most(sums.bid_shares) && need.is_at_most(sums.ask_shares);
    let earning: bool = two_sided && N::of(0).is_below(ours);
    let reason = if earning {
        None
    } else if !two_sided {
        Some(
            if sums.bid_shares.is_below(need) {
                "not two-sided: no qualifying BID (one-sided liquidity earns nothing)"
            } else {
                "not two-sided: no qualifying ASK (one-sided liquidity earns nothing)"
            },
        )
    } else {
        Some("two-sided, but no order is in-band and sized, so nothing scores")
    };
    let book_score = score_levels(&levels(book, "bids", "buyOrders"), &t).plus(
        score_levels(&levels(book, "asks", "sellOrders"), &t),
    );
    let competing = book_score.minus(ours).larger_of(N::of(0));
    let total = ours.plus(competing);
    let share = if earning && N::of(0).is_below(total) {
        ours.over(total)
    } else {
        N::of(0)
    };
    Eligibility {
        property_id,
        earning,
        reason,
        standing: Some(
            Standing {
                name: name_of(program),
                band: Band { mid, low: mid.minus(t.spread), high: mid.plus(t.spread) },
                two_sided,
                our_score: ours,
                competing_score: competing,
                expected_share: share,
            },
        ),
        expected_daily: share.times(program.amount_in("dailyRewards")),
        orders: sums.checks,
    }
}

/// Our active orders on a program's property.
pub open spec fn engaged_orders<N>(active: Seq<Json<N>>, program: Json<N>) -> Seq<Json<N>> {
    with_text(active, "propertyId"@, program.name_at("propertyId"@))
}

/// Whether a program is looked at: it is not filtered out and we have orders there.
pub open spec fn engaged<N>(
    program: Json<N>,
    active: Seq<Json<N>>,
    filter: Option<Seq<char>>,
) -> bool {
    (filter is Some ==> filter->0 == program.name_at("propertyId"@)) && engaged_orders(
        active,
        program,
    ).len() > 0
}

/// Our active orders on a program's property.
pub fn orders_for<'a, N>(active: &Vec<&'a Json<N>>, program: &Json<N>) -> (r: Vec<&'a Json<N>>)
    ensures
        r@.unref() == engaged_orders(active@.unref(), *program),
{
    select_text(active, "propertyId", program.name_in("propertyId"))
}

/// The programs we have active orders on. Only their books are needed.
pub fn engaged_programs<'a, N>(
    programs: &Vec<&'a Json<N>>,
    active: &Vec<&Json<N>>,
    filter: Option<&str>,
) -> (r: Vec<&'a Json<N>>)
    ensures
        r@.unref() == programs@.unref().filter(
            |p: Json<N>| engaged(p, active@.unref(), chars_of(filter)),
        ),
{
    let ghost all = programs@.unref();
    let ghost keep = |p: Json<N>| engaged(p, active@.unref(), chars_of(filter));
    let mut out: Vec<&'a Json<N>> = Vec::new();
    let mut i: usize = 0;
    assert(out@.unref() =~= all.take(0).filter(keep)) by {
        reveal(Seq::filter);
    }
    while i < programs.len()
        invariant
            i <= programs.len(),
            all == programs@.unref(),
            keep == (|p: Json<N>| engaged(p, active@.unref(), chars_of(filter))),
            out@.unref() == all.take(i as int).filter(keep),
        decreases programs.len() - i,
    {
        let p = programs[i];
        assert(all[i as int] == *p);
        proof {
            lemma_filter_step(all, i as int, keep);
        }
        let wanted: bool = match filter {
            Some(f) => same(f, p.name_in("propertyId")),
            None => true,
        };
        let mine = orders_for(active, p);
        assert(mine@.unref().len() == mine@.len());
        if wanted && mine.len() > 0 {
            let ghost before = out@;
            out.push(p);
            assert(out@.unref() =~= before.unref().push(*p));
        }
        i = i + 1;
    }
    assert(all.take(programs.len() as int) =~= all);
    out
}

/// The eligibility of every property looked at.
#[derive(Debug)]
pub struct EligibilityReport<'a, N> {
    pub properties: Vec<Eligibility<'a, N>>,
    pub expected_daily_total: N,
}

pub struct EligibilityReportView<N> {
    pub properties: Seq<EligibilityView<N>>,
    pub expected_daily_total: N,
}

impl<'a, N> View for EligibilityReport<'a, N> {
    type V = EligibilityReportView<N>;

    open spec fn view(&self) -> EligibilityReportView<N> {
        EligibilityReportView {
            properties: eligibility_views(self.properties@),
            expected_daily_total: self.expected_daily_total,
        }
    }
}

pub open spec fn daily_total<N: Amount>(rows: Seq<EligibilityView<N>>) -> N
    decreases rows.len(),
{
    if rows.len() == 0 {
        N::whole(0)
    } else {
        daily_total(rows.drop_last()).sum(rows.last().expected_daily)
    }
}

pub open spec fn not_engaged_text(filter: Option<Seq<char>>) -> Seq<char> {
    match filter {
        Some(f) => "no open orders on an LP-reward property for "@ + f,
        None => "no open orders on any LP-reward property"@,
    }
}

/// Sum up the properties looked at; there must be one.
pub fn eligibility_report<'a, N: Amount>(rows: Vec<Eligibility<'a, N>>, filter: Option<&str>) -> (r:
    Result<EligibilityReport<'a, N>, Failure>)
    ensures
        outcome(r) == if rows@.len() == 0 {
            Err(FailureView::NotFound(not_engaged_text(chars_of(filter))))
        } else {
            Ok(
                EligibilityReportView {
                    properties: eligibility_views(rows@),
                    expected_daily_total: daily_total(eligibility_views(rows@)),
                },
            )
        },
{
    if rows.len() == 0 {
        return Err(
            Failure::NotFound(
                match filter {
                    Some(f) => "no open orders on an LP-reward property for ".to_owned().concat(f),
                    None => "no open orders on any LP-reward property".to_owned(),
                },
            ),
        );
    }
    let ghost all = eligibility_views(rows@);
    let mut total = N::of(0);
    let mut i: usize = 0;
    while i < rows.len()
        invariant
            i <= rows.len(),
            all == eligibility_views(rows@),
            total == daily_total(all.take(i as int)),
        decreases rows.len() - i,
    {
        assert(all.take(i as int + 1).drop_last() =~= all.take(i as int));
        total = total.plus(rows[i].expected_daily);
        i = i + 1;
    }
    assert(all.take(rows.len() as int) =~= all);
    Ok(EligibilityReport { properties: rows, expected_daily_total: total })
}

pub open spec fn verdict_line<N: Amount>(p: EligibilityView<N>) -> LineView<N> {
    match (p.earning, p.standing) {
        (true, Some(s)) => LineView::Out(
            s.name + ": EARNING — "@ + s.expected_share.product(N::whole(100)).fixed_text(1)
                + "% of pool ≈ $"@ + p.expected_daily.fixed_text(2) + "/day (mid $"@
                + s.band.mid.fixed_text(2) + ", competing score "@ + s.competing_score.fixed_text(
                1,
            ) + ")"@,
        ),
        _ => LineView::Out(
            (match p.standing {
                Some(s) => s.name,
                None => "?"@,
            }) + ": $0 — "@ + match p.reason {
                Some(why) => why,
                None => "not eligible"@,
            },
        ),
    }
}

pub open spec fn issue_line<N: Amount>(o: OrderCheckView<N>) -> LineView<N> {
    LineView::Out(
        "    "@ + o.direction + " $"@ + o.price.fixed_text(2) + " x"@ + o.quantity.plain_text()
            + " — "@ + joined_text(o.issues, ", "@),
    )
}

pub open spec fn property_lines<N: Amount>(p: EligibilityView<N>) -> Seq<LineView<N>> {
    seq![verdict_line(p)] + p.orders.filter(
        |o: OrderCheckView<N>| o.issues.len() > 0,
    ).map_values(|o: OrderCheckView<N>| issue_line(o))
}

pub open spec fn all_property_lines<N: Amount>(rows: Seq<EligibilityView<N>>) -> Seq<LineView<N>>
    decreases rows.len(),
{
    if rows.len() == 0 {
        Seq::empty()
    } else {
        all_property_lines(rows.drop_last()) + property_lines(rows.last())
    }
}

/// One line per property with the verdict, the orders that have an issue, and the
/// projected total.
pub open spec fn eligibility_lines<N: Amount>(r: EligibilityReportView<N>) -> Seq<LineView<N>> {
    all_property_lines(r.properties).push(
        LineView::Note(
            "projected total: $"@ + r.expected_daily_total.fixed_text(2) + "/day across "@
                + decimal_text(r.properties.len()) + " propert"@ + if r.properties.len() == 1 {
                "y"@
            } else {
                "ies"@
            },
        ),
    )
}

fn render_property<'a, N: Amount>(p: &Eligibility<'a, N>) -> (r: Vec<Line<N>>)
    ensures
        line_views(r@) == property_lines(p@),
{
    let mut out: Vec<Line<N>> = Vec::new();
    let verdict = match (p.earning, &p.standing) {
        (true, Some(s)) => s.name.to_owned().concat(": EARNING — ").concat(
            &s.expected_share.times(N::of(100)).fixed(1),
        ).concat("% of pool ≈ $").concat(&p.expected_daily.fixed(2)).concat("/day (mid $").concat(
            &s.band.mid.fixed(2),
        ).concat(", competing score ").concat(&s.competing_score.fixed(1)).concat(")"),
        _ => {
            let name = match &p.standing {
                Some(s) => s.name,
                None => "?",
            };
            let why = match p.reason {
                Some(why) => why,
                None => "not eligible",
            };
            name.to_owned().concat(": $0 — ").concat(why)
        },
    };
    say(&mut out, Line::Out(verdict));
    let ghost all = check_views(p.orders@);
    let ghost keep = |o: OrderCheckView<N>| o.issues.len() > 0;
    let ghost show = |o: OrderCheckView<N>| issue_line(o);
    let ghost head = line_views(out@);
    let mut i: usize = 0;
    assert(line_views(out@) =~= head + all.take(0).filter(keep).map_values(show)) by {
        reveal(Seq::filter);
    }
    while i < p.orders.len()
        invariant
            i <= p.orders.len(),
            all == check_views(p.orders@),
            keep == (|o: OrderCheckView<N>| o.issues.len() > 0),
            show == (|o: OrderCheckView<N>| issue_line(o)),
            line_views(out@) == head + all.take(i as int).filter(keep).map_values(show),
        decreases p.orders.len() - i,
    {
        let o = &p.orders[i];
        assert(all[i as int] == o@);
        assert(o@.issues.len() == o.issues@.len());
        proof {
            lemma_filter_step(all, i as int, keep);
        }
        if o.issues.len() > 0 {
            let ghost before = line_views(out@);
            say(
                &mut out,
                Line::Out(
                    "    ".to_owned().concat(o.direction).concat(" $").concat(
                        &o.price.fixed(2),
                    ).concat(" x").concat(&o.quantity.plain()).concat(" — ").concat(
                        &joined_strs(&o.issues, ", "),
                    ),
                ),
            );
            assert(all.take(i as int + 1).filter(keep).map_values(show) =~= all.take(
                i as int,
            ).filter(keep).map_values(show).push(show(o@)));
            assert(line_views(out@) =~= head + all.take(i as int + 1).filter(keep).map_values(
                show,
            ));
        }
        i = i + 1;
    }
    assert(all.take(p.orders.len() as int) =~= all);
    assert(head =~= seq![verdict_line(p@)]);
    out
}

pub fn render_eligibility<'a, N: Amount>(report: &EligibilityReport<'a, N>) -> (r: Vec<Line<N>>)
    ensures
        line_views(r@) == eligibility_lines(report@),
{
    let ghost all = eligibility_views(report.properties@);
    let mut out: Vec<Line<N>> = Vec::new();
    let mut i: usize = 0;
    assert(line_views(out@) =~= all_property_lines(all.take(0)));
    while i < report.properties.len()
        invariant
            i <= report.properties.len(),
            all == eligibility_views(report.properties@),
            line_views(out@) == all_property_lines(all.take(i as int)),
        decreases report.properties.len() - i,
    {
        assert(all.take(i as int + 1).drop_last() =~= all.take(i as int));
        assert(all.take(i as int + 1).last() == report.properties@[i as int]@);
        say_all(&mut out, render_property(&report.properties[i]));
        i = i + 1;
    }
    assert(all.take(report.properties.len() as int) =~= all);
    let n: usize = report.properties.len();
    say(
        &mut out,
        Line::Note(
            "projected total: $".to_owned().concat(&report.expected_daily_total.fixed(2)).concat(
                "/day across ",
            ).concat(&decimal(n as u128)).concat(" propert").concat(
                if n == 1 {
                    "y"
                } else {
                    "ies"
                },
            ),
        ),
    );
    out
}

} // verus!
