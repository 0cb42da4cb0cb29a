use vstd::prelude::*;

use crate::amount::{as_recorded, percent, percent_of, recorded, Amount};
use crate::failure::{verdict, Failure, FailureView};
use crate::json::{find_text, first_with_text, lemma_filter_step, owned, Json};
use crate::report::{cell_views, line_views, row_views, say, say_all, Cell, CellView, Line, LineView, Table, TableView};
use crate::text::{chars_of, same, texts};

verus! {

/// Where the tokens would be sold.
#[derive(Clone, Copy, Debug, PartialEq, Eq, Structural)]
pub enum SellVenue {
    /// Marketplace limit order (`mtSellFeePct`).
    Book,
    /// Swap into the AMM pool (`fees.platformSell` plus the pool's `fees.lp`).
    Amm,
}

impl SellVenue {
    pub open spec fn word(self) -> Seq<char> {
        match self {
            SellVenue::Book => "book"@,
            SellVenue::Amm => "amm"@,
        }
    }

    pub fn as_str(self) -> (r: &'static str)
        ensures
            r@ == self.word(),
    {
        match self {
            SellVenue::Book => "book",
            SellVenue::Amm => "amm",
        }
    }
}

/// Published fee rates for a property, all in percent.
#[derive(Debug)]
pub struct VenueFees<N> {
    pub book_buy: Option<N>,
    pub book_sell: Option<N>,
    pub amm_buy: Option<N>,
    pub amm_sell: Option<N>,
}

/// A published fraction as a percentage, with the error of its representation
/// snapped off.
pub open spec fn as_percentage<N: Amount>(v: N) -> N {
    v.product(N::whole(100)).product(N::whole(1_000_000)).nearest_whole().quotient(
        N::whole(1_000_000),
    )
}

/// A marketplace rate of a listing, which may stand in a `property` envelope.
pub open spec fn listed_fraction<N>(listing: Json<N>, field: Seq<char>) -> Option<N> {
    let wrapped = match listing.inner("property"@, "liquidity"@) {
        Some(l) => l.number_at(field),
        None => None,
    };
    match (wrapped, listing.member("liquidity"@)) {
        (Some(v), _) => Some(v),
        (None, Some(l)) => l.number_at(field),
        (None, None) => None,
    }
}

pub open spec fn listed_rate<N: Amount>(listing: Json<N>, field: Seq<char>) -> Option<N> {
    match listed_fraction(listing, field) {
        Some(v) => Some(as_percentage(v)),
        None => None,
    }
}

/// A fee line of a pool, in percent as published.
pub open spec fn pool_rate<N>(pool: Option<Json<N>>, field: Seq<char>) -> Option<N> {
    match pool {
        Some(p) => match p.inner("fees"@, field) {
            Some(v) => v.as_number(),
            None => None,
        },
        None => None,
    }
}

/// What a swap pays in all: the platform fee and the pool's LP fee, if it has one.
pub open spec fn swap_rate<N: Amount>(pool: Option<Json<N>>, field: Seq<char>) -> Option<N> {
    match pool_rate(pool, field) {
        Some(platform) => Some(
            platform.sum(
                match pool_rate(pool, "lp"@) {
                    Some(lp) => lp,
                    None => N::whole(0),
                },
            ),
        ),
        None => None,
    }
}

pub open spec fn fees_of<N: Amount>(listing: Json<N>, pool: Option<Json<N>>) -> VenueFees<N> {
    VenueFees {
        book_buy: listed_rate(listing, "mtBuyFeePct"@),
        book_sell: listed_rate(listing, "mtSellFeePct"@),
        amm_buy: swap_rate(pool, "platformBuy"@),
        amm_sell: swap_rate(pool, "platformSell"@),
    }
}

fn listing_rate<N: Amount>(listing: &Json<N>, field: &str) -> (r: Option<N>)
    ensures
        r == listed_rate(*listing, field@),
{
    let wrapped = match listing.get_inner("property", "liquidity") {
        Some(l) => l.number_in(field),
        None => None,
    };
    let fraction = match wrapped {
        Some(v) => Some(v),
        None => match listing.get("liquidity") {
            Some(l) => l.number_in(field),
            None => None,
        },
    };
    match fraction {
        Some(v) => Some(
            v.times(N::of(100)).times(N::of(1_000_000)).rounded().over(N::of(1_000_000)),
        ),
        None => None,
    }
}

fn rate_of_pool<N: Amount>(pool: Option<&Json<N>>, field: &str) -> (r: Option<N>)
    ensures
        r == pool_rate(owned(pool), field@),
{
    match pool {
        Some(p) => match p.get_inner("fees", field) {
            Some(v) => v.number(),
            None => None,
        },
        None => None,
    }
}

fn rate_of_swap<N: Amount>(pool: Option<&Json<N>>, field: &str) -> (r: Option<N>)
    ensures
        r == swap_rate(owned(pool), field@),
{
    match rate_of_pool(pool, field) {
        Some(platform) => {
            let lp = match rate_of_pool(pool, "lp") {
                Some(lp) => lp,
                None => N::of(0),
            };
            Some(platform.plus(lp))
        },
        None => None,
    }
}

/// The fee rates a property and its pool publish, brought to percent: a listing
/// reports fractions, a pool percentages.
pub fn venue_fees<N: Amount>(listing: &Json<N>, pool: Option<&Json<N>>) -> (r: VenueFees<N>)
    ensures
        r == fees_of(*listing, owned(pool)),
{
    VenueFees {
        book_buy: listing_rate(listing, "mtBuyFeePct"),
        book_sell: listing_rate(listing, "mtSellFeePct"),
        amm_buy: rate_of_swap(pool, "platformBuy"),
        amm_sell: rate_of_swap(pool, "platformSell"),
    }
}

/// What a token cost once the buy fee, which the cost basis leaves out, is added.
pub open spec fn true_cost<N: Amount>(cost_basis: N, buy_fee_pct: N) -> N {
    cost_basis.product(N::whole(1).sum(percent(buy_fee_pct)))
}

/// What a sale keeps of its price after the sell fee.
pub open spec fn kept_share<N: Amount>(sell_fee_pct: N) -> N {
    N::whole(1).difference(percent(sell_fee_pct))
}

/// The price whose proceeds after the sell fee are the true cost and the margin.
/// A fee that leaves nothing has no such price.
pub open spec fn ask_price<N: Amount>(
    cost_basis: N,
    buy_fee_pct: N,
    sell_fee_pct: N,
    margin_pct: N,
) -> N {
    if N::whole(0).less(kept_share(sell_fee_pct)) {
        true_cost(cost_basis, buy_fee_pct).product(N::whole(1).sum(percent(margin_pct))).quotient(
            kept_share(sell_fee_pct),
        )
    } else {
        N::boundless()
    }
}

/// The true cost, and the ask that nets `margin_pct` above it after the sell fee.
pub fn ask_for<N: Amount>(cost_basis: N, buy_fee_pct: N, sell_fee_pct: N, margin_pct: N) -> (r: (
    N,
    N,
))
    ensures
        r == (
            true_cost(cost_basis, buy_fee_pct),
            ask_price(cost_basis, buy_fee_pct, sell_fee_pct, margin_pct),
        ),
{
    let cost = cost_basis.times(N::of(1).plus(percent_of(buy_fee_pct)));
    let net = N::of(1).minus(percent_of(sell_fee_pct));
    let ask = if N::of(0).is_below(net) {
        cost.times(N::of(1).plus(percent_of(margin_pct))).over(net)
    } else {
        N::beyond_all()
    };
    (cost, ask)
}

/// A position priced as if it had been acquired one way.
#[derive(Debug)]
pub struct Scenario<N> {
    pub acquired_via: &'static str,
    pub buy_fee_pct: N,
    pub true_cost: N,
    pub break_even_ask: N,
    pub target_ask: N,
}

pub struct ScenarioView<N> {
    pub acquired_via: Seq<char>,
    pub buy_fee_pct: N,
    pub true_cost: N,
    pub break_even_ask: N,
    pub target_ask: N,
}

impl<N> View for Scenario<N> {
    type V = ScenarioView<N>;

    open spec fn view(&self) -> ScenarioView<N> {
        ScenarioView {
            acquired_via: self.acquired_via@,
            buy_fee_pct: self.buy_fee_pct,
            true_cost: self.true_cost,
            break_even_ask: self.break_even_ask,
            target_ask: self.target_ask,
        }
    }
}

pub open spec fn scenario_views<N>(s: Seq<Scenario<N>>) -> Seq<ScenarioView<N>> {
    s.map_values(|x: Scenario<N>| x@)
}

/// The break-even prices of one position.
#[derive(Debug)]
pub struct Breakeven<N> {
    pub property_id: String,
    pub cost_basis: N,
    pub sell_venue: &'static str,
    pub sell_fee_pct: Option<N>,
    pub scenarios: Vec<Scenario<N>>,
}

pub struct BreakevenView<N> {
    pub property_id: Seq<char>,
    pub cost_basis: N,
    pub sell_venue: Seq<char>,
    pub sell_fee_pct: Option<N>,
    pub scenarios: Seq<ScenarioView<N>>,
}

impl<N> View for Breakeven<N> {
    type V = BreakevenView<N>;

    open spec fn view(&self) -> BreakevenView<N> {
        BreakevenView {
            property_id: self.property_id@,
            cost_basis: self.cost_basis,
            sell_venue: self.sell_venue@,
            sell_fee_pct: self.sell_fee_pct,
            scenarios: scenario_views(self.scenarios@),
        }
    }
}

pub open spec fn breakeven_views<N>(s: Seq<Breakeven<N>>) -> Seq<BreakevenView<N>> {
    s.map_values(|x: Breakeven<N>| x@)
}

/// The sell fee a position must clear: the one given, else the venue's own.
pub open spec fn sell_fee_in_force<N>(
    fees: VenueFees<N>,
    venue: SellVenue,
    given: Option<N>,
) -> Option<N> {
    match given {
        Some(f) => Some(f),
        None => match venue {
            SellVenue::Book => fees.book_sell,
            SellVenue::Amm => fees.amm_sell,
        },
    }
}

/// A scenario, when both of its fees are known.
pub open spec fn scenario_of<N: Amount>(
    via: Seq<char>,
    cost_basis: N,
    buy_fee: Option<N>,
    sell_fee: Option<N>,
    margin_pct: N,
) -> Seq<ScenarioView<N>> {
    match (buy_fee, sell_fee) {
        (Some(bf), Some(sf)) => seq![
            ScenarioView {
                acquired_via: via,
                buy_fee_pct: bf,
                true_cost: true_cost(cost_basis, bf),
                break_even_ask: ask_price(cost_basis, bf, sf, N::whole(0)),
                target_ask: ask_price(cost_basis, bf, sf, margin_pct),
            },
        ],
        _ => Seq::empty(),
    }
}

/// The buy fee paid depends on where the tokens were bought, which nothing
/// records: unless it is given, each venue with a known fee is priced.
pub open spec fn scenarios_of<N: Amount>(
    cost_basis: N,
    fees: VenueFees<N>,
    margin_pct: N,
    buy_fee: Option<N>,
    sell_fee: Option<N>,
) -> Seq<ScenarioView<N>> {
    match buy_fee {
        Some(f) => scenario_of("specified"@, cost_basis, Some(f), sell_fee, margin_pct),
        None => scenario_of("amm"@, cost_basis, fees.amm_buy, sell_fee, margin_pct) + scenario_of(
            "book"@,
            cost_basis,
            fees.book_buy,
            sell_fee,
            margin_pct,
        ),
    }
}

pub open spec fn breakeven_of<N: Amount>(
    property_id: Seq<char>,
    cost_basis: N,
    fees: VenueFees<N>,
    margin_pct: N,
    sell_venue: SellVenue,
    buy_fee: Option<N>,
    sell_fee: Option<N>,
) -> BreakevenView<N> {
    let fee = sell_fee_in_force(fees, sell_venue, sell_fee);
    BreakevenView {
        property_id,
        cost_basis,
        sell_venue: sell_venue.word(),
        sell_fee_pct: fee,
        scenarios: scenarios_of(cost_basis, fees, margin_pct, buy_fee, fee),
    }
}

fn add_scenario<N: Amount>(
    scenarios: &mut Vec<Scenario<N>>,
    via: &'static str,
    cost_basis: N,
    buy_fee: Option<N>,
    sell_fee: Option<N>,
    margin_pct: N,
)
    ensures
        scenario_views(final(scenarios)@) == scenario_views(old(scenarios)@) + scenario_of(
            via@,
            cost_basis,
            buy_fee,
            sell_fee,
            margin_pct,
        ),
{
    if let (Some(bf), Some(sf)) = (buy_fee, sell_fee) {
        let (cost, target_ask) = ask_for(cost_basis, bf, sf, margin_pct);
        let (_, break_even_ask) = ask_for(cost_basis, bf, sf, N::of(0));
        scenarios.push(
            Scenario {
                acquired_via: via,
                buy_fee_pct: bf,
                true_cost: cost,
                break_even_ask,
                target_ask,
            },
        );
    }
    assert(scenario_views(scenarios@) =~= scenario_views(old(scenarios)@) + scenario_of(
        via@,
        cost_basis,
        buy_fee,
        sell_fee,
        margin_pct,
    ));
}

/// Price one position.
pub fn breakeven<N: Amount>(
    property_id: &str,
    cost_basis: N,
    fees: &VenueFees<N>,
    margin_pct: N,
    sell_venue: SellVenue,
    buy_fee: Option<N>,
    sell_fee: Option<N>,
) -> (r: Breakeven<N>)
    ensures
        r@ == breakeven_of(
            property_id@,
            cost_basis,
            *fees,
            margin_pct,
            sell_venue,
            buy_fee,
            sell_fee,
        ),
{
    let sell_fee_pct = match sell_fee {
        Some(f) => Some(f),
        None => match sell_venue {
            SellVenue::Book => fees.book_sell,
            SellVenue::Amm => fees.amm_sell,
        },
    };
    let mut scenarios: Vec<Scenario<N>> = Vec::new();
    match buy_fee {
        Some(f) => {
            add_scenario(
                &mut scenarios,
                "specified",
                cost_basis,
                Some(f),
                sell_fee_pct,
                margin_pct,
            );
        },
        None => {
            add_scenario(
                &mut scenarios,
                "amm",
                cost_basis,
                fees.amm_buy,
                sell_fee_pct,
                margin_pct,
            );
            add_scenario(
                &mut scenarios,
                "book",
                cost_basis,
                fees.book_buy,
                sell_fee_pct,
                margin_pct,
            );
        },
    }
    assert(scenario_views(scenarios@) =~= scenarios_of(
        cost_basis,
        *fees,
        margin_pct,
        buy_fee,
        sell_fee_pct,
    ));
    Breakeven {
        property_id: property_id.to_owned(),
        cost_basis,
        sell_venue: sell_venue.as_str(),
        sell_fee_pct,
        scenarios,
    }
}

/// Whether a number given on the command line is unusable.
pub open spec fn unusable<N: Amount>(n: Option<N>) -> bool {
    n is Some && (!n->0.finite() || n->0.less(N::whole(0)))
}

pub open spec fn negative_text(name: Seq<char>) -> Seq<char> {
    name + " must be a non-negative number"@
}

pub open spec fn negative_margin_text() -> Seq<char> {
    "--margin must be a non-negative percent"@
}

pub open spec fn total_fee_text() -> Seq<char> {
    "--sell-fee must be below 100% (a 100% fee has no break-even price)"@
}

/// What is wrong with the arguments of a break-even, in the order they are looked
/// at.
pub open spec fn breakeven_refusal<N: Amount>(
    cost: Option<N>,
    buy_fee: Option<N>,
    sell_fee: Option<N>,
    margin: N,
) -> Option<FailureView> {
    if unusable(cost) {
        Some(FailureView::Usage(negative_text("--cost"@)))
    } else if unusable(buy_fee) {
        Some(FailureView::Usage(negative_text("--buy-fee"@)))
    } else if unusable(sell_fee) {
        Some(FailureView::Usage(negative_text("--sell-fee"@)))
    } else if unusable(Some(margin)) {
        Some(FailureView::Usage(negative_margin_text()))
    } else if sell_fee is Some && N::whole(100).at_most(sell_fee->0) {
        Some(FailureView::Usage(total_fee_text()))
    } else {
        None
    }
}

fn check_number<N: Amount>(name: &str, n: Option<N>) -> (r: Result<(), Failure>)
    ensures
        verdict(r) == if unusable(n) {
            Err(FailureView::Usage(negative_text(name@)))
        } else {
            Ok(())
        },
{
    match n {
        Some(x) => if !x.is_finite() || x.is_below(N::of(0)) {
            Err(Failure::Usage(name.to_owned().concat(" must be a non-negative number")))
        } else {
            Ok(())
        },
        None => Ok(()),
    }
}

/// Reject the arguments of a break-even.
pub fn check_breakeven<N: Amount>(
    cost: Option<N>,
    buy_fee: Option<N>,
    sell_fee: Option<N>,
    margin: N,
) -> (r: Result<(), Failure>)
    ensures
        verdict(r) == match breakeven_refusal(cost, buy_fee, sell_fee, margin) {
            Some(e) => Err(e),
            None => Ok(()),
        },
{
    check_number("--cost", cost)?;
    check_number("--buy-fee", buy_fee)?;
    check_number("--sell-fee", sell_fee)?;
    if !margin.is_finite() || margin.is_below(N::of(0)) {
        return Err(Failure::Usage("--margin must be a non-negative percent".to_owned()));
    }
    if let Some(f) = sell_fee {
        if N::of(100).is_at_most(f) {
            return Err(
                Failure::Usage(
                    "--sell-fee must be below 100% (a 100% fee has no break-even price)".to_owned(),
                ),
            );
        }
    }
    Ok(())
}

/// A position to price: its property and its cost per token.
#[derive(Debug)]
pub struct Target<N> {
    pub property_id: String,
    pub cost: N,
}

pub struct TargetView<N> {
    pub property_id: Seq<char>,
    pub cost: N,
}

impl<N> View for Target<N> {
    type V = TargetView<N>;

    open spec fn view(&self) -> TargetView<N> {
        TargetView { property_id: self.property_id@, cost: self.cost }
    }
}

pub open spec fn target_views<N>(s: Seq<Target<N>>) -> Seq<TargetView<N>> {
    s.map_values(|x: Target<N>| x@)
}

pub open spec fn cost_needs_property_text() -> Seq<char> {
    "--cost also needs --property-id (fee rates are per property)"@
}

/// The position a caller describes, if the caller describes one.
pub fn stated_target<N: Amount>(cost: Option<N>, property_id: Option<&str>) -> (r: Result<
    Option<Target<N>>,
    Failure,
>)
    ensures
        match (cost, chars_of(property_id)) {
            (Some(c), Some(pid)) => r matches Ok(Some(t)) && t@ == (TargetView {
                property_id: pid,
                cost: c,
            }),
            (Some(_), None) => r matches Err(e) && e@ == FailureView::Usage(
                cost_needs_property_text(),
            ),
            (None, _) => r matches Ok(None),
        },
{
    match (cost, property_id) {
        (Some(c), Some(pid)) => Ok(Some(Target { property_id: pid.to_owned(), cost: c })),
        (Some(_), None) => Err(
            Failure::Usage(
                "--cost also needs --property-id (fee rates are per property)".to_owned(),
            ),
        ),
        (None, _) => Ok(None),
    }
}

/// Whether a position is priced: it holds tokens and is not filtered out.
pub open spec fn priced<N: Amount>(p: Json<N>, filter: Option<Seq<char>>) -> bool {
    (filter is Some ==> filter->0 == p.name_at("propertyId"@)) && !p.amount_at(
        "currentTokens"@,
    ).at_most(N::whole(0))
}

/// The cost basis of a position, which is published per token in cents.
pub open spec fn held_target<N: Amount>(p: Json<N>) -> TargetView<N> {
    TargetView {
        property_id: p.name_at("propertyId"@),
        cost: p.amount_at("costBasis"@).quotient(N::whole(100)),
    }
}

pub open spec fn held_targets_of<N: Amount>(
    positions: Seq<Json<N>>,
    filter: Option<Seq<char>>,
) -> Seq<TargetView<N>> {
    positions.filter(|p: Json<N>| priced(p, filter)).map_values(|p: Json<N>| held_target(p))
}

pub open spec fn nothing_held_text(filter: Option<Seq<char>>) -> Seq<char> {
    match filter {
        Some(f) => "no position holding tokens for "@ + f,
        None => "no positions holding tokens"@,
    }
}

/// The positions that hold tokens.
pub fn held_targets<N: Amount>(positions: &Vec<&Json<N>>, filter: Option<&str>) -> (r: Result<
    Vec<Target<N>>,
    Failure,
>)
    ensures
        ({
            let want = held_targets_of(positions@.unref(), chars_of(filter));
            match r {
                Ok(v) => want.len() > 0 && target_views(v@) == want,
                Err(e) => want.len() == 0 && e@ == FailureView::NotFound(
                    nothing_held_text(chars_of(filter)),
                ),
            }
        }),
{
    let ghost all = positions@.unref();
    let ghost keep = |p: Json<N>| priced(p, chars_of(filter));
    let ghost show = |p: Json<N>| held_target(p);
    let mut targets: Vec<Target<N>> = Vec::new();
    let mut i: usize = 0;
    assert(target_views(targets@) =~= all.take(0).filter(keep).map_values(show)) by {
        reveal(Seq::filter);
    }
    while i < positions.len()
        invariant
            i <= positions.len(),
            all == positions@.unref(),
            keep == (|p: Json<N>| priced(p, chars_of(filter))),
            show == (|p: Json<N>| held_target(p)),
            target_views(targets@) == all.take(i as int).filter(keep).map_values(show),
        decreases positions.len() - i,
    {
        let p = positions[i];
        assert(all[i as int] == *p);
        proof {
            lemma_filter_step(all, i as int, keep);
        }
        let pid = p.name_in("propertyId");
        let wanted: bool = match filter {
            Some(f) => same(f, pid),
            None => true,
        };
        if wanted && !p.amount_in("currentTokens").is_at_most(N::of(0)) {
            let ghost before = targets@;
            targets.push(
                Target {
                    property_id: pid.to_owned(),
                    cost: p.amount_in("costBasis").over(N::of(100)),
                },
            );
            assert(target_views(targets@) =~= target_views(before).push(held_target(*p)));
            assert(all.take(i as int + 1).filter(keep).map_values(show) =~= all.take(
                i as int,
            ).filter(keep).map_values(show).push(show(*p)));
        }
        i = i + 1;
    }
    assert(all.take(positions.len() as int) =~= all);
    assert(target_views(targets@).len() == targets@.len());
    if targets.len() == 0 {
        Err(
            Failure::NotFound(
                match filter {
                    Some(f) => "no position holding tokens for ".to_owned().concat(f),
                    None => "no positions holding tokens".to_owned(),
                },
            ),
        )
    } else {
        Ok(targets)
    }
}

/// The pool of a property.
pub fn pool_for<'a, N>(pools: &Vec<&'a Json<N>>, property_id: &str) -> (r: Option<&'a Json<N>>)
    ensures
        owned(r) == first_with_text(pools@.unref(), "propertyId"@, property_id@),
{
    find_text(pools, "propertyId", property_id)
}

/// One scenario as a row.
pub open spec fn scenario_cells<N: Amount>(s: ScenarioView<N>) -> Seq<CellView<N>> {
    seq![
        CellView::Text(s.acquired_via),
        CellView::Text(recorded(s.buy_fee_pct).fixed_text(2)),
        CellView::Text("$"@ + recorded(s.true_cost).fixed_text(2)),
        CellView::Text("$"@ + recorded(s.break_even_ask).fixed_text(2)),
        CellView::Text("$"@ + recorded(s.target_ask).fixed_text(2)),
    ]
}

pub open spec fn scenario_headings<N: Amount>(margin: N) -> Seq<Seq<char>> {
    seq![
        "acquired via"@,
        "buy fee %"@,
        "true cost"@,
        "break-even ask"@,
        "ask +"@ + margin.fixed_text(1) + "%"@,
    ]
}

pub open spec fn position_lines<N: Amount>(p: BreakevenView<N>, margin: N) -> Seq<LineView<N>> {
    match p.sell_fee_pct {
        None => seq![
            LineView::Note(
                p.property_id + ": no published "@ + p.sell_venue
                    + " sell fee — pass --sell-fee to price it"@,
            ),
        ],
        Some(fee) => seq![
            LineView::Note(
                p.property_id + ": cost basis $"@ + p.cost_basis.fixed_text(2)
                    + "/token (excludes the buy fee) — selling on "@ + p.sell_venue + " at "@
                    + fee.fixed_text(2) + "% fee"@,
            ),
            if p.scenarios.len() == 0 {
                LineView::Note(
                    "  (no published buy-fee rate — pass --buy-fee to price it)"@,
                )
            } else {
                LineView::Table(
                    TableView {
                        headings: scenario_headings(margin),
                        rows: p.scenarios.map_values(|s: ScenarioView<N>| scenario_cells(s)),
                    },
                )
            },
        ],
    }
}

pub open spec fn breakeven_lines<N: Amount>(
    positions: Seq<BreakevenView<N>>,
    margin: N,
) -> Seq<LineView<N>>
    decreases positions.len(),
{
    if positions.len() == 0 {
        Seq::empty()
    } else {
        breakeven_lines(positions.drop_last(), margin) + position_lines(positions.last(), margin)
    }
}

fn scenario_row<N: Amount>(s: &Scenario<N>) -> (r: Vec<Cell<N>>)
    ensures
        cell_views(r@) == scenario_cells(s@),
{
    let mut row: Vec<Cell<N>> = Vec::new();
    row.push(Cell::Text(s.acquired_via.to_owned()));
    row.push(Cell::Text(as_recorded(s.buy_fee_pct).fixed(2)));
    row.push(Cell::Text("$".to_owned().concat(&as_recorded(s.true_cost).fixed(2))));
    row.push(Cell::Text("$".to_owned().concat(&as_recorded(s.break_even_ask).fixed(2))));
    row.push(Cell::Text("$".to_owned().concat(&as_recorded(s.target_ask).fixed(2))));
    assert(cell_views(row@) =~= scenario_cells(s@));
    row
}

fn scenario_table<N: Amount>(scenarios: &Vec<Scenario<N>>, margin: N) -> (r: Table<N>)
    ensures
        r@ == (TableView {
            headings: scenario_headings(margin),
            rows: scenario_views(scenarios@).map_values(|s: ScenarioView<N>| scenario_cells(s)),
        }),
{
    let mut headings: Vec<String> = Vec::new();
    headings.push("acquired via".to_owned());
    headings.push("buy fee %".to_owned());
    headings.push("true cost".to_owned());
    headings.push("break-even ask".to_owned());
    headings.push("ask +".to_owned().concat(&margin.fixed(1)).concat("%"));
    assert(texts(headings@) =~= scenario_headings(margin));
    let ghost f = |s: ScenarioView<N>| scenario_cells(s);
    let mut rows: Vec<Vec<Cell<N>>> = Vec::new();
    let mut i: usize = 0;
    assert(row_views(rows@) =~= scenario_views(scenarios@).take(0).map_values(f));
    while i < scenarios.len()
        invariant
            i <= scenarios.len(),
            f == (|s: ScenarioView<N>| scenario_cells(s)),
            row_views(rows@) == scenario_views(scenarios@).take(i as int).map_values(f),
        decreases scenarios.len() - i,
    {
        let ghost before = rows@;
        rows.push(scenario_row(&scenarios[i]));
        assert(row_views(rows@) =~= row_views(before).push(f(scenarios@[i as int]@)));
        i = i + 1;
        assert(row_views(rows@) =~= scenario_views(scenarios@).take(i as int).map_values(f));
    }
    assert(scenario_views(scenarios@).take(scenarios.len() as int) =~= scenario_views(scenarios@));
    Table { headings, rows }
}

fn render_position<N: Amount>(p: &Breakeven<N>, margin: N) -> (r: Vec<Line<N>>)
    ensures
        line_views(r@) == position_lines(p@, margin),
{
    let mut out: Vec<Line<N>> = Vec::new();
    match p.sell_fee_pct {
        None => {
            say(
                &mut out,
                Line::Note(
                    p.property_id.clone().concat(": no published ").concat(p.sell_venue).concat(
                        " sell fee — pass --sell-fee to price it",
                    ),
                ),
            );
        },
        Some(fee) => {
            say(
                &mut out,
                Line::Note(
                    p.property_id.clone().concat(": cost basis $").concat(
                        &p.cost_basis.fixed(2),
                    ).concat("/token (excludes the buy fee) — selling on ").concat(
                        p.sell_venue,
                    ).concat(" at ").concat(&fee.fixed(2)).concat("% fee"),
                ),
            );
            if p.scenarios.len() == 0 {
                say(
                    &mut out,
                    Line::Note(
                        "  (no published buy-fee rate — pass --buy-fee to price it)".to_owned(),
                    ),
                );
            } else {
                say(&mut out, Line::Table(scenario_table(&p.scenarios, margin)));
            }
        },
    }
    assert(p@.scenarios.len() == p.scenarios@.len());
    assert(line_views(out@) =~= position_lines(p@, margin));
    out
}

/// One block per position: its cost basis and sell fee, then a row per way it may
/// have been acquired.
pub fn render_breakeven<N: Amount>(positions: &Vec<Breakeven<N>>, margin: N) -> (r: Vec<Line<N>>)
    ensures
        line_views(r@) == breakeven_lines(breakeven_views(positions@), margin),
{
    let ghost all = breakeven_views(positions@);
    let mut out: Vec<Line<N>> = Vec::new();
    let mut i: usize = 0;
    assert(line_views(out@) =~= breakeven_lines(all.take(0), margin));
    while i < positions.len()
        invariant
            i <= positions.len(),
            all == breakeven_views(positions@),
            line_views(out@) == breakeven_lines(all.take(i as int), margin),
        decreases positions.len() - i,
    {
        assert(all.take(i as int + 1).drop_last() =~= all.take(i as int));
        assert(all.take(i as int + 1).last() == positions@[i as int]@);
        say_all(&mut out, render_position(&positions[i], margin));
        i = i + 1;
    }
    assert(all.take(positions.len() as int) =~= all);
    out
}

} // verus!
