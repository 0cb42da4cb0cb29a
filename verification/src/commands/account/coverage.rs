use vstd::prelude::*;

use crate::amount::Amount;
use crate::commands::quote::plan::{
    cost_total, orders_on, quantity_total, total_cost, total_quantity,
};
use crate::commands::quote::Side;
use crate::failure::{verdict, Failure, FailureView};
use crate::groups::{directory, directory_of, last_of, named, names_at, select_named};
use crate::json::{lemma_filter_step, select_text, with_text, Json};
use crate::report::{cell_views, line_views, row_views, say, say_all, Cell, CellView, Line, LineView, Table, TableView};
use crate::sort::{
    descending, descending_key, sort_by_key, sorting_commutes_with_mapping, stable_sorted, values,
};
use crate::text::{str_texts, texts};

verus! {

/// The coverage of one property's open orders: its bids by wallet USDC, its asks
/// by held tokens, each side combined.
#[derive(Debug)]
pub struct CoverRow<N> {
    pub property_id: String,
    pub bid_usd: N,
    pub bid_covered: bool,
    pub ask_qty: N,
    pub held_tokens: N,
    pub ask_covered: bool,
}

pub struct CoverRowView<N> {
    pub property_id: Seq<char>,
    pub bid_usd: N,
    pub bid_covered: bool,
    pub ask_qty: N,
    pub held_tokens: N,
    pub ask_covered: bool,
}

impl<N> View for CoverRow<N> {
    type V = CoverRowView<N>;

    open spec fn view(&self) -> CoverRowView<N> {
        CoverRowView {
            property_id: self.property_id@,
            bid_usd: self.bid_usd,
            bid_covered: self.bid_covered,
            ask_qty: self.ask_qty,
            held_tokens: self.held_tokens,
            ask_covered: self.ask_covered,
        }
    }
}

pub open spec fn cover_row_views<N>(rows: Seq<CoverRow<N>>) -> Seq<CoverRowView<N>> {
    rows.map_values(|r: CoverRow<N>| r@)
}

/// A property whose bids a spend would leave uncovered.
#[derive(Debug)]
pub struct Exposed<N> {
    pub property_id: String,
    pub bid_usd: N,
}

pub struct ExposedView<N> {
    pub property_id: Seq<char>,
    pub bid_usd: N,
}

impl<N> View for Exposed<N> {
    type V = ExposedView<N>;

    open spec fn view(&self) -> ExposedView<N> {
        ExposedView { property_id: self.property_id@, bid_usd: self.bid_usd }
    }
}

pub open spec fn exposed_views<N>(rows: Seq<Exposed<N>>) -> Seq<ExposedView<N>> {
    rows.map_values(|r: Exposed<N>| r@)
}

/// What spending some USDC would do to the wallet and to the bids it backs.
#[derive(Debug)]
pub struct Simulation<N> {
    pub spend: N,
    pub wallet_after: N,
    pub fits: bool,
    pub uncovers: Vec<Exposed<N>>,
}

pub struct SimulationView<N> {
    pub spend: N,
    pub wallet_after: N,
    pub fits: bool,
    pub uncovers: Seq<ExposedView<N>>,
}

impl<N> View for Simulation<N> {
    type V = SimulationView<N>;

    open spec fn view(&self) -> SimulationView<N> {
        SimulationView {
            spend: self.spend,
            wallet_after: self.wallet_after,
            fits: self.fits,
            uncovers: exposed_views(self.uncovers@),
        }
    }
}

/// Order coverage of an account.
#[derive(Debug)]
pub struct Coverage<N> {
    pub wallet_usdc: N,
    pub reserved_usdc: N,
    pub free_usdc: N,
    pub bid_exposure_usdc: N,
    pub over_committed: bool,
    pub uncovered_bids: usize,
    pub uncovered_asks: usize,
    pub properties: Vec<CoverRow<N>>,
    pub simulation: Option<Simulation<N>>,
}

pub struct CoverageView<N> {
    pub wallet_usdc: N,
    pub reserved_usdc: N,
    pub free_usdc: N,
    pub bid_exposure_usdc: N,
    pub over_committed: bool,
    pub uncovered_bids: nat,
    pub uncovered_asks: nat,
    pub properties: Seq<CoverRowView<N>>,
    pub simulation: Option<SimulationView<N>>,
}

impl<N> View for Coverage<N> {
    type V = CoverageView<N>;

    open spec fn view(&self) -> CoverageView<N> {
        CoverageView {
            wallet_usdc: self.wallet_usdc,
            reserved_usdc: self.reserved_usdc,
            free_usdc: self.free_usdc,
            bid_exposure_usdc: self.bid_exposure_usdc,
            over_committed: self.over_committed,
            uncovered_bids: self.uncovered_bids as nat,
            uncovered_asks: self.uncovered_asks as nat,
            properties: cover_row_views(self.properties@),
            simulation: match self.simulation {
                Some(s) => Some(s@),
                None => None,
            },
        }
    }
}

/// The tokens held of a property: what its last position says, else none.
pub open spec fn holding<N: Amount>(positions: Seq<Json<N>>, pid: Seq<char>) -> N {
    match last_of(named(positions, "propertyId"@, pid)) {
        Some(p) => p.amount_at("currentTokens"@),
        None => N::whole(0),
    }
}

/// The coverage of one property.
pub open spec fn cover_row<N: Amount>(
    usdc: N,
    active: Seq<Json<N>>,
    positions: Seq<Json<N>>,
    pid: Seq<char>,
) -> CoverRowView<N> {
    let orders = named(active, "propertyId"@, pid);
    let bid_usd = total_cost(orders_on(orders, Side::Buy));
    let ask_qty = total_quantity(orders_on(orders, Side::Sell));
    let held_tokens = holding(positions, pid);
    CoverRowView {
        property_id: pid,
        bid_usd,
        bid_covered: bid_usd.at_most(usdc),
        ask_qty,
        held_tokens,
        ask_covered: ask_qty.at_most(held_tokens),
    }
}

/// The coverage of every property with an active order, in order of their ids.
pub open spec fn cover_rows<N: Amount>(
    usdc: N,
    active: Seq<Json<N>>,
    positions: Seq<Json<N>>,
) -> Seq<CoverRowView<N>> {
    directory(names_at(active, "propertyId"@)).map_values(
        |pid: Seq<char>| cover_row(usdc, active, positions, pid),
    )
}

/// The largest bid total of a single property: the wallet floor every bid must
/// clear, since coverage is checked per property.
pub open spec fn reserve<N: Amount>(rows: Seq<CoverRowView<N>>) -> N
    decreases rows.len(),
{
    if rows.len() == 0 {
        N::whole(0)
    } else {
        reserve(rows.drop_last()).greater(rows.last().bid_usd)
    }
}

/// What would be owed if every bid filled.
pub open spec fn exposure<N: Amount>(rows: Seq<CoverRowView<N>>) -> N
    decreases rows.len(),
{
    if rows.len() == 0 {
        N::whole(0)
    } else {
        exposure(rows.drop_last()).sum(rows.last().bid_usd)
    }
}

pub open spec fn free_to_spend<N: Amount>(usdc: N, rows: Seq<CoverRowView<N>>) -> N {
    usdc.difference(reserve(rows)).greater(N::whole(0))
}

/// Whether a row's bids would be uncovered by a wallet of this size.
pub open spec fn uncovered_at<N: Amount>(row: CoverRowView<N>, wallet: N) -> bool {
    N::whole(0).less(row.bid_usd) && wallet.less(row.bid_usd)
}

pub open spec fn exposed_row<N>(row: CoverRowView<N>) -> ExposedView<N> {
    ExposedView { property_id: row.property_id, bid_usd: row.bid_usd }
}

/// What a spend would do.
pub open spec fn spending<N: Amount>(usdc: N, rows: Seq<CoverRowView<N>>, spend: N) -> SimulationView<
    N,
> {
    let after = usdc.difference(spend);
    SimulationView {
        spend,
        wallet_after: after,
        fits: spend.at_most(free_to_spend(usdc, rows)),
        uncovers: rows.filter(|r: CoverRowView<N>| uncovered_at(r, after)).map_values(
            |r: CoverRowView<N>| exposed_row(r),
        ),
    }
}

/// The rows from the largest bid total to the smallest.
pub open spec fn largest_bid_first<N: Amount>(rows: Seq<CoverRowView<N>>) -> Seq<CoverRowView<N>> {
    values(
        stable_sorted(
            rows.map_values(|r: CoverRowView<N>| (descending(r.bid_usd.rank()), r)),
        ),
    )
}

/// The coverage report of an account.
pub open spec fn coverage_of<N: Amount>(
    usdc: N,
    orders: Seq<Json<N>>,
    positions: Seq<Json<N>>,
    spend: Option<N>,
) -> CoverageView<N> {
    let rows = cover_rows(usdc, with_text(orders, "status"@, "active"@), positions);
    CoverageView {
        wallet_usdc: usdc,
        reserved_usdc: reserve(rows),
        free_usdc: free_to_spend(usdc, rows),
        bid_exposure_usdc: exposure(rows),
        over_committed: usdc.less(exposure(rows)),
        uncovered_bids: rows.filter(|r: CoverRowView<N>| !r.bid_covered).len(),
        uncovered_asks: rows.filter(|r: CoverRowView<N>| !r.ask_covered).len(),
        properties: largest_bid_first(rows),
        simulation: match spend {
            Some(s) => Some(spending(usdc, rows, s)),
            None => None,
        },
    }
}

pub open spec fn bad_spend_text() -> Seq<char> {
    "--spend must be a non-negative USD amount"@
}

/// Reject a spend that is no amount of money.
pub fn check_spend<N: Amount>(spend: Option<N>) -> (r: Result<(), Failure>)
    ensures
        verdict(r) == if spend is Some && (!spend->0.finite() || spend->0.less(N::whole(0))) {
            Err(FailureView::Usage(bad_spend_text()))
        } else {
            Ok(())
        },
{
    if let Some(s) = spend {
        if !s.is_finite() || s.is_below(N::of(0)) {
            return Err(Failure::Usage("--spend must be a non-negative USD amount".to_owned()));
        }
    }
    Ok(())
}

fn holding_of<N: Amount>(positions: &Vec<&Json<N>>, pid: &str) -> (r: N)
    ensures
        r == holding(positions@.unref(), pid@),
{
    let ours = select_named(positions, "propertyId", pid);
    if ours.len() == 0 {
        N::of(0)
    } else {
        assert(ours@.unref().last() == *ours@.last());
        ours[ours.len() - 1].amount_in("currentTokens")
    }
}

pub open spec fn keyed_row<N: Amount>(row: CoverRowView<N>) -> (i128, CoverRowView<N>) {
    (descending(row.bid_usd.rank()), row)
}

spec fn keyed_views<N>(rows: Seq<(i128, CoverRow<N>)>) -> Seq<(i128, CoverRowView<N>)> {
    rows.map_values(|p: (i128, CoverRow<N>)| (p.0, p.1@))
}

/// The rows in order of their ids, each with the key that puts it in its place.
fn build_rows<N: Amount>(usdc: N, active: &Vec<&Json<N>>, positions: &Vec<&Json<N>>) -> (r: Vec<
    (i128, CoverRow<N>),
>)
    ensures
        keyed_views(r@) == cover_rows(usdc, active@.unref(), positions@.unref()).map_values(
            |r: CoverRowView<N>| keyed_row(r),
        ),
{
    let pids = directory_of(active, "propertyId");
    let ghost names = str_texts(pids@);
    let ghost f = |pid: Seq<char>| cover_row(usdc, active@.unref(), positions@.unref(), pid);
    let ghost g = |r: CoverRowView<N>| keyed_row(r);
    let mut rows: Vec<(i128, CoverRow<N>)> = Vec::new();
    let mut i: usize = 0;
    assert(keyed_views(rows@) =~= names.take(0).map_values(f).map_values(g));
    while i < pids.len()
        invariant
            i <= pids.len(),
            names == str_texts(pids@),
            f == (|pid: Seq<char>| cover_row(usdc, active@.unref(), positions@.unref(), pid)),
            g == (|r: CoverRowView<N>| keyed_row(r)),
            keyed_views(rows@) == names.take(i as int).map_values(f).map_values(g),
        decreases pids.len() - i,
    {
        let pid = pids[i];
        let orders = select_named(active, "propertyId", pid);
        let bid_usd = cost_total(&select_text(&orders, "direction", Side::Buy.as_str()));
        let ask_qty = quantity_total(&select_text(&orders, "direction", Side::Sell.as_str()));
        let held_tokens = holding_of(positions, pid);
        let ghost before = rows@;
        rows.push(
            (
                descending_key(bid_usd.order_key()),
                CoverRow {
                    property_id: pid.to_owned(),
                    bid_usd,
                    bid_covered: bid_usd.is_at_most(usdc),
                    ask_qty,
                    held_tokens,
                    ask_covered: ask_qty.is_at_most(held_tokens),
                },
            ),
        );
        assert(keyed_views(rows@) =~= keyed_views(before).push(g(f(names[i as int]))));
        i = i + 1;
        assert(keyed_views(rows@) =~= names.take(i as int).map_values(f).map_values(g));
    }
    assert(names.take(pids.len() as int) =~= names);
    rows
}

fn simulate<N: Amount>(usdc: N, free: N, rows: &Vec<(i128, CoverRow<N>)>, spend: N) -> (r: Simulation<
    N,
>)
    requires
        free == free_to_spend(usdc, values(keyed_views(rows@))),
    ensures
        r@ == spending(usdc, values(keyed_views(rows@)), spend),
{
    let ghost all = values(keyed_views(rows@));
    let after = usdc.minus(spend);
    let ghost keep = |r: CoverRowView<N>| uncovered_at(r, after);
    let ghost show = |r: CoverRowView<N>| exposed_row(r);
    let mut uncovers: Vec<Exposed<N>> = Vec::new();
    let mut i: usize = 0;
    assert(exposed_views(uncovers@) =~= all.take(0).filter(keep).map_values(show)) by {
        reveal(Seq::filter);
    }
    while i < rows.len()
        invariant
            i <= rows.len(),
            all == values(keyed_views(rows@)),
            keep == (|r: CoverRowView<N>| uncovered_at(r, after)),
            show == (|r: CoverRowView<N>| exposed_row(r)),
            exposed_views(uncovers@) == all.take(i as int).filter(keep).map_values(show),
        decreases rows.len() - i,
    {
        let row = &rows[i].1;
        assert(all[i as int] == row@);
        proof {
            lemma_filter_step(all, i as int, keep);
        }
        if N::of(0).is_below(row.bid_usd) && after.is_below(row.bid_usd) {
            let ghost before = uncovers@;
            uncovers.push(
                Exposed { property_id: row.property_id.clone(), bid_usd: row.bid_usd },
            );
            assert(exposed_views(uncovers@) =~= exposed_views(before).push(exposed_row(row@)));
            assert(all.take(i as int + 1).filter(keep).map_values(show) =~= all.take(
                i as int,
            ).filter(keep).map_values(show).push(show(row@)));
        }
        i = i + 1;
    }
    assert(all.take(rows.len() as int) =~= all);
    Simulation { spend, wallet_after: after, fits: spend.is_at_most(free), uncovers }
}

/// Compute order coverage from a wallet balance, open orders and holdings.
///
/// Coverage is checked per property, across that property's open orders combined,
/// so several properties' bids can lean on the same USDC at once: the reserve is
/// the largest single-property bid total, and only the surplus above it is free.
pub fn coverage<N: Amount>(
    usdc: N,
    orders: &Vec<&Json<N>>,
    positions: &Vec<&Json<N>>,
    spend: Option<N>,
) -> (r: Coverage<N>)
    ensures
        r@ == coverage_of(usdc, orders@.unref(), positions@.unref(), spend),
{
    let active = select_text(orders, "status", "active");
    let rows = build_rows(usdc, &active, positions);
    let ghost all = cover_rows(usdc, active@.unref(), positions@.unref());
    let ghost g = |r: CoverRowView<N>| keyed_row(r);
    let ghost no_bid = |r: CoverRowView<N>| !r.bid_covered;
    let ghost no_ask = |r: CoverRowView<N>| !r.ask_covered;
    assert(values(keyed_views(rows@)) =~= all) by {
        assert forall|i: int| 0 <= i < all.len() implies values(keyed_views(rows@))[i]
            == all[i] by {
            assert(keyed_views(rows@)[i] == all.map_values(g)[i]);
        }
    }
    assert(rows.len() == all.len());
    let mut reserved = N::of(0);
    let mut owed = N::of(0);
    let mut uncovered_bids: usize = 0;
    let mut uncovered_asks: usize = 0;
    let mut i: usize = 0;
    assert(all.take(0).filter(no_bid).len() == 0 && all.take(0).filter(no_ask).len() == 0) by {
        reveal(Seq::filter);
    }
    while i < rows.len()
        invariant
            i <= rows.len() == all.len(),
            all == values(keyed_views(rows@)),
            no_bid == (|r: CoverRowView<N>| !r.bid_covered),
            no_ask == (|r: CoverRowView<N>| !r.ask_covered),
            reserved == reserve(all.take(i as int)),
            owed == exposure(all.take(i as int)),
            uncovered_bids == all.take(i as int).filter(no_bid).len(),
            uncovered_asks == all.take(i as int).filter(no_ask).len(),
            uncovered_bids <= i,
            uncovered_asks <= i,
        decreases rows.len() - i,
    {
        let row = &rows[i].1;
        assert(all[i as int] == row@);
        assert(all.take(i as int + 1).drop_last() =~= all.take(i as int));
        proof {
            lemma_filter_step(all, i as int, no_bid);
            lemma_filter_step(all, i as int, no_ask);
        }
        reserved = reserved.larger_of(row.bid_usd);
        owed = owed.plus(row.bid_usd);
        if !row.bid_covered {
            uncovered_bids = uncovered_bids + 1;
        }
        if !row.ask_covered {
            uncovered_asks = uncovered_asks + 1;
        }
        i = i + 1;
    }
    assert(all.take(rows.len() as int) =~= all);
    let free = usdc.minus(reserved).larger_of(N::of(0));
    let simulation = match spend {
        Some(s) => Some(simulate(usdc, free, &rows, s)),
        None => None,
    };
    let ghost tagged = rows@;
    let properties = sort_by_key(rows);
    proof {
        let view = |r: CoverRow<N>| r@;
        sorting_commutes_with_mapping(tagged, view);
        let h = |p: (i128, CoverRow<N>)| (p.0, view(p.1));
        assert(tagged.map_values(h) =~= keyed_views(tagged));
        assert(keyed_views(tagged) =~= all.map_values(
            |r: CoverRowView<N>| (descending(r.bid_usd.rank()), r),
        ));
        assert(values(stable_sorted(tagged).map_values(h)) =~= cover_row_views(properties@));
    }
    Coverage {
        wallet_usdc: usdc,
        reserved_usdc: reserved,
        free_usdc: free,
        bid_exposure_usdc: owed,
        over_committed: usdc.is_below(owed),
        uncovered_bids,
        uncovered_asks,
        properties,
        simulation,
    }
}

pub open spec fn coverage_headings() -> Seq<Seq<char>> {
    seq!["property"@, "bid $"@, "bid covered"@, "ask qty"@, "held"@, "ask covered"@]
}

/// One property as a row.
pub open spec fn coverage_cells<N: Amount>(row: CoverRowView<N>) -> Seq<CellView<N>> {
    seq![
        CellView::Text(row.property_id),
        CellView::Text(row.bid_usd.fixed_text(2)),
        CellView::Flag(row.bid_covered),
        CellView::Number(row.ask_qty),
        CellView::Number(row.held_tokens),
        CellView::Flag(row.ask_covered),
    ]
}

/// What the operator is warned of about one property.
pub open spec fn row_warnings<N>(row: CoverRowView<N>) -> Seq<LineView<N>> {
    (if row.bid_covered {
        Seq::empty()
    } else {
        seq![
            LineView::Note(
                "  ⚠ "@ + row.property_id
                    + ": bids exceed your wallet — at risk of automatic cancellation"@,
            ),
        ]
    }) + (if row.ask_covered {
        Seq::empty()
    } else {
        seq![
            LineView::Note(
                "  ⚠ "@ + row.property_id
                    + ": asks exceed your held tokens — at risk of automatic cancellation"@,
            ),
        ]
    })
}

pub open spec fn warnings<N>(rows: Seq<CoverRowView<N>>) -> Seq<LineView<N>>
    decreases rows.len(),
{
    if rows.len() == 0 {
        Seq::empty()
    } else {
        warnings(rows.drop_last()) + row_warnings(rows.last())
    }
}

pub open spec fn simulation_lines<N: Amount>(sim: SimulationView<N>) -> Seq<LineView<N>> {
    seq![
        LineView::Note(
            "spending $"@ + sim.spend.fixed_text(2) + " leaves $"@ + sim.wallet_after.fixed_text(2)
                + " — "@ + if sim.fits {
                "fits within free capital"@
            } else {
                "EXCEEDS free capital"@
            },
        ),
    ] + sim.uncovers.map_values(
        |u: ExposedView<N>|
            LineView::Note(
                "  ⚠ would uncover "@ + u.property_id + " (bids $"@ + u.bid_usd.fixed_text(2)
                    + ")"@,
            ),
    )
}

/// The text report on an account's coverage.
pub open spec fn coverage_lines<N: Amount>(c: CoverageView<N>) -> Seq<LineView<N>> {
    seq![
        LineView::Table(
            TableView {
                headings: coverage_headings(),
                rows: c.properties.map_values(|r: CoverRowView<N>| coverage_cells(r)),
            },
        ),
        LineView::Note(
            "wallet $"@ + c.wallet_usdc.fixed_text(2) + " — $"@ + c.reserved_usdc.fixed_text(2)
                + " reserved (largest single-property bid), $"@ + c.free_usdc.fixed_text(2)
                + " free to spend"@,
        ),
    ] + (if c.over_committed {
        seq![
            LineView::Note(
                "  note: $"@ + c.bid_exposure_usdc.fixed_text(2)
                    + " total bid exposure exceeds the wallet — fine while they rest (coverage is per property), but one fill spends cash the others also rely on"@,
            ),
        ]
    } else {
        Seq::empty()
    }) + warnings(c.properties) + (match c.simulation {
        Some(sim) => simulation_lines(sim),
        None => Seq::empty(),
    })
}

fn coverage_row<N: Amount>(row: &CoverRow<N>) -> (r: Vec<Cell<N>>)
    ensures
        cell_views(r@) == coverage_cells(row@),
{
    let mut cells: Vec<Cell<N>> = Vec::new();
    cells.push(Cell::Text(row.property_id.clone()));
    cells.push(Cell::Text(row.bid_usd.fixed(2)));
    cells.push(Cell::Flag(row.bid_covered));
    cells.push(Cell::Number(row.ask_qty));
    cells.push(Cell::Number(row.held_tokens));
    cells.push(Cell::Flag(row.ask_covered));
    assert(cell_views(cells@) =~= coverage_cells(row@));
    cells
}

fn coverage_table<N: Amount>(properties: &Vec<CoverRow<N>>) -> (r: Table<N>)
    ensures
        r@ == (TableView {
            headings: coverage_headings(),
            rows: cover_row_views(properties@).map_values(
                |r: CoverRowView<N>| coverage_cells(r),
            ),
        }),
{
    let mut headings: Vec<String> = Vec::new();
    headings.push("property".to_owned());
    headings.push("bid $".to_owned());
    headings.push("bid covered".to_owned());
    headings.push("ask qty".to_owned());
    headings.push("held".to_owned());
    headings.push("ask covered".to_owned());
    assert(texts(headings@) =~= coverage_headings());
    let ghost f = |r: CoverRowView<N>| coverage_cells(r);
    let ghost all = cover_row_views(properties@);
    let mut rows: Vec<Vec<Cell<N>>> = Vec::new();
    let mut i: usize = 0;
    assert(row_views(rows@) =~= all.take(0).map_values(f));
    while i < properties.len()
        invariant
            i <= properties.len(),
            f == (|r: CoverRowView<N>| coverage_cells(r)),
            all == cover_row_views(properties@),
            row_views(rows@) == all.take(i as int).map_values(f),
        decreases properties.len() - i,
    {
        let ghost before = rows@;
        rows.push(coverage_row(&properties[i]));
        assert(row_views(rows@) =~= row_views(before).push(f(properties@[i as int]@)));
        i = i + 1;
        assert(row_views(rows@) =~= all.take(i as int).map_values(f));
    }
    assert(all.take(properties.len() as int) =~= all);
    Table { headings, rows }
}

fn render_warnings<N: Amount>(properties: &Vec<CoverRow<N>>) -> (r: Vec<Line<N>>)
    ensures
        line_views(r@) == warnings(cover_row_views(properties@)),
{
    let ghost all = cover_row_views(properties@);
    let mut out: Vec<Line<N>> = Vec::new();
    let mut i: usize = 0;
    assert(line_views(out@) =~= warnings(all.take(0)));
    while i < properties.len()
        invariant
            i <= properties.len(),
            all == cover_row_views(properties@),
            line_views(out@) == warnings(all.take(i as int)),
        decreases properties.len() - i,
    {
        let row = &properties[i];
        let ghost before = line_views(out@);
        assert(all.take(i as int + 1).drop_last() =~= all.take(i as int));
        assert(all.take(i as int + 1).last() == row@);
        if !row.bid_covered {
            say(
                &mut out,
                Line::Note(
                    "  ⚠ ".to_owned().concat(row.property_id.as_str()).concat(
                        ": bids exceed your wallet — at risk of automatic cancellation",
                    ),
                ),
            );
        }
        if !row.ask_covered {
            say(
                &mut out,
                Line::Note(
                    "  ⚠ ".to_owned().concat(row.property_id.as_str()).concat(
                        ": asks exceed your held tokens — at risk of automatic cancellation",
                    ),
                ),
            );
        }
        assert(line_views(out@) =~= before + row_warnings(row@));
        i = i + 1;
    }
    assert(all.take(properties.len() as int) =~= all);
    out
}

fn render_simulation<N: Amount>(sim: &Simulation<N>) -> (r: Vec<Line<N>>)
    ensures
        line_views(r@) == simulation_lines(sim@),
{
    let ghost f = |u: ExposedView<N>|
        LineView::<N>::Note(
            "  ⚠ would uncover "@ + u.property_id + " (bids $"@ + u.bid_usd.fixed_text(2) + ")"@,
        );
    let ghost all = exposed_views(sim.uncovers@);
    let mut out: Vec<Line<N>> = Vec::new();
    say(
        &mut out,
        Line::Note(
            "spending $".to_owned().concat(&sim.spend.fixed(2)).concat(" leaves $").concat(
                &sim.wallet_after.fixed(2),
            ).concat(" — ").concat(
                if sim.fits {
                    "fits within free capital"
                } else {
                    "EXCEEDS free capital"
                },
            ),
        ),
    );
    let ghost head = line_views(out@);
    let mut i: usize = 0;
    assert(line_views(out@) =~= head + all.take(0).map_values(f));
    while i < sim.uncovers.len()
        invariant
            i <= sim.uncovers.len(),
            all == exposed_views(sim.uncovers@),
            f == (|u: ExposedView<N>|
                LineView::<N>::Note(
                    "  ⚠ would uncover "@ + u.property_id + " (bids $"@ + u.bid_usd.fixed_text(2)
                        + ")"@,
                )),
            line_views(out@) == head + all.take(i as int).map_values(f),
        decreases sim.uncovers.len() - i,
    {
        let u = &sim.uncovers[i];
        say(
            &mut out,
            Line::Note(
                "  ⚠ would uncover ".to_owned().concat(u.property_id.as_str()).concat(
                    " (bids $",
                ).concat(&u.bid_usd.fixed(2)).concat(")"),
            ),
        );
        i = i + 1;
        assert(line_views(out@) =~= head + all.take(i as int).map_values(f));
    }
    assert(all.take(sim.uncovers.len() as int) =~= all);
    assert(line_views(out@) =~= simulation_lines(sim@));
    out
}

/// The per-property table, the headline capital line, then explicit warnings for
/// anything uncovered or at risk from a simulated spend.
pub fn render_coverage<N: Amount>(c: &Coverage<N>) -> (r: Vec<Line<N>>)
    ensures
        line_views(r@) == coverage_lines(c@),
{
    let mut out: Vec<Line<N>> = Vec::new();
    say(&mut out, Line::Table(coverage_table(&c.properties)));
    say(
        &mut out,
        Line::Note(
            "wallet $".to_owned().concat(&c.wallet_usdc.fixed(2)).concat(" — $").concat(
                &c.reserved_usdc.fixed(2),
            ).concat(" reserved (largest single-property bid), $").concat(
                &c.free_usdc.fixed(2),
            ).concat(" free to spend"),
        ),
    );
    if c.over_committed {
        say(
            &mut out,
            Line::Note(
                "  note: $".to_owned().concat(&c.bid_exposure_usdc.fixed(2)).concat(
                    " total bid exposure exceeds the wallet — fine while they rest (coverage is per property), but one fill spends cash the others also rely on",
                ),
            ),
        );
    }
    say_all(&mut out, render_warnings(&c.properties));
    if let Some(sim) = &c.simulation {
        say_all(&mut out, render_simulation(sim));
    }
    assert(line_views(out@) =~= coverage_lines(c@));
    out
}

} // verus!
