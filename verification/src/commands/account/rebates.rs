use vstd::prelude::*;

use crate::amount::Amount;
use crate::commands::quote::{close, half_cent_amount, Side};
use crate::json::{lemma_filter_step, owned, Json};
use crate::report::{cell_views, line_views, row_views, say, Cell, CellView, Line, LineView, Table, TableView};
use crate::sort::{sort_by_key, sorting_commutes_with_mapping, stable_sorted, values};
use crate::text::{decimal, decimal_text, same, texts};

verus! {

/// The maker rebate as a fraction of the fee paid on one's side of a trade.
pub open spec fn rebate_share<N: Amount>() -> N {
    N::whole(1).quotient(N::whole(2))
}

pub fn rebate_share_amount<N: Amount>() -> (r: N)
    ensures
        r == rebate_share::<N>(),
{
    N::of(1).over(N::of(2))
}

/// One of our trades and the rebate it earned.
#[derive(Debug)]
pub struct Rebate<'a, N> {
    pub trade_id: Option<&'a Json<N>>,
    pub property_id: &'a str,
    pub direction: &'static str,
    pub price: N,
    pub quantity: N,
    pub created_at: u64,
    pub our_fee: N,
    pub was_maker: bool,
    pub rebate: N,
}

pub struct RebateView<N> {
    pub trade_id: Option<Json<N>>,
    pub property_id: Seq<char>,
    pub direction: Seq<char>,
    pub price: N,
    pub quantity: N,
    pub created_at: nat,
    pub our_fee: N,
    pub was_maker: bool,
    pub rebate: N,
}

impl<'a, N> View for Rebate<'a, N> {
    type V = RebateView<N>;

    open spec fn view(&self) -> RebateView<N> {
        RebateView {
            trade_id: owned(self.trade_id),
            property_id: self.property_id@,
            direction: self.direction@,
            price: self.price,
            quantity: self.quantity,
            created_at: self.created_at as nat,
            our_fee: self.our_fee,
            was_maker: self.was_maker,
            rebate: self.rebate,
        }
    }
}

pub open spec fn rebate_views<'a, N>(rows: Seq<Rebate<'a, N>>) -> Seq<RebateView<N>> {
    rows.map_values(|r: Rebate<'a, N>| r@)
}

/// The maker rebates of an account, newest trade first.
#[derive(Debug)]
pub struct Rebates<'a, N> {
    pub rebate_share_of_fee: N,
    pub total_rebates: N,
    pub maker_fills: usize,
    pub taker_fills: usize,
    pub trades: Vec<Rebate<'a, N>>,
}

pub struct RebatesView<N> {
    pub rebate_share_of_fee: N,
    pub total_rebates: N,
    pub maker_fills: nat,
    pub taker_fills: nat,
    pub trades: Seq<RebateView<N>>,
}

impl<'a, N> View for Rebates<'a, N> {
    type V = RebatesView<N>;

    open spec fn view(&self) -> RebatesView<N> {
        RebatesView {
            rebate_share_of_fee: self.rebate_share_of_fee,
            total_rebates: self.total_rebates,
            maker_fills: self.maker_fills as nat,
            taker_fills: self.taker_fills as nat,
            trades: rebate_views(self.trades@),
        }
    }
}

/// The side of a trade that was ours.
pub open spec fn our_side<N>(trade: Json<N>) -> Side {
    if trade.text_at("direction"@) == Some(Side::Buy.word()) {
        Side::Buy
    } else {
        Side::Sell
    }
}

/// When a trade was made, in Unix milliseconds.
pub open spec fn made_at<N>(trade: Json<N>) -> u64 {
    match trade.whole_at("createdAt"@) {
        Some(t) => t,
        None => 0,
    }
}

/// Whether an order of ours rested where a trade was filled.
pub open spec fn rested_at<N: Amount>(o: Json<N>, trade: Json<N>) -> bool {
    o.name_at("propertyId"@) == trade.name_at("propertyId"@) && o.name_at("direction"@)
        == our_side(trade).word() && close(o.amount_at("price"@), trade.amount_at("price"@))
}

/// A fill counts as a maker's when one of our orders on that property rested on
/// our side of it at that price; any other is a taker's.
pub open spec fn made_by_us<N: Amount>(orders: Seq<Json<N>>, trade: Json<N>) -> bool {
    exists|i: int| 0 <= i < orders.len() && rested_at(#[trigger] orders[i], trade)
}

/// The fee on our side of a trade. Fees are published in millionths.
pub open spec fn fee_on_our_side<N: Amount>(trade: Json<N>) -> N {
    (match our_side(trade) {
        Side::Buy => trade.amount_at("buyerFeeAmount"@),
        Side::Sell => trade.amount_at("sellerFeeAmount"@),
    }).quotient(N::whole(1_000_000))
}

/// A trade and its rebate: half of our fee for a maker, nothing for a taker.
pub open spec fn rebate_of<N: Amount>(orders: Seq<Json<N>>, trade: Json<N>) -> RebateView<N> {
    let fee = fee_on_our_side(trade);
    let maker = made_by_us(orders, trade);
    RebateView {
        trade_id: trade.member("tradeId"@),
        property_id: trade.name_at("propertyId"@),
        direction: our_side(trade).word(),
        price: trade.amount_at("price"@),
        quantity: trade.amount_at("quantity"@),
        created_at: made_at(trade) as nat,
        our_fee: fee,
        was_maker: maker,
        rebate: if maker {
            fee.product(rebate_share())
        } else {
            N::whole(0)
        },
    }
}

/// Whether a trade is recent enough to count.
pub open spec fn counted<N>(trade: Json<N>, since: Option<u64>) -> bool {
    since is Some ==> made_at(trade) >= since->0
}

/// The counted trades with their rebates, in the order they came.
pub open spec fn rebate_rows<N: Amount>(
    trades: Seq<Json<N>>,
    orders: Seq<Json<N>>,
    since: Option<u64>,
) -> Seq<RebateView<N>> {
    trades.filter(|t: Json<N>| counted(t, since)).map_values(|t: Json<N>| rebate_of(orders, t))
}

pub open spec fn total_rebate<N: Amount>(rows: Seq<RebateView<N>>) -> N
    decreases rows.len(),
{
    if rows.len() == 0 {
        N::whole(0)
    } else {
        total_rebate(rows.drop_last()).sum(rows.last().rebate)
    }
}

/// The key that puts the newest first.
pub open spec fn newest_first<N>(row: RebateView<N>) -> (i128, RebateView<N>) {
    (-(row.created_at as int) as i128, row)
}

pub open spec fn rebates_of<N: Amount>(
    trades: Seq<Json<N>>,
    orders: Seq<Json<N>>,
    since: Option<u64>,
) -> RebatesView<N> {
    let rows = rebate_rows(trades, orders, since);
    RebatesView {
        rebate_share_of_fee: rebate_share(),
        total_rebates: total_rebate(rows),
        maker_fills: rows.filter(|r: RebateView<N>| r.was_maker).len(),
        taker_fills: rows.filter(|r: RebateView<N>| !r.was_maker).len(),
        trades: values(stable_sorted(rows.map_values(|r: RebateView<N>| newest_first(r)))),
    }
}

fn was_made_by_us<N: Amount>(orders: &Vec<&Json<N>>, trade: &Json<N>, side: Side) -> (r: bool)
    requires
        side == our_side(*trade),
    ensures
        r == made_by_us(orders@.unref(), *trade),
{
    let ghost all = orders@.unref();
    let pid = trade.name_in("propertyId");
    let price = trade.amount_in("price");
    let mut i: usize = 0;
    while i < orders.len()
        invariant
            i <= orders.len(),
            all == orders@.unref(),
            side == our_side(*trade),
            pid@ == trade.name_at("propertyId"@),
            price == trade.amount_at("price"@),
            forall|k: int| 0 <= k < i ==> !rested_at(#[trigger] all[k], *trade),
        decreases orders.len() - i,
    {
        let o = orders[i];
        assert(all[i as int] == *o);
        if same(o.name_in("propertyId"), pid) && same(o.name_in("direction"), side.as_str())
            && o.amount_in("price").minus(price).absolute().is_below(half_cent_amount()) {
            return true;
        }
        i = i + 1;
    }
    false
}

fn price_trade<'a, N: Amount>(orders: &Vec<&Json<N>>, trade: &'a Json<N>) -> (r: Rebate<'a, N>)
    ensures
        r@ == rebate_of(orders@.unref(), *trade),
{
    let side = if trade.text_is("direction", Side::Buy.as_str()) {
        Side::Buy
    } else {
        Side::Sell
    };
    let fee = match side {
        Side::Buy => trade.amount_in("buyerFeeAmount"),
        Side::Sell => trade.amount_in("sellerFeeAmount"),
    };
    let our_fee = fee.over(N::of(1_000_000));
    let was_maker: bool = was_made_by_us(orders, trade, side);
    Rebate {
        trade_id: trade.get("tradeId"),
        property_id: trade.name_in("propertyId"),
        direction: side.as_str(),
        price: trade.amount_in("price"),
        quantity: trade.amount_in("quantity"),
        created_at: match trade.whole_in("createdAt") {
            Some(t) => t,
            None => 0,
        },
        our_fee,
        was_maker,
        rebate: if was_maker {
            our_fee.times(rebate_share_amount())
        } else {
            N::of(0)
        },
    }
}

/// Reconstruct maker rebates from trade history.
///
/// A trade record carries no maker flag, so it is inferred from our own orders; a
/// trade that matches none is reported as a taker's rather than credited.
pub fn rebates<'a, N: Amount>(
    trades: &Vec<&'a Json<N>>,
    orders: &Vec<&Json<N>>,
    since: Option<u64>,
) -> (r: Rebates<'a, N>)
    ensures
        r@ == rebates_of(trades@.unref(), orders@.unref(), since),
{
    let ghost all = trades@.unref();
    let ghost own = orders@.unref();
    let ghost keep = |t: Json<N>| counted(t, since);
    let ghost show = |t: Json<N>| rebate_of(own, t);
    let ghost maker = |r: RebateView<N>| r.was_maker;
    let ghost taker = |r: RebateView<N>| !r.was_maker;
    let ghost tag = |r: RebateView<N>| newest_first(r);
    let ghost view = |r: Rebate<'a, N>| r@;
    let ghost h = |p: (i128, Rebate<'a, N>)| (p.0, view(p.1));
    let ghost mut seen: Seq<RebateView<N>> = Seq::empty();
    let mut rows: Vec<(i128, Rebate<'a, N>)> = Vec::new();
    let mut total = N::of(0);
    let mut maker_fills: usize = 0;
    let mut taker_fills: usize = 0;
    let mut i: usize = 0;
    assert(all.take(0).filter(keep).map_values(show) =~= seen && seen.filter(maker).len() == 0
        && seen.filter(taker).len() == 0 && rows@.map_values(h) =~= seen.map_values(tag)) by {
        reveal(Seq::filter);
    }
    while i < trades.len()
        invariant
            i <= trades.len(),
            all == trades@.unref(),
            own == orders@.unref(),
            keep == (|t: Json<N>| counted(t, since)),
            show == (|t: Json<N>| rebate_of(own, t)),
            maker == (|r: RebateView<N>| r.was_maker),
            taker == (|r: RebateView<N>| !r.was_maker),
            tag == (|r: RebateView<N>| newest_first(r)),
            view == (|r: Rebate<'a, N>| r@),
            h == (|p: (i128, Rebate<'a, N>)| (p.0, view(p.1))),
            seen == all.take(i as int).filter(keep).map_values(show),
            rows@.map_values(h) == seen.map_values(tag),
            total == total_rebate(seen),
            maker_fills == seen.filter(maker).len(),
            taker_fills == seen.filter(taker).len(),
            maker_fills + taker_fills <= i,
        decreases trades.len() - i,
    {
        let t = trades[i];
        assert(all[i as int] == *t);
        proof {
            lemma_filter_step(all, i as int, keep);
        }
        let created: u64 = match t.whole_in("createdAt") {
            Some(at) => at,
            None => 0,
        };
        let recent: bool = match since {
            Some(c) => created >= c,
            None => true,
        };
        if recent {
            let row = price_trade(orders, t);
            let ghost next = seen.push(row@);
            proof {
                assert(all.take(i as int + 1).filter(keep).map_values(show) =~= next);
                assert(next.drop_last() =~= seen);
                assert(next.take(next.len() as int) =~= next);
                assert(next.take(seen.len() as int) =~= seen);
                lemma_filter_step(next, seen.len() as int, maker);
                lemma_filter_step(next, seen.len() as int, taker);
            }
            total = total.plus(row.rebate);
            if row.was_maker {
                maker_fills = maker_fills + 1;
            } else {
                taker_fills = taker_fills + 1;
            }
            let ghost before = rows@;
            rows.push((-(row.created_at as i128), row));
            assert(rows@.map_values(h) =~= before.map_values(h).push(newest_first(next.last())));
            assert(rows@.map_values(h) =~= next.map_values(tag));
            proof {
                seen = next;
            }
        }
        i = i + 1;
    }
    assert(all.take(trades.len() as int) =~= all);
    let ghost tagged = rows@;
    let sorted = sort_by_key(rows);
    proof {
        sorting_commutes_with_mapping(tagged, view);
        assert(values(stable_sorted(tagged).map_values(h)) =~= rebate_views(sorted@));
    }
    Rebates {
        rebate_share_of_fee: rebate_share_amount(),
        total_rebates: total,
        maker_fills,
        taker_fills,
        trades: sorted,
    }
}

pub open spec fn rebate_headings() -> Seq<Seq<char>> {
    seq!["property"@, "side"@, "price"@, "qty"@, "your fee"@, "rebate"@]
}

pub open spec fn rebate_cells<N: Amount>(r: RebateView<N>) -> Seq<CellView<N>> {
    seq![
        CellView::Text(r.property_id),
        CellView::Text(r.direction),
        CellView::Text("$"@ + r.price.fixed_text(2)),
        CellView::Number(r.quantity),
        CellView::Text("$"@ + r.our_fee.fixed_text(4)),
        CellView::Text("$"@ + r.rebate.fixed_text(4)),
    ]
}

/// The fills that earned a rebate, or a line that says there are none; then the
/// total and how many fills earned nothing.
pub open spec fn rebate_lines<N: Amount>(r: RebatesView<N>) -> Seq<LineView<N>> {
    let earners = r.trades.filter(|t: RebateView<N>| t.was_maker);
    seq![
        if earners.len() == 0 {
            LineView::Out(
                "no maker fills — rebates are paid only when YOUR order was the resting one"@,
            )
        } else {
            LineView::Table(
                TableView {
                    headings: rebate_headings(),
                    rows: earners.map_values(|t: RebateView<N>| rebate_cells(t)),
                },
            )
        },
        LineView::Note(
            "total $"@ + r.total_rebates.fixed_text(4) + " across "@ + decimal_text(r.maker_fills)
                + " maker fill(s) at "@ + r.rebate_share_of_fee.product(N::whole(100)).fixed_text(0)
                + "% of your side's fee; "@ + decimal_text(r.taker_fills)
                + " taker fill(s) earned nothing (crossing the book pays no rebate)"@,
        ),
    ]
}

fn rebate_row<'a, N: Amount>(r: &Rebate<'a, N>) -> (cells: Vec<Cell<N>>)
    ensures
        cell_views(cells@) == rebate_cells(r@),
{
    let mut cells: Vec<Cell<N>> = Vec::new();
    cells.push(Cell::Text(r.property_id.to_owned()));
    cells.push(Cell::Text(r.direction.to_owned()));
    cells.push(Cell::Text("$".to_owned().concat(&r.price.fixed(2))));
    cells.push(Cell::Number(r.quantity));
    cells.push(Cell::Text("$".to_owned().concat(&r.our_fee.fixed(4))));
    cells.push(Cell::Text("$".to_owned().concat(&r.rebate.fixed(4))));
    assert(cell_views(cells@) =~= rebate_cells(r@));
    cells
}

pub fn render_rebates<'a, N: Amount>(report: &Rebates<'a, N>) -> (r: Vec<Line<N>>)
    ensures
        line_views(r@) == rebate_lines(report@),
{
    let ghost all = rebate_views(report.trades@);
    let ghost keep = |t: RebateView<N>| t.was_maker;
    let ghost show = |t: RebateView<N>| rebate_cells(t);
    let mut rows: Vec<Vec<Cell<N>>> = Vec::new();
    let mut i: usize = 0;
    assert(row_views(rows@) =~= all.take(0).filter(keep).map_values(show)) by {
        reveal(Seq::filter);
    }
    while i < report.trades.len()
        invariant
            i <= report.trades.len(),
            all == rebate_views(report.trades@),
            keep == (|t: RebateView<N>| t.was_maker),
            show == (|t: RebateView<N>| rebate_cells(t)),
            row_views(rows@) == all.take(i as int).filter(keep).map_values(show),
        decreases report.trades.len() - i,
    {
        let t = &report.trades[i];
        assert(all[i as int] == t@);
        proof {
            lemma_filter_step(all, i as int, keep);
        }
        if t.was_maker {
            let ghost before = rows@;
            rows.push(rebate_row(t));
            assert(row_views(rows@) =~= row_views(before).push(show(t@)));
            assert(all.take(i as int + 1).filter(keep).map_values(show) =~= all.take(
                i as int,
            ).filter(keep).map_values(show).push(show(t@)));
        }
        i = i + 1;
    }
    assert(all.take(report.trades.len() as int) =~= all);
    assert(row_views(rows@).len() == rows@.len());
    let mut out: Vec<Line<N>> = Vec::new();
    if rows.len() == 0 {
        say(
            &mut out,
            Line::Out(
                "no maker fills — rebates are paid only when YOUR order was the resting one".to_owned(),
            ),
        );
    } else {
        let mut headings: Vec<String> = Vec::new();
        headings.push("property".to_owned());
        headings.push("side".to_owned());
        headings.push("price".to_owned());
        headings.push("qty".to_owned());
        headings.push("your fee".to_owned());
        headings.push("rebate".to_owned());
        assert(texts(headings@) =~= rebate_headings());
        say(&mut out, Line::Table(Table { headings, rows }));
    }
    say(
        &mut out,
        Line::Note(
            "total $".to_owned().concat(&report.total_rebates.fixed(4)).concat(" across ").concat(
                &decimal(report.maker_fills as u128),
            ).concat(" maker fill(s) at ").concat(
                &report.rebate_share_of_fee.times(N::of(100)).fixed(0),
            ).concat("% of your side's fee; ").concat(
                &decimal(report.taker_fills as u128),
            ).concat(" taker fill(s) earned nothing (crossing the book pays no rebate)"),
        ),
    );
    assert(line_views(out@) =~= rebate_lines(report@));
    out
}

} // verus!
