use vstd::prelude::*;

use crate::amount::{percent, Amount};
use crate::commands::account::breakeven::{
    ask_price, kept_share, scenarios_of, sell_fee_in_force, true_cost, SellVenue, VenueFees,
};
use crate::commands::account::coverage::{
    cover_row, cover_rows, coverage_of, exposed_row, free_to_spend, reserve, spending, uncovered_at,
    CoverRowView, CoverageView, ExposedView,
};
use crate::commands::account::rebates::{
    counted, fee_on_our_side, made_by_us, newest_first, rebate_of, rebate_rows, rebate_share,
    rebates_of, RebateView,
};
use crate::groups::{directory, directory_is_ordered_and_complete, names_at};
use crate::json::{lemma_filter_splits, with_text, Json};
use crate::micros::{clamped, divided, rounding_is_monotone, rounding_is_within_half, Micros};
use crate::sort::{
    descending, sorting_is_ordered_and_stable, sorting_keeps_the_members, stable_sorted, values,
};

verus! {

/// An order that is not active has no part in an account's coverage.
pub proof fn inactive_orders_do_not_count<N: Amount>(
    usdc: N,
    orders: Seq<Json<N>>,
    positions: Seq<Json<N>>,
    spend: Option<N>,
    o: Json<N>,
)
    requires
        o.text_at("status"@) != Some("active"@),
    ensures
        coverage_of(usdc, orders.push(o), positions, spend) == coverage_of(
            usdc,
            orders,
            positions,
            spend,
        ),
{
    reveal(Seq::filter);
    assert(orders.push(o).drop_last() =~= orders);
}

/// Every property with an active order is reported, and no other; a row is what
/// that property's own orders and holdings make it.
pub proof fn coverage_reports_every_quoted_property<N: Amount>(
    usdc: N,
    orders: Seq<Json<N>>,
    positions: Seq<Json<N>>,
    spend: Option<N>,
)
    ensures
        ({
            let active = with_text(orders, "status"@, "active"@);
            let rows = coverage_of(usdc, orders, positions, spend).properties;
            &&& rows.len() == directory(names_at(active, "propertyId"@)).len()
            &&& forall|i: int|
                0 <= i < rows.len() ==> {
                    &&& #[trigger] rows[i] == cover_row(
                        usdc,
                        active,
                        positions,
                        rows[i].property_id,
                    )
                    &&& names_at(active, "propertyId"@).contains(rows[i].property_id)
                }
            &&& forall|k: int|
                0 <= k < active.len() ==> exists|i: int|
                    0 <= i < rows.len() && (#[trigger] rows[i]).property_id == (
                    #[trigger] active[k]).name_at("propertyId"@)
        }),
{
    let active = with_text(orders, "status"@, "active"@);
    let names = names_at(active, "propertyId"@);
    let pids = directory(names);
    let by_id = cover_rows(usdc, active, positions);
    let tagged = by_id.map_values(|r: CoverRowView<N>| (descending(r.bid_usd.rank()), r));
    let sorted = stable_sorted(tagged);
    let rows = coverage_of(usdc, orders, positions, spend).properties;
    assert(rows == values(sorted));
    directory_is_ordered_and_complete(names);
    sorting_is_ordered_and_stable(tagged);
    sorting_keeps_the_members(tagged);
    assert forall|i: int| 0 <= i < rows.len() implies {
        &&& #[trigger] rows[i] == cover_row(usdc, active, positions, rows[i].property_id)
        &&& names.contains(rows[i].property_id)
    } by {
        assert(sorted.contains(sorted[i]));
        assert(tagged.contains(sorted[i]));
        let j = choose|j: int| 0 <= j < tagged.len() && tagged[j] == sorted[i];
        assert(by_id[j] == cover_row(usdc, active, positions, pids[j]));
        assert(pids.contains(pids[j]));
    }
    assert forall|k: int| 0 <= k < active.len() implies exists|i: int|
        0 <= i < rows.len() && (#[trigger] rows[i]).property_id == (#[trigger] active[k]).name_at(
            "propertyId"@,
        ) by {
        let pid = active[k].name_at("propertyId"@);
        assert(names[k] == pid);
        assert(names.contains(pid));
        assert(pids.contains(pid));
        let j = choose|j: int| 0 <= j < pids.len() && pids[j] == pid;
        assert(tagged[j].1.property_id == pid);
        assert(tagged.contains(tagged[j]));
        assert(sorted.contains(tagged[j]));
        let i = choose|i: int| 0 <= i < sorted.len() && sorted[i] == tagged[j];
        assert(rows[i] == sorted[i].1);
    }
}

/// The report lists the properties from the largest bid total to the smallest.
pub proof fn coverage_lists_the_largest_bid_first<N: Amount>(
    usdc: N,
    orders: Seq<Json<N>>,
    positions: Seq<Json<N>>,
    spend: Option<N>,
)
    ensures
        ({
            let rows = coverage_of(usdc, orders, positions, spend).properties;
            forall|i: int, j: int|
                #![trigger rows[i], rows[j]]
                0 <= i < j < rows.len() ==> rows[i].bid_usd.rank() >= rows[j].bid_usd.rank()
        }),
{
    let active = with_text(orders, "status"@, "active"@);
    let by_id = cover_rows(usdc, active, positions);
    let tagged = by_id.map_values(|r: CoverRowView<N>| (descending(r.bid_usd.rank()), r));
    let sorted = stable_sorted(tagged);
    let rows = coverage_of(usdc, orders, positions, spend).properties;
    sorting_is_ordered_and_stable(tagged);
    sorting_keeps_the_members(tagged);
    assert forall|i: int, j: int|
        #![trigger rows[i], rows[j]]
        0 <= i < j < rows.len() implies rows[i].bid_usd.rank() >= rows[j].bid_usd.rank() by {
        assert(sorted.contains(sorted[i]) && sorted.contains(sorted[j]));
        assert(tagged.contains(sorted[i]) && tagged.contains(sorted[j]));
        assert(sorted[i].0 <= sorted[j].0);
    }
}

/// The reserve is the largest bid total of a single property: no property's bids
/// exceed it, and it is one of them, or nothing when there are none.
pub proof fn reserve_is_the_largest_single_bid(rows: Seq<CoverRowView<Micros>>)
    ensures
        forall|i: int|
            0 <= i < rows.len() ==> (#[trigger] rows[i]).bid_usd.at_most(reserve(rows)),
        Micros::whole(0).at_most(reserve(rows)),
        reserve(rows) == Micros::whole(0) || exists|i: int|
            0 <= i < rows.len() && (#[trigger] rows[i]).bid_usd == reserve(rows),
    decreases rows.len(),
{
    if rows.len() > 0 {
        let head = rows.drop_last();
        reserve_is_the_largest_single_bid(head);
        assert forall|i: int| 0 <= i < rows.len() implies (#[trigger] rows[i]).bid_usd.at_most(
            reserve(rows),
        ) by {
            if i < head.len() {
                assert(head[i] == rows[i]);
            }
        }
        if reserve(rows) == reserve(head) && reserve(head) != Micros::whole(0) {
            let i = choose|i: int|
                0 <= i < head.len() && (#[trigger] head[i]).bid_usd == reserve(head);
            assert(rows[i].bid_usd == reserve(rows));
        } else if reserve(rows) != Micros::whole(0) {
            assert(rows[rows.len() - 1].bid_usd == reserve(rows));
        }
    }
}

/// While every bid is covered, spending within the free capital uncovers nothing;
/// and where something is reserved, spending more always uncovers a property.
pub proof fn free_capital_is_exactly_what_can_be_spent(
    usdc: Micros,
    rows: Seq<CoverRowView<Micros>>,
    spend: Micros,
)
    requires
        Micros::whole(0).at_most(spend),
        reserve(rows).at_most(usdc),
    ensures
        spending(usdc, rows, spend).fits ==> spending(usdc, rows, spend).uncovers.len() == 0,
        !spending(usdc, rows, spend).fits && Micros::whole(0).less(reserve(rows)) ==> spending(
            usdc,
            rows,
            spend,
        ).uncovers.len() > 0,
{
    reserve_is_the_largest_single_bid(rows);
    let after = usdc.difference(spend);
    let keep = |r: CoverRowView<Micros>| uncovered_at(r, after);
    let hit = rows.filter(keep);
    if spending(usdc, rows, spend).fits {
        if hit.len() > 0 {
            rows.lemma_filter_pred(keep, 0);
            assert(hit.contains(hit[0]));
            rows.lemma_filter_contains_rev(keep, hit[0]);
            let i = choose|i: int| 0 <= i < rows.len() && rows[i] == hit[0];
            assert(rows[i].bid_usd.at_most(reserve(rows)));
            assert(false);
        }
    } else if Micros::whole(0).less(reserve(rows)) {
        let i = choose|i: int|
            0 <= i < rows.len() && (#[trigger] rows[i]).bid_usd == reserve(rows);
        rows.lemma_filter_contains(keep, i);
    }
}

/// Trying out a spend changes nothing else in the report. It lists exactly the
/// properties whose bids the wallet would no longer cover.
pub proof fn a_spend_is_only_tried_out<N: Amount>(
    usdc: N,
    orders: Seq<Json<N>>,
    positions: Seq<Json<N>>,
    spend: N,
)
    ensures
        ({
            let base = coverage_of(usdc, orders, positions, None);
            let tried = coverage_of(usdc, orders, positions, Some(spend));
            let after = usdc.difference(spend);
            &&& base.simulation is None
            &&& tried == (CoverageView { simulation: tried.simulation, ..base })
            &&& tried.simulation matches Some(sim) && {
                &&& sim.spend == spend
                &&& sim.wallet_after == after
                &&& sim.fits == spend.at_most(base.free_usdc)
                &&& forall|x: ExposedView<N>| #[trigger]
                    sim.uncovers.contains(x) <==> exists|i: int|
                        0 <= i < base.properties.len() && exposed_row(
                            #[trigger] base.properties[i],
                        ) == x && uncovered_at(base.properties[i], after)
            }
        }),
{
    let base = coverage_of(usdc, orders, positions, None);
    let tried = coverage_of(usdc, orders, positions, Some(spend));
    let after = usdc.difference(spend);
    let rows = cover_rows(usdc, with_text(orders, "status"@, "active"@), positions);
    let tagged = rows.map_values(|r: CoverRowView<N>| (descending(r.bid_usd.rank()), r));
    let sorted = stable_sorted(tagged);
    let listed = base.properties;
    let keep = |r: CoverRowView<N>| uncovered_at(r, after);
    let hit = rows.filter(keep);
    let sim = tried.simulation->0;
    sorting_keeps_the_members(tagged);
    assert(tried == (CoverageView { simulation: tried.simulation, ..base }));
    assert forall|x: ExposedView<N>| #[trigger] sim.uncovers.contains(x) <==> exists|i: int|
        0 <= i < listed.len() && exposed_row(#[trigger] listed[i]) == x && uncovered_at(
            listed[i],
            after,
        ) by {
        if sim.uncovers.contains(x) {
            let k = choose|k: int| 0 <= k < sim.uncovers.len() && sim.uncovers[k] == x;
            assert(hit.contains(hit[k]));
            rows.lemma_filter_pred(keep, k);
            rows.lemma_filter_contains_rev(keep, hit[k]);
            let j = choose|j: int| 0 <= j < rows.len() && rows[j] == hit[k];
            assert(tagged.contains(tagged[j]));
            assert(sorted.contains(tagged[j]));
            let i = choose|i: int| 0 <= i < sorted.len() && sorted[i] == tagged[j];
            assert(listed[i] == rows[j]);
        }
        if exists|i: int|
            0 <= i < listed.len() && exposed_row(#[trigger] listed[i]) == x && uncovered_at(
                listed[i],
                after,
            ) {
            let i = choose|i: int|
                0 <= i < listed.len() && exposed_row(#[trigger] listed[i]) == x && uncovered_at(
                    listed[i],
                    after,
                );
            assert(sorted.contains(sorted[i]));
            assert(tagged.contains(sorted[i]));
            let j = choose|j: int| 0 <= j < tagged.len() && tagged[j] == sorted[i];
            rows.lemma_filter_contains(keep, j);
            let k = choose|k: int| 0 <= k < hit.len() && hit[k] == rows[j];
            assert(sim.uncovers[k] == x);
        }
    }
}

/// While no bid is uncovered, a spend that fits uncovers none.
pub proof fn a_spend_that_fits_uncovers_nothing(
    usdc: Micros,
    orders: Seq<Json<Micros>>,
    positions: Seq<Json<Micros>>,
    spend: Micros,
)
    requires
        Micros::whole(0).at_most(spend),
        coverage_of(usdc, orders, positions, None).uncovered_bids == 0,
    ensures
        ({
            let sim = coverage_of(usdc, orders, positions, Some(spend)).simulation->0;
            sim.fits ==> sim.uncovers.len() == 0
        }),
{
    let rows = cover_rows(usdc, with_text(orders, "status"@, "active"@), positions);
    let after = usdc.difference(spend);
    let keep = |r: CoverRowView<Micros>| uncovered_at(r, after);
    let bare = |r: CoverRowView<Micros>| !r.bid_covered;
    let hit = rows.filter(keep);
    reserve_is_the_largest_single_bid(rows);
    if spending(usdc, rows, spend).fits && hit.len() > 0 {
        rows.lemma_filter_pred(keep, 0);
        assert(hit.contains(hit[0]));
        rows.lemma_filter_contains_rev(keep, hit[0]);
        let i = choose|i: int| 0 <= i < rows.len() && rows[i] == hit[0];
        assert(rows[i].bid_usd.at_most(reserve(rows)));
        if !reserve(rows).at_most(usdc) {
            let j = choose|j: int|
                0 <= j < rows.len() && (#[trigger] rows[j]).bid_usd == reserve(rows);
            rows.lemma_filter_contains(bare, j);
            assert(false);
        }
        assert(false);
    }
}

/// The free capital is never negative, and never more than a wallet that is not
/// overdrawn holds.
pub proof fn free_capital_stays_within_the_wallet(
    usdc: Micros,
    rows: Seq<CoverRowView<Micros>>,
)
    ensures
        Micros::whole(0).at_most(free_to_spend(usdc, rows)),
        Micros::whole(0).at_most(usdc) ==> free_to_spend(usdc, rows).at_most(usdc),
{
    reserve_is_the_largest_single_bid(rows);
}

/// A taker's fill earns nothing, whatever its fee; a maker's earns its share of
/// the fee on our side.
pub proof fn only_resting_orders_earn_rebates<N: Amount>(orders: Seq<Json<N>>, trade: Json<N>)
    ensures
        !made_by_us(orders, trade) ==> rebate_of(orders, trade).rebate == N::whole(0),
        made_by_us(orders, trade) ==> rebate_of(orders, trade).rebate == fee_on_our_side(
            trade,
        ).product(rebate_share()),
{
}

/// Every counted trade is a maker's or a taker's fill, never both.
pub proof fn fills_are_makers_or_takers<N: Amount>(
    trades: Seq<Json<N>>,
    orders: Seq<Json<N>>,
    since: Option<u64>,
)
    ensures
        ({
            let r = rebates_of(trades, orders, since);
            &&& r.maker_fills + r.taker_fills == r.trades.len()
            &&& r.trades.len() == trades.filter(|t: Json<N>| counted(t, since)).len()
        }),
{
    let rows = rebate_rows(trades, orders, since);
    lemma_filter_splits(rows, |r: RebateView<N>| r.was_maker, |r: RebateView<N>| !r.was_maker);
    sorting_is_ordered_and_stable(
        rows.map_values(
            |r: RebateView<N>| newest_first(r),
        ),
    );
}

/// The trades are listed newest first.
pub proof fn rebates_list_the_newest_first<N: Amount>(
    trades: Seq<Json<N>>,
    orders: Seq<Json<N>>,
    since: Option<u64>,
)
    ensures
        ({
            let rows = rebates_of(trades, orders, since).trades;
            forall|i: int, j: int|
                #![trigger rows[i], rows[j]]
                0 <= i < j < rows.len() ==> rows[i].created_at >= rows[j].created_at
        }),
{
    let by_trade = rebate_rows(trades, orders, since);
    let tag = |r: RebateView<N>| newest_first(r);
    let tagged = by_trade.map_values(tag);
    let sorted = stable_sorted(tagged);
    let rows = rebates_of(trades, orders, since).trades;
    sorting_is_ordered_and_stable(tagged);
    sorting_keeps_the_members(tagged);
    let kept = trades.filter(|t: Json<N>| counted(t, since));
    assert forall|i: int, j: int|
        #![trigger rows[i], rows[j]]
        0 <= i < j < rows.len() implies rows[i].created_at >= rows[j].created_at by {
        assert(sorted.contains(sorted[i]) && sorted.contains(sorted[j]));
        assert(tagged.contains(sorted[i]) && tagged.contains(sorted[j]));
        let a = choose|a: int| 0 <= a < tagged.len() && tagged[a] == sorted[i];
        let b = choose|b: int| 0 <= b < tagged.len() && tagged[b] == sorted[j];
        assert(tagged[a] == tag(by_trade[a]) && tagged[b] == tag(by_trade[b]));
        assert(by_trade[a] == rebate_of(orders, kept[a]));
        assert(by_trade[b] == rebate_of(orders, kept[b]));
        assert(sorted[i].0 <= sorted[j].0);
    }
}

/// A position without a known sell fee, or without any known buy fee, is not
/// priced at all rather than priced wrongly.
pub proof fn unknown_fees_price_nothing<N: Amount>(
    cost_basis: N,
    fees: VenueFees<N>,
    margin_pct: N,
    venue: SellVenue,
    buy_fee: Option<N>,
    sell_fee: Option<N>,
)
    requires
        sell_fee_in_force(fees, venue, sell_fee) is None || (buy_fee is None && fees.amm_buy is None
            && fees.book_buy is None),
    ensures
        scenarios_of(
            cost_basis,
            fees,
            margin_pct,
            buy_fee,
            sell_fee_in_force(fees, venue, sell_fee),
        ).len() == 0,
{
}

/// Selling at the asked price nets the true cost and the margin once the sell fee
/// is paid, to within one millionth.
pub proof fn the_ask_nets_its_target(
    cost_basis: Micros,
    buy_fee_pct: Micros,
    sell_fee_pct: Micros,
    margin_pct: Micros,
)
    requires
        Micros::whole(0).at_most(sell_fee_pct),
        Micros::whole(0).less(kept_share(sell_fee_pct)),
        ask_price(cost_basis, buy_fee_pct, sell_fee_pct, margin_pct).finite(),
    ensures
        ({
            let target = true_cost(cost_basis, buy_fee_pct).product(
                Micros::whole(1).sum(percent(margin_pct)),
            );
            let ask = ask_price(cost_basis, buy_fee_pct, sell_fee_pct, margin_pct);
            let proceeds = ask.product(kept_share(sell_fee_pct));
            -1 <= proceeds.units - target.units <= 1
        }),
{
    let target = true_cost(cost_basis, buy_fee_pct).product(
        Micros::whole(1).sum(percent(margin_pct)),
    );
    let ask = ask_price(cost_basis, buy_fee_pct, sell_fee_pct, margin_pct);
    let t = target.units as int;
    let k = kept_share(sell_fee_pct).units as int;
    let a = ask.units as int;
    rounding_is_monotone(0, sell_fee_pct.units * 1_000_000, 100_000_000);
    assert(0 < k <= 1_000_000);
    assert(a == divided(t * 1_000_000, k));
    rounding_is_within_half(t * 1_000_000, k);
    rounding_is_within_half(a * k, 1_000_000);
    let p = divided(a * k, 1_000_000);
    assert(-1 <= p - t <= 1);
    assert(ask.product(kept_share(sell_fee_pct)).units == clamped(p));
}

/// A dearer acquisition never has a lower break-even price.
pub proof fn a_dearer_acquisition_needs_a_higher_exit(
    cost_basis: Micros,
    less_fee: Micros,
    more_fee: Micros,
    sell_fee_pct: Micros,
    margin_pct: Micros,
)
    requires
        Micros::whole(0).at_most(cost_basis),
        Micros::whole(0).at_most(margin_pct),
        less_fee.at_most(more_fee),
    ensures
        ask_price(cost_basis, less_fee, sell_fee_pct, margin_pct).at_most(
            ask_price(cost_basis, more_fee, sell_fee_pct, margin_pct),
        ),
{
    let c = cost_basis.units as int;
    let fx = Micros::whole(1).sum(percent(less_fee));
    let fy = Micros::whole(1).sum(percent(more_fee));
    rounding_is_monotone(less_fee.units * 1_000_000, more_fee.units * 1_000_000, 100_000_000);
    assert(fx.units <= fy.units);
    assert(c * fx.units <= c * fy.units) by (nonlinear_arith)
        requires
            0 <= c,
            fx.units <= fy.units,
    ;
    rounding_is_monotone(c * fx.units, c * fy.units, 1_000_000);
    let tx = true_cost(cost_basis, less_fee).units as int;
    let ty = true_cost(cost_basis, more_fee).units as int;
    assert(tx <= ty);
    let m = Micros::whole(1).sum(percent(margin_pct)).units as int;
    rounding_is_monotone(0, margin_pct.units * 1_000_000, 100_000_000);
    assert(0 <= m);
    assert(tx * m <= ty * m) by (nonlinear_arith)
        requires
            0 <= m,
            tx <= ty,
    ;
    rounding_is_monotone(tx * m, ty * m, 1_000_000);
    let k = kept_share(sell_fee_pct).units as int;
    if k > 0 {
        let ux = true_cost(cost_basis, less_fee).product(
            Micros::whole(1).sum(percent(margin_pct)),
        ).units as int;
        let uy = true_cost(cost_basis, more_fee).product(
            Micros::whole(1).sum(percent(margin_pct)),
        ).units as int;
        assert(ux <= uy);
        rounding_is_monotone(ux * 1_000_000, uy * 1_000_000, k);
    }
}

} // verus!
