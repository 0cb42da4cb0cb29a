use vstd::prelude::*;

use crate::amount::Amount;
use crate::commands::account::coverage::{
    cover_row, cover_rows, coverage_of, exposure, holding, CoverRowView, ExposedView,
};
use crate::commands::account::laws::{
    a_spend_is_only_tried_out, coverage_reports_every_quoted_property,
    reserve_is_the_largest_single_bid,
};
use crate::commands::account::rebates::{
    counted, newest_first, rebate_of, rebate_rows, rebates_of, rested_at, total_rebate, RebateView,
};
use crate::commands::account::trades_query_of;
use crate::commands::quote::placing::{directed, orders_are_added_up};
use crate::commands::quote::plan::orders_on;
use crate::commands::quote::Side;
use crate::groups::{a_name_nobody_carries_has_no_item, named, the_last_of_a_name_counts};
use crate::json::{with_text, Json};
use crate::micros::{multiples_divide_exactly, rounding_is_within_half, Micros};
use crate::sort::{
    descending, sorting_keeps_the_items, sorting_keeps_the_members, stable_sorted, values,
};
use crate::tally::{
    a_tally_has_no_order, added_up, lemma_tally_compares, lemma_tally_counts, lemma_tally_of_map,
    tally,
};
use crate::text::decimal_text;

verus! {

/// What is held of a property is what the last position of its name says.
pub proof fn the_last_position_says_what_is_held<N: Amount>(
    positions: Seq<Json<N>>,
    pid: Seq<char>,
    k: int,
)
    requires
        0 <= k < positions.len(),
        positions[k].name_at("propertyId"@) == pid,
        forall|j: int| k < j < positions.len() ==> (#[trigger] positions[j]).name_at("propertyId"@)
            != pid,
    ensures
        holding(positions, pid) == positions[k].amount_at("currentTokens"@),
{
    the_last_of_a_name_counts(positions, "propertyId"@, pid, k);
}

/// Nothing is held of a property that no position names.
pub proof fn nothing_is_held_without_a_position<N: Amount>(positions: Seq<Json<N>>, pid: Seq<char>)
    requires
        forall|j: int| 0 <= j < positions.len() ==> (#[trigger] positions[j]).name_at("propertyId"@)
            != pid,
    ensures
        holding(positions, pid) == N::whole(0),
{
    a_name_nobody_carries_has_no_item(positions, "propertyId"@, pid);
}

/// A row holds one property's figures: the cost of its active bids added up, held
/// against the wallet, and the tokens of its active asks added up, held against the
/// tokens we have of it.
pub proof fn a_row_is_one_propertys_figures<N: Amount>(
    usdc: N,
    orders: Seq<Json<N>>,
    positions: Seq<Json<N>>,
    spend: Option<N>,
    i: int,
)
    requires
        0 <= i < coverage_of(usdc, orders, positions, spend).properties.len(),
    ensures
        ({
            let row = coverage_of(usdc, orders, positions, spend).properties[i];
            let ours = orders.filter(
                |o: Json<N>| o.text_at("status"@) == Some("active"@),
            ).filter(|o: Json<N>| o.name_at("propertyId"@) == row.property_id);
            &&& ours.len() > 0
            &&& row.bid_usd == added_up(
                directed(ours, "buy"@),
                |o: Json<N>| o.amount_at("price"@).product(o.amount_at("quantity"@)),
            )
            &&& row.bid_covered <==> row.bid_usd.at_most(usdc)
            &&& row.ask_qty == added_up(
                directed(ours, "sell"@),
                |o: Json<N>| o.amount_at("quantity"@),
            )
            &&& row.held_tokens == holding(positions, row.property_id)
            &&& row.ask_covered <==> row.ask_qty.at_most(row.held_tokens)
        }),
{
    coverage_reports_every_quoted_property(usdc, orders, positions, spend);
    let row = coverage_of(usdc, orders, positions, spend).properties[i];
    let active = with_text(orders, "status"@, "active"@);
    let keep = |o: Json<N>| o.name_at("propertyId"@) == row.property_id;
    let ours = active.filter(keep);
    assert(active == orders.filter(|o: Json<N>| o.text_at("status"@) == Some("active"@)));
    assert(ours == named(active, "propertyId"@, row.property_id));
    assert(row == cover_row(usdc, active, positions, row.property_id));
    assert(orders_on(ours, Side::Buy) == directed(ours, "buy"@));
    assert(orders_on(ours, Side::Sell) == directed(ours, "sell"@));
    orders_are_added_up(orders_on(ours, Side::Buy));
    orders_are_added_up(orders_on(ours, Side::Sell));
    let names = crate::groups::names_at(active, "propertyId"@);
    let k = choose|k: int| 0 <= k < names.len() && names[k] == row.property_id;
    assert(keep(active[k]));
    active.lemma_filter_contains(keep, k);
}

proof fn lemma_report_keeps_rows<N: Amount>(
    usdc: N,
    orders: Seq<Json<N>>,
    positions: Seq<Json<N>>,
    spend: Option<N>,
    w: spec_fn(CoverRowView<N>) -> int,
)
    ensures
        ({
            let rows = cover_rows(usdc, with_text(orders, "status"@, "active"@), positions);
            let listed = coverage_of(usdc, orders, positions, spend).properties;
            &&& tally(listed, w) == tally(rows, w)
            &&& forall|r: CoverRowView<N>| #[trigger] listed.contains(r) <==> rows.contains(r)
        }),
{
    let rows = cover_rows(usdc, with_text(orders, "status"@, "active"@), positions);
    let listed = coverage_of(usdc, orders, positions, spend).properties;
    let tag = |r: CoverRowView<N>| (descending(r.bid_usd.rank()), r);
    let untag = |p: (i128, CoverRowView<N>)| p.1;
    let tagged = rows.map_values(tag);
    let sorted = stable_sorted(tagged);
    let by_tag = |p: (i128, CoverRowView<N>)| w(untag(p));
    let back = |r: CoverRowView<N>| by_tag(tag(r));
    assert(listed == values(sorted));
    sorting_keeps_the_items(tagged);
    sorting_keeps_the_members(tagged);
    a_tally_has_no_order(sorted, tagged, by_tag);
    lemma_tally_of_map(sorted, untag, w);
    lemma_tally_of_map(rows, tag, by_tag);
    lemma_tally_compares(rows, back, w);
    assert forall|r: CoverRowView<N>| #[trigger] listed.contains(r) <==> rows.contains(r) by {
        if listed.contains(r) {
            let i = choose|i: int| 0 <= i < listed.len() && listed[i] == r;
            assert(sorted.contains(sorted[i]));
            assert(tagged.contains(sorted[i]));
            let j = choose|j: int| 0 <= j < tagged.len() && tagged[j] == sorted[i];
            assert(rows[j] == r);
        }
        if rows.contains(r) {
            let j = choose|j: int| 0 <= j < rows.len() && rows[j] == r;
            assert(tagged.contains(tagged[j]));
            assert(sorted.contains(tagged[j]));
            let i = choose|i: int| 0 <= i < sorted.len() && sorted[i] == tagged[j];
            assert(listed[i] == r);
        }
    }
}

/// The report counts its own rows: those whose bids the wallet does not cover, and
/// those whose asks are not held. What is free is the wallet less the reserve, never
/// below nothing, and the account is over-committed when all bids together exceed the
/// wallet.
pub proof fn the_report_counts_its_rows<N: Amount>(
    usdc: N,
    orders: Seq<Json<N>>,
    positions: Seq<Json<N>>,
    spend: Option<N>,
)
    ensures
        ({
            let c = coverage_of(usdc, orders, positions, spend);
            &&& c.wallet_usdc == usdc
            &&& c.free_usdc == usdc.difference(c.reserved_usdc).greater(N::whole(0))
            &&& c.over_committed <==> usdc.less(c.bid_exposure_usdc)
            &&& c.uncovered_bids == c.properties.filter(
                |r: CoverRowView<N>| !r.bid_usd.at_most(usdc),
            ).len()
            &&& c.uncovered_asks == c.properties.filter(
                |r: CoverRowView<N>| !r.ask_qty.at_most(r.held_tokens),
            ).len()
            &&& c.simulation is Some <==> spend is Some
        }),
{
    let c = coverage_of(usdc, orders, positions, spend);
    let rows = cover_rows(usdc, with_text(orders, "status"@, "active"@), positions);
    let bare = |r: CoverRowView<N>| !r.bid_covered;
    let short = |r: CoverRowView<N>| !r.ask_covered;
    let unpaid = |r: CoverRowView<N>| !r.bid_usd.at_most(usdc);
    let unheld = |r: CoverRowView<N>| !r.ask_qty.at_most(r.held_tokens);
    let a = |r: CoverRowView<N>|
        if bare(r) {
            1int
        } else {
            0int
        };
    let b = |r: CoverRowView<N>|
        if short(r) {
            1int
        } else {
            0int
        };
    let x = |r: CoverRowView<N>|
        if unpaid(r) {
            1int
        } else {
            0int
        };
    let y = |r: CoverRowView<N>|
        if unheld(r) {
            1int
        } else {
            0int
        };
    lemma_report_keeps_rows(usdc, orders, positions, spend, a);
    lemma_report_keeps_rows(usdc, orders, positions, spend, b);
    lemma_tally_counts(rows, bare);
    lemma_tally_counts(rows, short);
    lemma_tally_counts(c.properties, unpaid);
    lemma_tally_counts(c.properties, unheld);
    assert forall|i: int| 0 <= i < c.properties.len() implies a(#[trigger] c.properties[i]) == x(
        c.properties[i],
    ) && b(c.properties[i]) == y(c.properties[i]) by {
        a_row_is_one_propertys_figures(usdc, orders, positions, spend, i);
    }
    lemma_tally_compares(c.properties, a, x);
    lemma_tally_compares(c.properties, b, y);
}

/// The reserve is the largest bid total of a property in the report: none of them
/// exceeds it, and it is one of them, or nothing where none is positive.
pub proof fn the_reserve_is_the_largest_bid_listed(
    usdc: Micros,
    orders: Seq<Json<Micros>>,
    positions: Seq<Json<Micros>>,
    spend: Option<Micros>,
)
    ensures
        ({
            let c = coverage_of(usdc, orders, positions, spend);
            &&& forall|i: int|
                0 <= i < c.properties.len() ==> (#[trigger] c.properties[i]).bid_usd.units
                    <= c.reserved_usdc.units
            &&& 0 <= c.reserved_usdc.units
            &&& c.reserved_usdc.units == 0 || exists|i: int|
                0 <= i < c.properties.len() && (#[trigger] c.properties[i]).bid_usd
                    == c.reserved_usdc
        }),
{
    let c = coverage_of(usdc, orders, positions, spend);
    let rows = cover_rows(usdc, with_text(orders, "status"@, "active"@), positions);
    reserve_is_the_largest_single_bid(rows);
    lemma_report_keeps_rows(usdc, orders, positions, spend, |r: CoverRowView<Micros>| 0int);
    assert forall|i: int| 0 <= i < c.properties.len() implies (
    #[trigger] c.properties[i]).bid_usd.units <= c.reserved_usdc.units by {
        assert(c.properties.contains(c.properties[i]));
        let j = choose|j: int| 0 <= j < rows.len() && rows[j] == c.properties[i];
        assert(rows[j].bid_usd.at_most(c.reserved_usdc));
    }
    if c.reserved_usdc.units != 0 {
        let j = choose|j: int|
            0 <= j < rows.len() && (#[trigger] rows[j]).bid_usd == c.reserved_usdc;
        assert(rows.contains(rows[j]));
        assert(c.properties.contains(rows[j]));
        let i = choose|i: int| 0 <= i < c.properties.len() && c.properties[i] == rows[j];
        assert(c.properties[i].bid_usd == c.reserved_usdc);
    }
}

proof fn lemma_exposure_is_exact(rows: Seq<CoverRowView<Micros>>)
    requires
        forall|i: int| 0 <= i < rows.len() ==> 0 <= (#[trigger] rows[i]).bid_usd.units,
        tally(rows, |r: CoverRowView<Micros>| r.bid_usd.units as int) <= i64::MAX,
    ensures
        exposure(rows).units == tally(rows, |r: CoverRowView<Micros>| r.bid_usd.units as int),
        0 <= exposure(rows).units,
    decreases rows.len(),
{
    if rows.len() > 0 {
        let head = rows.drop_last();
        assert forall|i: int| 0 <= i < head.len() implies 0 <= (
        #[trigger] head[i]).bid_usd.units by {
            assert(head[i] == rows[i]);
        }
        assert(0 <= rows[rows.len() - 1].bid_usd.units);
        lemma_exposure_is_exact(head);
    }
}

/// The exposure is what all the bids of the report cost together.
pub proof fn the_exposure_is_every_bid_listed(
    usdc: Micros,
    orders: Seq<Json<Micros>>,
    positions: Seq<Json<Micros>>,
    spend: Option<Micros>,
)
    requires
        ({
            let listed = coverage_of(usdc, orders, positions, spend).properties;
            &&& forall|i: int| 0 <= i < listed.len() ==> 0 <= (#[trigger] listed[i]).bid_usd.units
            &&& tally(listed, |r: CoverRowView<Micros>| r.bid_usd.units as int) <= i64::MAX
        }),
    ensures
        ({
            let c = coverage_of(usdc, orders, positions, spend);
            c.bid_exposure_usdc.units == tally(
                c.properties,
                |r: CoverRowView<Micros>| r.bid_usd.units as int,
            )
        }),
{
    let c = coverage_of(usdc, orders, positions, spend);
    let rows = cover_rows(usdc, with_text(orders, "status"@, "active"@), positions);
    lemma_report_keeps_rows(
        usdc,
        orders,
        positions,
        spend,
        |r: CoverRowView<Micros>| r.bid_usd.units as int,
    );
    assert forall|i: int| 0 <= i < rows.len() implies 0 <= (#[trigger] rows[i]).bid_usd.units by {
        assert(rows.contains(rows[i]));
        assert(c.properties.contains(rows[i]));
        let j = choose|j: int| 0 <= j < c.properties.len() && c.properties[j] == rows[i];
        assert(0 <= c.properties[j].bid_usd.units);
    }
    lemma_exposure_is_exact(rows);
}

/// A spend that is tried out leaves the wallet less the spend, fits exactly when it is
/// no more than what is free, and uncovers exactly the properties whose bids cost
/// something and more than what is left.
pub proof fn a_spend_uncovers_what_it_leaves_unpaid<N: Amount>(
    usdc: N,
    orders: Seq<Json<N>>,
    positions: Seq<Json<N>>,
    spend: N,
    pid: Seq<char>,
    bid_usd: N,
)
    ensures
        coverage_of(usdc, orders, positions, Some(spend)).simulation matches Some(sim) && {
            let listed = coverage_of(usdc, orders, positions, Some(spend)).properties;
            &&& sim.spend == spend
            &&& sim.wallet_after == usdc.difference(spend)
            &&& sim.fits <==> spend.at_most(
                coverage_of(usdc, orders, positions, Some(spend)).free_usdc,
            )
            &&& sim.uncovers.contains((ExposedView { property_id: pid, bid_usd })) <==> {
                &&& exists|i: int|
                    0 <= i < listed.len() && (#[trigger] listed[i]).property_id == pid
                        && listed[i].bid_usd == bid_usd
                &&& N::whole(0).less(bid_usd)
                &&& usdc.difference(spend).less(bid_usd)
            }
        },
{
    a_spend_is_only_tried_out(usdc, orders, positions, spend);
    let base = coverage_of(usdc, orders, positions, None);
    let listed = coverage_of(usdc, orders, positions, Some(spend)).properties;
    assert(listed == base.properties);
    let x = ExposedView { property_id: pid, bid_usd };
    let sim = coverage_of(usdc, orders, positions, Some(spend)).simulation->0;
    assert(sim.uncovers.contains(x) <==> exists|i: int|
        0 <= i < base.properties.len() && crate::commands::account::coverage::exposed_row(
            #[trigger] base.properties[i],
        ) == x && crate::commands::account::coverage::uncovered_at(
            base.properties[i],
            usdc.difference(spend),
        ));
    if exists|i: int|
        0 <= i < listed.len() && (#[trigger] listed[i]).property_id == pid && listed[i].bid_usd
            == bid_usd {
        let i = choose|i: int|
            0 <= i < listed.len() && (#[trigger] listed[i]).property_id == pid && listed[i].bid_usd
                == bid_usd;
        assert(crate::commands::account::coverage::exposed_row(base.properties[i]) == x);
    }
}

/// What a trade of ours is told as. Its side is a buy when it says so and else a sell;
/// the fee is that of our side of it, published in millionths. It was a maker's
/// exactly when an order of ours of that property and that side is priced within half
/// a cent of it, and then half the fee comes back; else nothing does.
pub proof fn a_fill_is_told_as_it_was<N: Amount>(orders: Seq<Json<N>>, trade: Json<N>)
    ensures
        ({
            let r = rebate_of(orders, trade);
            let buying = trade.text_at("direction"@) == Some("buy"@);
            &&& r.trade_id == trade.member("tradeId"@)
            &&& r.property_id == trade.name_at("propertyId"@)
            &&& r.direction == if buying {
                "buy"@
            } else {
                "sell"@
            }
            &&& r.price == trade.amount_at("price"@)
            &&& r.quantity == trade.amount_at("quantity"@)
            &&& trade.whole_at("createdAt"@) matches Some(t) ==> r.created_at == t
            &&& trade.whole_at("createdAt"@) is None ==> r.created_at == 0
            &&& buying ==> r.our_fee == trade.amount_at("buyerFeeAmount"@).quotient(
                N::whole(1_000_000),
            )
            &&& !buying ==> r.our_fee == trade.amount_at("sellerFeeAmount"@).quotient(
                N::whole(1_000_000),
            )
            &&& r.was_maker <==> exists|i: int|
                0 <= i < orders.len() && (#[trigger] orders[i]).name_at("propertyId"@)
                    == r.property_id && orders[i].name_at("direction"@) == r.direction
                    && orders[i].amount_at("price"@).difference(r.price).magnitude().less(
                    N::whole(5).quotient(N::whole(1000)),
                )
            &&& r.was_maker ==> r.rebate == r.our_fee.product(N::whole(1).quotient(N::whole(2)))
            &&& !r.was_maker ==> r.rebate == N::whole(0)
        }),
{
    let r = rebate_of(orders, trade);
    if r.was_maker {
        let i = choose|i: int| 0 <= i < orders.len() && rested_at(#[trigger] orders[i], trade);
        assert(orders[i].name_at("propertyId"@) == r.property_id);
    }
    if exists|i: int|
        0 <= i < orders.len() && (#[trigger] orders[i]).name_at("propertyId"@) == r.property_id
            && orders[i].name_at("direction"@) == r.direction && orders[i].amount_at(
            "price"@,
        ).difference(r.price).magnitude().less(N::whole(5).quotient(N::whole(1000))) {
        let i = choose|i: int|
            0 <= i < orders.len() && (#[trigger] orders[i]).name_at("propertyId"@) == r.property_id
                && orders[i].name_at("direction"@) == r.direction && orders[i].amount_at(
                "price"@,
            ).difference(r.price).magnitude().less(N::whole(5).quotient(N::whole(1000)));
        assert(rested_at(orders[i], trade));
    }
}

/// A maker gets half of the fee back, to the millionth.
pub proof fn a_maker_gets_half_the_fee_back(orders: Seq<Json<Micros>>, trade: Json<Micros>)
    ensures
        ({
            let r = rebate_of(orders, trade);
            r.was_maker ==> -1 <= 2 * r.rebate.units - r.our_fee.units <= 1
        }),
{
    let fee = rebate_of(orders, trade).our_fee.units as int;
    assert(Micros::whole(1).quotient(Micros::whole(2)).units == 500_000) by {
        assert(1_000_000int * 1_000_000 == 500_000int * 2_000_000);
        multiples_divide_exactly(500_000, 2_000_000);
    }
    rounding_is_within_half(fee * 500_000, 1_000_000);
}

/// The trades listed are exactly those made at or after the given time, or all of them
/// without one, and the totals are over them: the rebates added up as the trades came,
/// and how many of them were a maker's and how many were not.
pub proof fn every_recent_fill_is_listed<N: Amount>(
    trades: Seq<Json<N>>,
    orders: Seq<Json<N>>,
    since: Option<u64>,
    x: RebateView<N>,
)
    ensures
        ({
            let r = rebates_of(trades, orders, since);
            let made = |t: Json<N>|
                match t.whole_at("createdAt"@) {
                    Some(at) => at as int,
                    None => 0,
                };
            let recent = |t: Json<N>| since is None || made(t) >= since->0;
            &&& r.trades.contains(x) <==> exists|i: int|
                0 <= i < trades.len() && recent(#[trigger] trades[i]) && rebate_of(
                    orders,
                    trades[i],
                ) == x
            &&& r.total_rebates == added_up(
                trades.filter(recent),
                |t: Json<N>| rebate_of(orders, t).rebate,
            )
            &&& r.rebate_share_of_fee == N::whole(1).quotient(N::whole(2))
            &&& r.maker_fills == r.trades.filter(|t: RebateView<N>| t.was_maker).len()
            &&& r.taker_fills == r.trades.filter(|t: RebateView<N>| !t.was_maker).len()
        }),
{
    let r = rebates_of(trades, orders, since);
    let rows = rebate_rows(trades, orders, since);
    let made = |t: Json<N>|
        match t.whole_at("createdAt"@) {
            Some(at) => at as int,
            None => 0,
        };
    let recent = |t: Json<N>| since is None || made(t) >= since->0;
    let keep = |t: Json<N>| counted(t, since);
    let show = |t: Json<N>| rebate_of(orders, t);
    assert(recent =~= keep);
    let kept = trades.filter(keep);
    let tag = |r: RebateView<N>| newest_first(r);
    let untag = |p: (i128, RebateView<N>)| p.1;
    let tagged = rows.map_values(tag);
    let sorted = stable_sorted(tagged);
    assert(r.trades == values(sorted));
    sorting_keeps_the_members(tagged);
    sorting_keeps_the_items(tagged);
    if r.trades.contains(x) {
        let k = choose|k: int| 0 <= k < r.trades.len() && r.trades[k] == x;
        assert(sorted.contains(sorted[k]));
        assert(tagged.contains(sorted[k]));
        let j = choose|j: int| 0 <= j < tagged.len() && tagged[j] == sorted[k];
        assert(rows[j] == x);
        assert(kept.contains(kept[j]));
        trades.lemma_filter_pred(keep, j);
        trades.lemma_filter_contains_rev(keep, kept[j]);
        let i = choose|i: int| 0 <= i < trades.len() && trades[i] == kept[j];
        assert(recent(trades[i]) && rebate_of(orders, trades[i]) == x);
    }
    if exists|i: int|
        0 <= i < trades.len() && recent(#[trigger] trades[i]) && rebate_of(orders, trades[i]) == x {
        let i = choose|i: int|
            0 <= i < trades.len() && recent(#[trigger] trades[i]) && rebate_of(orders, trades[i])
                == x;
        trades.lemma_filter_contains(keep, i);
        let j = choose|j: int| 0 <= j < kept.len() && kept[j] == trades[i];
        assert(rows[j] == show(kept[j]));
        assert(tagged.contains(tagged[j]));
        assert(sorted.contains(tagged[j]));
        let k = choose|k: int| 0 <= k < sorted.len() && sorted[k] == tagged[j];
        assert(r.trades[k] == x);
    }
    lemma_rebates_are_added_up(kept, orders);
    lemma_fills_are_counted(rows, true);
    lemma_fills_are_counted(rows, false);
    assert(rows.filter(|r: RebateView<N>| r.was_maker == true).len() == rows.filter(
        |r: RebateView<N>| r.was_maker,
    ).len()) by {
        assert((|r: RebateView<N>| r.was_maker == true) =~= (|r: RebateView<N>| r.was_maker));
    }
    assert(rows.filter(|r: RebateView<N>| r.was_maker == false).len() == rows.filter(
        |r: RebateView<N>| !r.was_maker,
    ).len()) by {
        assert((|r: RebateView<N>| r.was_maker == false) =~= (|r: RebateView<N>| !r.was_maker));
    }
    assert(r.trades.filter(|r: RebateView<N>| r.was_maker == true).len() == r.trades.filter(
        |t: RebateView<N>| t.was_maker,
    ).len()) by {
        assert((|r: RebateView<N>| r.was_maker == true) =~= (|t: RebateView<N>| t.was_maker));
    }
    assert(r.trades.filter(|r: RebateView<N>| r.was_maker == false).len() == r.trades.filter(
        |t: RebateView<N>| !t.was_maker,
    ).len()) by {
        assert((|r: RebateView<N>| r.was_maker == false) =~= (|t: RebateView<N>| !t.was_maker));
    }
}

proof fn lemma_rebates_are_added_up<N: Amount>(kept: Seq<Json<N>>, orders: Seq<Json<N>>)
    ensures
        total_rebate(kept.map_values(|t: Json<N>| rebate_of(orders, t))) == added_up(
            kept,
            |t: Json<N>| rebate_of(orders, t).rebate,
        ),
    decreases kept.len(),
{
    if kept.len() > 0 {
        let show = |t: Json<N>| rebate_of(orders, t);
        lemma_rebates_are_added_up(kept.drop_last(), orders);
        assert(kept.map_values(show).drop_last() =~= kept.drop_last().map_values(show));
    }
}

proof fn lemma_fills_are_counted<N: Amount>(rows: Seq<RebateView<N>>, maker: bool)
    ensures
        rows.filter(|r: RebateView<N>| r.was_maker == maker).len() == values(
            stable_sorted(rows.map_values(|r: RebateView<N>| newest_first(r))),
        ).filter(|r: RebateView<N>| r.was_maker == maker).len(),
{
    let keep = |r: RebateView<N>| r.was_maker == maker;
    let count = |r: RebateView<N>|
        if keep(r) {
            1int
        } else {
            0int
        };
    let tag = |r: RebateView<N>| newest_first(r);
    let untag = |p: (i128, RebateView<N>)| p.1;
    let tagged = rows.map_values(tag);
    let sorted = stable_sorted(tagged);
    let by_tag = |p: (i128, RebateView<N>)| count(untag(p));
    let back = |r: RebateView<N>| by_tag(tag(r));
    sorting_keeps_the_items(tagged);
    a_tally_has_no_order(sorted, tagged, by_tag);
    lemma_tally_of_map(sorted, untag, count);
    lemma_tally_of_map(rows, tag, by_tag);
    lemma_tally_compares(rows, back, count);
    lemma_tally_counts(rows, keep);
    lemma_tally_counts(values(sorted), keep);
}

/// Trades are asked for by what is given and nothing else.
pub proof fn trades_are_asked_for_by_what_is_given(
    property_id: Option<Seq<char>>,
    direction: Option<Seq<char>>,
    limit: Option<u32>,
    name: Seq<char>,
    value: Seq<char>,
)
    ensures
        trades_query_of(property_id, direction, limit).contains((name, value)) <==> {
            ||| name == "propertyId"@ && property_id == Some(value)
            ||| name == "direction"@ && direction == Some(value)
            ||| name == "limit"@ && limit is Some && value == decimal_text(limit->0 as nat)
        },
{
    let q = trades_query_of(property_id, direction, limit);
    let a = if property_id is Some {
        1int
    } else {
        0
    };
    let b = if direction is Some {
        a + 1
    } else {
        a
    };
    if property_id is Some {
        assert(q[0] == ("propertyId"@, property_id->0));
    }
    if direction is Some {
        assert(q[a] == ("direction"@, direction->0));
    }
    if limit is Some {
        assert(q[b] == ("limit"@, decimal_text(limit->0 as nat)));
    }
}

} // verus!
