use vstd::prelude::*;

use crate::amount::Amount;
use crate::commands::account::breakeven::{
    as_percentage, breakeven_of, breakeven_refusal, fees_of, held_target, held_targets_of,
    listed_fraction, priced, true_cost, ScenarioView, SellVenue, TargetView, VenueFees,
};
use crate::json::Json;
use crate::micros::{divided, multiples_divide_exactly, rounding_is_within_half, Micros};

verus! {

/// Where a listing publishes a rate: under `liquidity` in its `property` envelope, or
/// where that names none, under `liquidity` itself.
pub proof fn a_rate_is_read_from_the_envelope_first<N>(listing: Json<N>, field: Seq<char>)
    ensures
        ({
            let wrapped = listing.inner("property"@, "liquidity"@);
            let bare = listing.member("liquidity"@);
            &&& wrapped is Some && wrapped->0.number_at(field) is Some ==> listed_fraction(
                listing,
                field,
            ) == wrapped->0.number_at(field)
            &&& (wrapped is None || wrapped->0.number_at(field) is None) && bare is Some
                ==> listed_fraction(listing, field) == bare->0.number_at(field)
            &&& (wrapped is None || wrapped->0.number_at(field) is None) && bare is None
                ==> listed_fraction(listing, field) is None
        }),
{
}

/// A fraction published to the millionth is a hundred times as much in percent,
/// exactly.
pub proof fn a_fraction_is_a_hundred_times_as_much_in_percent(v: Micros)
    requires
        -92_000_000_000 <= v.units <= 92_000_000_000,
    ensures
        as_percentage(v).units == 100 * v.units,
{
    let u = v.units as int;
    multiples_divide_exactly(u * 100, 1_000_000);
    assert(u * 100_000_000 == (u * 100) * 1_000_000);
    multiples_divide_exactly(u * 100_000_000, 1_000_000);
    assert((u * 100) * 1_000_000_000_000 == (u * 100_000_000) * 1_000_000);
    multiples_divide_exactly(u * 100, 1_000_000_000_000);
}

/// The four rates of a property. On the book they are the listing's buy and sell
/// rates; in the pool they are the platform's rate and the pool's own added to it, and
/// unknown where the platform's is.
pub proof fn each_venue_charges_its_own_rates<N: Amount>(listing: Json<N>, pool: Option<Json<N>>)
    ensures
        ({
            let fees = fees_of(listing, pool);
            let line = |field: Seq<char>|
                if pool is Some && pool->0.inner("fees"@, field) is Some {
                    pool->0.inner("fees"@, field)->0.as_number()
                } else {
                    None
                };
            let lp = match line("lp"@) {
                Some(n) => n,
                None => N::whole(0),
            };
            &&& listed_fraction(listing, "mtBuyFeePct"@) matches Some(v) ==> fees.book_buy == Some(
                as_percentage(v),
            )
            &&& listed_fraction(listing, "mtBuyFeePct"@) is None ==> fees.book_buy is None
            &&& listed_fraction(listing, "mtSellFeePct"@) matches Some(v) ==> fees.book_sell
                == Some(as_percentage(v))
            &&& listed_fraction(listing, "mtSellFeePct"@) is None ==> fees.book_sell is None
            &&& line("platformBuy"@) matches Some(n) ==> fees.amm_buy == Some(n.sum(lp))
            &&& line("platformBuy"@) is None ==> fees.amm_buy is None
            &&& line("platformSell"@) matches Some(n) ==> fees.amm_sell == Some(n.sum(lp))
            &&& line("platformSell"@) is None ==> fees.amm_sell is None
        }),
{
}

/// Whether a scenario is what a token bought at a fee and sold at another comes to: its
/// cost and the buy fee on it; the price that brings that back after the sell fee; and
/// the price that brings it back with the margin. Where the sell fee leaves nothing,
/// no price does.
pub open spec fn comes_to<N: Amount>(
    s: ScenarioView<N>,
    cost_basis: N,
    buy_fee: N,
    sell_fee: N,
    margin: N,
) -> bool {
    let kept = N::whole(1).difference(sell_fee.quotient(N::whole(100)));
    &&& s.buy_fee_pct == buy_fee
    &&& s.true_cost == cost_basis.product(N::whole(1).sum(buy_fee.quotient(N::whole(100))))
    &&& N::whole(0).less(kept) ==> s.break_even_ask == s.true_cost.product(
        N::whole(1).sum(N::whole(0).quotient(N::whole(100))),
    ).quotient(kept)
    &&& N::whole(0).less(kept) ==> s.target_ask == s.true_cost.product(
        N::whole(1).sum(margin.quotient(N::whole(100))),
    ).quotient(kept)
    &&& !N::whole(0).less(kept) ==> s.break_even_ask == N::boundless() && s.target_ask
        == N::boundless()
}

/// How a position is priced. It is sold at the fee given, else at that of its venue;
/// without one nothing is priced. With a buy fee given there is one scenario at that
/// fee; otherwise one for each venue whose buy fee is known, the pool before the book.
pub proof fn a_position_is_priced_for_each_way_it_was_bought<N: Amount>(
    property_id: Seq<char>,
    cost_basis: N,
    fees: VenueFees<N>,
    margin: N,
    venue: SellVenue,
    buy_fee: Option<N>,
    sell_fee: Option<N>,
)
    ensures
        ({
            let b = breakeven_of(property_id, cost_basis, fees, margin, venue, buy_fee, sell_fee);
            let own = if venue == SellVenue::Book {
                fees.book_sell
            } else {
                fees.amm_sell
            };
            let pooled = if fees.amm_buy is Some {
                1int
            } else {
                0int
            };
            &&& b.property_id == property_id
            &&& b.cost_basis == cost_basis
            &&& b.sell_venue == if venue == SellVenue::Book {
                "book"@
            } else {
                "amm"@
            }
            &&& b.sell_fee_pct == if sell_fee is Some {
                sell_fee
            } else {
                own
            }
            &&& b.sell_fee_pct is None ==> b.scenarios.len() == 0
            &&& b.sell_fee_pct matches Some(sell) ==> {
                &&& buy_fee matches Some(buy) ==> b.scenarios.len() == 1
                    && b.scenarios[0].acquired_via == "specified"@ && comes_to(
                    b.scenarios[0],
                    cost_basis,
                    buy,
                    sell,
                    margin,
                )
                &&& buy_fee is None ==> {
                    &&& b.scenarios.len() == pooled + if fees.book_buy is Some {
                        1int
                    } else {
                        0int
                    }
                    &&& fees.amm_buy matches Some(buy) ==> b.scenarios[0].acquired_via == "amm"@
                        && comes_to(b.scenarios[0], cost_basis, buy, sell, margin)
                    &&& fees.book_buy matches Some(buy) ==> b.scenarios[pooled].acquired_via
                        == "book"@ && comes_to(b.scenarios[pooled], cost_basis, buy, sell, margin)
                }
            }
        }),
{
}

/// A token truly costs its basis and the fee on it, up to rounding: by half a
/// millionth for the cost and half a millionth of the basis for the rate.
pub proof fn a_token_costs_its_basis_and_the_fee(cost_basis: Micros, buy_fee: Micros)
    requires
        true_cost(cost_basis, buy_fee).finite(),
        Micros::whole(1).sum(buy_fee.quotient(Micros::whole(100))).finite(),
    ensures
        ({
            let off = true_cost(cost_basis, buy_fee).units * 100_000_000 - cost_basis.units * (
            100_000_000 + buy_fee.units);
            &&& 0 <= cost_basis.units ==> -50_000_000 - 50 * cost_basis.units <= off <= 50_000_000
                + 50 * cost_basis.units
        }),
{
    let c = cost_basis.units as int;
    let f = buy_fee.units as int;
    let p = divided(f * 1_000_000, 100_000_000);
    rounding_is_within_half(f * 1_000_000, 100_000_000);
    assert(-50 <= 100 * p - f <= 50);
    assert(buy_fee.quotient(Micros::whole(100)).units == p);
    let k = 1_000_000 + p;
    let t = true_cost(cost_basis, buy_fee).units as int;
    rounding_is_within_half(c * k, 1_000_000);
    assert(t == divided(c * k, 1_000_000));
    assert(-500_000 <= t * 1_000_000 - c * k <= 500_000);
    if 0 <= c {
        assert(-50 * c <= c * (100 * k) - c * (100_000_000 + f) <= 50 * c) by (nonlinear_arith)
            requires
                0 <= c,
                -50 <= 100 * k - (100_000_000 + f) <= 50,
        ;
        assert(c * (100 * k) == 100 * (c * k)) by (nonlinear_arith);
    }
}

/// The arguments of a break-even are usable exactly when every number given is an
/// ordinary one that is not negative and the sell fee leaves something of the price.
pub proof fn usable_numbers_are_ordinary_and_not_negative<N: Amount>(
    cost: Option<N>,
    buy_fee: Option<N>,
    sell_fee: Option<N>,
    margin: N,
)
    ensures
        breakeven_refusal(cost, buy_fee, sell_fee, margin) is None <==> {
            &&& cost matches Some(n) ==> n.finite() && !n.less(N::whole(0))
            &&& buy_fee matches Some(n) ==> n.finite() && !n.less(N::whole(0))
            &&& sell_fee matches Some(n) ==> n.finite() && !n.less(N::whole(0)) && !N::whole(
                100,
            ).at_most(n)
            &&& margin.finite() && !margin.less(N::whole(0))
        },
        breakeven_refusal(cost, buy_fee, sell_fee, margin) matches Some(e) ==> e is Usage,
{
}

/// The positions that are priced are those that hold tokens and, where one property is
/// asked for, are of that one. Each is priced at its basis in dollars, which is
/// published in cents.
pub proof fn every_position_that_holds_tokens_is_priced<N: Amount>(
    positions: Seq<Json<N>>,
    filter: Option<Seq<char>>,
    x: TargetView<N>,
)
    ensures
        held_targets_of(positions, filter).contains(x) <==> exists|i: int|
            0 <= i < positions.len() && !(#[trigger] positions[i]).amount_at(
                "currentTokens"@,
            ).at_most(N::whole(0)) && (filter is None || filter->0 == positions[i].name_at(
                "propertyId"@,
            )) && x.property_id == positions[i].name_at("propertyId"@) && x.cost
                == positions[i].amount_at("costBasis"@).quotient(N::whole(100)),
{
    let keep = |p: Json<N>| priced(p, filter);
    let show = |p: Json<N>| held_target(p);
    let kept = positions.filter(keep);
    let out = held_targets_of(positions, filter);
    if out.contains(x) {
        let k = choose|k: int| 0 <= k < out.len() && out[k] == x;
        assert(out[k] == show(kept[k]));
        positions.lemma_filter_pred(keep, k);
        assert(kept.contains(kept[k]));
        positions.lemma_filter_contains_rev(keep, kept[k]);
        let i = choose|i: int| 0 <= i < positions.len() && positions[i] == kept[k];
        assert(!positions[i].amount_at("currentTokens"@).at_most(N::whole(0)));
    }
    if exists|i: int|
        0 <= i < positions.len() && !(#[trigger] positions[i]).amount_at("currentTokens"@).at_most(
            N::whole(0),
        ) && (filter is None || filter->0 == positions[i].name_at("propertyId"@)) && x.property_id
            == positions[i].name_at("propertyId"@) && x.cost == positions[i].amount_at(
            "costBasis"@,
        ).quotient(N::whole(100)) {
        let i = choose|i: int|
            0 <= i < positions.len() && !(#[trigger] positions[i]).amount_at(
                "currentTokens"@,
            ).at_most(N::whole(0)) && (filter is None || filter->0 == positions[i].name_at(
                "propertyId"@,
            )) && x.property_id == positions[i].name_at("propertyId"@) && x.cost
                == positions[i].amount_at("costBasis"@).quotient(N::whole(100));
        positions.lemma_filter_contains(keep, i);
        let k = choose|k: int| 0 <= k < kept.len() && kept[k] == positions[i];
        assert(out[k] == show(kept[k]));
        assert(out[k] == x);
    }
}

} // verus!
