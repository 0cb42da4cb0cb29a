use vstd::prelude::*;

use crate::amount::Amount;
use crate::commands::quote::plan::{
    cancellation, pull_plan, spared, spared_order, KeptView, Op, StepView,
};
use crate::commands::quote::Side;
use crate::json::{lemma_filter_splits, Json};
use crate::micros::Micros;

verus! {

/// A stand-down cancels every order that no guard protects: one on a side the caller
/// meant, unless it is a sell priced at or above the price to keep. The request names
/// the order by its own id.
pub proof fn a_stand_down_cancels_what_no_guard_protects<N: Amount>(
    program: Json<N>,
    mine: Seq<Json<N>>,
    keep_above: Option<N>,
    side: Option<Side>,
    i: int,
)
    requires
        0 <= i < mine.len(),
        side is None || (match side->0 {
            Side::Buy => "buy"@,
            Side::Sell => "sell"@,
        }) == mine[i].name_at("direction"@),
        keep_above is None || mine[i].name_at("direction"@) != "sell"@ || !keep_above->0.at_most(
            mine[i].amount_at("price"@),
        ),
    ensures
        pull_plan(program, mine, keep_above, side).steps.contains(
            (StepView {
                op: Op::Cancel,
                direction: mine[i].name_at("direction"@),
                order_id: mine[i].member("orderId"@),
                price: mine[i].amount_at("price"@),
                quantity: mine[i].amount_at("quantity"@),
                dist_from_mid: None,
            }),
        ),
{
    let go = |o: Json<N>| !spared(o, keep_above, side);
    let step = |o: Json<N>| cancellation(o, o.name_at("direction"@));
    let chosen = mine.filter(go);
    let steps = pull_plan(program, mine, keep_above, side).steps;
    assert(go(mine[i]));
    mine.lemma_filter_contains(go, i);
    let j = choose|j: int| 0 <= j < chosen.len() && chosen[j] == mine[i];
    assert(steps[j] == step(chosen[j]));
}

/// A stand-down keeps every order that a guard protects, and says why: a sell at or
/// above the price to keep for that price, whichever side was meant, and any other
/// for its side.
pub proof fn a_stand_down_keeps_what_a_guard_protects<N: Amount>(
    program: Json<N>,
    mine: Seq<Json<N>>,
    keep_above: Option<N>,
    side: Option<Side>,
    i: int,
)
    requires
        0 <= i < mine.len(),
    ensures
        ({
            let o = mine[i];
            let protected = o.name_at("direction"@) == "sell"@ && keep_above is Some
                && keep_above->0.at_most(o.amount_at("price"@));
            let elsewhere = side is Some && (match side->0 {
                Side::Buy => "buy"@,
                Side::Sell => "sell"@,
            }) != o.name_at("direction"@);
            protected || elsewhere ==> pull_plan(
                program,
                mine,
                keep_above,
                side,
            ).untouched.contains(
                (KeptView {
                    direction: o.name_at("direction"@),
                    price: o.amount_at("price"@),
                    quantity: o.amount_at("quantity"@),
                    reason: Some(
                        if protected {
                            "at or above --keep-above"@
                        } else {
                            "other side"@
                        },
                    ),
                }),
            )
        }),
{
    let stay = |o: Json<N>| spared(o, keep_above, side);
    let keep = |o: Json<N>| spared_order(o, keep_above);
    let left = mine.filter(stay);
    let kept = pull_plan(program, mine, keep_above, side).untouched;
    if stay(mine[i]) {
        mine.lemma_filter_contains(stay, i);
        let j = choose|j: int| 0 <= j < left.len() && left[j] == mine[i];
        assert(kept[j] == keep(left[j]));
    }
}

/// Nothing else is in a stand-down: every step cancels an order of ours on a side the
/// caller meant, and every kept order is one of ours that is kept for the reason
/// given.
pub proof fn a_stand_down_invents_nothing<N: Amount>(
    program: Json<N>,
    mine: Seq<Json<N>>,
    keep_above: Option<N>,
    side: Option<Side>,
)
    ensures
        ({
            let p = pull_plan(program, mine, keep_above, side);
            &&& p.property_id == program.member("propertyId"@)
            &&& p.steps.len() + p.untouched.len() == mine.len()
            &&& forall|k: int|
                0 <= k < p.steps.len() ==> {
                    let s = #[trigger] p.steps[k];
                    &&& s.op is Cancel
                    &&& s.dist_from_mid is None
                    &&& exists|i: int|
                        0 <= i < mine.len() && s.order_id == (#[trigger] mine[i]).member("orderId"@)
                            && s.direction == mine[i].name_at("direction"@) && s.price
                            == mine[i].amount_at("price"@) && s.quantity == mine[i].amount_at(
                            "quantity"@,
                        )
                    &&& side is Some ==> s.direction == (match side->0 {
                        Side::Buy => "buy"@,
                        Side::Sell => "sell"@,
                    })
                    &&& s.direction == "sell"@ && keep_above is Some ==> !keep_above->0.at_most(
                        s.price,
                    )
                }
            &&& forall|k: int|
                0 <= k < p.untouched.len() ==> {
                    let o = #[trigger] p.untouched[k];
                    &&& exists|i: int|
                        0 <= i < mine.len() && o.direction == (#[trigger] mine[i]).name_at(
                            "direction"@,
                        ) && o.price == mine[i].amount_at("price"@) && o.quantity
                            == mine[i].amount_at("quantity"@)
                    &&& o.reason == Some("at or above --keep-above"@) ==> o.direction == "sell"@
                        && keep_above is Some && keep_above->0.at_most(o.price)
                    &&& o.reason != Some("at or above --keep-above"@) ==> o.reason == Some(
                        "other side"@,
                    ) && side is Some && o.direction != (match side->0 {
                        Side::Buy => "buy"@,
                        Side::Sell => "sell"@,
                    })
                }
        }),
{
    let go = |o: Json<N>| !spared(o, keep_above, side);
    let stay = |o: Json<N>| spared(o, keep_above, side);
    let step = |o: Json<N>| cancellation(o, o.name_at("direction"@));
    let keep = |o: Json<N>| spared_order(o, keep_above);
    let (chosen, left) = (mine.filter(go), mine.filter(stay));
    let p = pull_plan(program, mine, keep_above, side);
    lemma_filter_splits(mine, go, stay);
    reveal_strlit("at or above --keep-above");
    reveal_strlit("other side");
    assert("at or above --keep-above"@.len() != "other side"@.len());
    assert forall|k: int| 0 <= k < p.steps.len() implies {
        let s = #[trigger] p.steps[k];
        &&& s.op is Cancel
        &&& s.dist_from_mid is None
        &&& exists|i: int|
            0 <= i < mine.len() && s.order_id == (#[trigger] mine[i]).member("orderId"@)
                && s.direction == mine[i].name_at("direction"@) && s.price == mine[i].amount_at(
                "price"@,
            ) && s.quantity == mine[i].amount_at("quantity"@)
        &&& side is Some ==> s.direction == (match side->0 {
            Side::Buy => "buy"@,
            Side::Sell => "sell"@,
        })
        &&& s.direction == "sell"@ && keep_above is Some ==> !keep_above->0.at_most(s.price)
    } by {
        assert(p.steps[k] == step(chosen[k]));
        mine.lemma_filter_pred(go, k);
        assert(chosen.contains(chosen[k]));
        mine.lemma_filter_contains_rev(go, chosen[k]);
        let i = choose|i: int| 0 <= i < mine.len() && mine[i] == chosen[k];
        assert(p.steps[k].order_id == mine[i].member("orderId"@));
    }
    assert forall|k: int| 0 <= k < p.untouched.len() implies {
        let o = #[trigger] p.untouched[k];
        &&& exists|i: int|
            0 <= i < mine.len() && o.direction == (#[trigger] mine[i]).name_at("direction"@)
                && o.price == mine[i].amount_at("price"@) && o.quantity == mine[i].amount_at(
                "quantity"@,
            )
        &&& o.reason == Some("at or above --keep-above"@) ==> o.direction == "sell"@
            && keep_above is Some && keep_above->0.at_most(o.price)
        &&& o.reason != Some("at or above --keep-above"@) ==> o.reason == Some("other side"@)
            && side is Some && o.direction != (match side->0 {
            Side::Buy => "buy"@,
            Side::Sell => "sell"@,
        })
    } by {
        assert(p.untouched[k] == keep(left[k]));
        mine.lemma_filter_pred(stay, k);
        assert(left.contains(left[k]));
        mine.lemma_filter_contains_rev(stay, left[k]);
        let i = choose|i: int| 0 <= i < mine.len() && mine[i] == left[k];
        assert(p.untouched[k].direction == mine[i].name_at("direction"@));
    }
}

/// The operator is told when a stand-down leaves one side alone: there is a note
/// exactly when something is cancelled and what is kept rests on a single side.
pub proof fn a_one_sided_remainder_is_noted<N: Amount>(
    program: Json<N>,
    mine: Seq<Json<N>>,
    keep_above: Option<N>,
    side: Option<Side>,
)
    ensures
        ({
            let p = pull_plan(program, mine, keep_above, side);
            let bids = exists|k: int|
                0 <= k < p.untouched.len() && (#[trigger] p.untouched[k]).direction == "buy"@;
            let asks = exists|k: int|
                0 <= k < p.untouched.len() && (#[trigger] p.untouched[k]).direction == "sell"@;
            let tail =
                "-only position — one-sided liquidity earns nothing, so the remainder rests for recovery, not rewards"@;
            p.notes == if p.steps.len() > 0 && bids && !asks {
                seq!["leaves a "@ + "buy"@ + tail]
            } else if p.steps.len() > 0 && asks && !bids {
                seq!["leaves a "@ + "sell"@ + tail]
            } else {
                Seq::empty()
            }
        }),
{
}

/// Raising the price to keep never spares more: an order cancelled under one guard is
/// cancelled under any higher one, and with no guard on the price at all.
pub proof fn a_higher_guard_spares_no_more(
    program: Json<Micros>,
    mine: Seq<Json<Micros>>,
    low: Micros,
    high: Micros,
    side: Option<Side>,
)
    requires
        low.units <= high.units,
    ensures
        pull_plan(program, mine, Some(low), side).steps.len() <= pull_plan(
            program,
            mine,
            Some(high),
            side,
        ).steps.len() <= pull_plan(program, mine, None, side).steps.len(),
    decreases mine.len(),
{
    reveal(Seq::filter);
    if mine.len() > 0 {
        a_higher_guard_spares_no_more(program, mine.drop_last(), low, high, side);
    }
}

} // verus!
