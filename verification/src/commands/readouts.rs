use vstd::prelude::*;

use crate::amount::Amount;
use crate::commands::account::breakeven::{breakeven_lines, position_lines, BreakevenView};
use crate::commands::account::coverage::{
    coverage_lines, row_warnings, warnings, CoverRowView, CoverageView,
};
use crate::commands::account::rebates::{rebate_lines, RebateView, RebatesView};
use crate::commands::quote::apply::{plan_lines, Render};
use crate::commands::quote::plan::{Band, KeptView, StepView};
use crate::commands::rewards::calendar::period_text;
use crate::commands::rewards::eligibility::{
    all_property_lines, eligibility_lines, issue_line, property_lines, EligibilityReportView,
    EligibilityView, OrderCheckView,
};
use crate::commands::rewards::reconcile::{
    all_payout_warnings, payout_warnings, reconcile_lines, PayoutsView, ReconciliationView,
};
use crate::report::{CellView, LineView};
use crate::tally::tally;
use crate::text::{decimal_text, joined_text};

verus! {

proof fn lemma_warnings_hold<N>(rows: Seq<CoverRowView<N>>, i: int, line: LineView<N>)
    requires
        0 <= i < rows.len(),
        row_warnings(rows[i]).contains(line),
    ensures
        warnings(rows).contains(line),
    decreases rows.len(),
{
    let head = rows.drop_last();
    let (older, newer) = (warnings(head), row_warnings(rows.last()));
    if i < head.len() {
        assert(head[i] == rows[i]);
        lemma_warnings_hold(head, i, line);
        let k = choose|k: int| 0 <= k < older.len() && older[k] == line;
        assert(warnings(rows)[k] == line);
    } else {
        let k = choose|k: int| 0 <= k < newer.len() && newer[k] == line;
        assert(warnings(rows)[older.len() + k] == line);
    }
}

proof fn lemma_warnings_are_counted<N>(rows: Seq<CoverRowView<N>>)
    ensures
        warnings(rows).len() == tally(
            rows,
            |r: CoverRowView<N>|
                (if r.bid_covered {
                    0int
                } else {
                    1int
                }) + (if r.ask_covered {
                    0int
                } else {
                    1int
                }),
        ),
    decreases rows.len(),
{
    if rows.len() > 0 {
        lemma_warnings_are_counted(rows.drop_last());
    }
}

/// The coverage report has a row for every property, in order, each figure under its
/// heading; it warns of every side that is not covered, and says no more than that,
/// the wallet, an over-commitment and a spend that was tried out.
pub proof fn coverage_is_shown_in_full<N: Amount>(c: CoverageView<N>, i: int)
    requires
        0 <= i < c.properties.len(),
    ensures
        ({
            let lines = coverage_lines(c);
            let row = c.properties[i];
            &&& lines[0] matches LineView::Table(t) && {
                let cells = t.rows[i];
                &&& t.headings.len() == 6 && cells.len() == 6 && t.rows.len() == c.properties.len()
                &&& t.headings[0] == "property"@ && cells[0] == CellView::<N>::Text(row.property_id)
                &&& t.headings[1] == "bid $"@ && cells[1] == CellView::<N>::Text(
                    row.bid_usd.fixed_text(2),
                )
                &&& t.headings[2] == "bid covered"@ && cells[2] == CellView::<N>::Flag(
                    row.bid_covered,
                )
                &&& t.headings[3] == "ask qty"@ && cells[3] == CellView::Number(row.ask_qty)
                &&& t.headings[4] == "held"@ && cells[4] == CellView::Number(row.held_tokens)
                &&& t.headings[5] == "ask covered"@ && cells[5] == CellView::<N>::Flag(
                    row.ask_covered,
                )
            }
            &&& lines[1] == LineView::<N>::Note(
                "wallet $"@ + c.wallet_usdc.fixed_text(2) + " — $"@ + c.reserved_usdc.fixed_text(2)
                    + " reserved (largest single-property bid), $"@ + c.free_usdc.fixed_text(2)
                    + " free to spend"@,
            )
            &&& !row.bid_covered ==> lines.contains(
                LineView::<N>::Note(
                    "  ⚠ "@ + row.property_id
                        + ": bids exceed your wallet — at risk of automatic cancellation"@,
                ),
            )
            &&& !row.ask_covered ==> lines.contains(
                LineView::<N>::Note(
                    "  ⚠ "@ + row.property_id
                        + ": asks exceed your held tokens — at risk of automatic cancellation"@,
                ),
            )
            &&& lines.len() == 2 + (if c.over_committed {
                1int
            } else {
                0int
            }) + tally(
                c.properties,
                |r: CoverRowView<N>|
                    (if r.bid_covered {
                        0int
                    } else {
                        1int
                    }) + (if r.ask_covered {
                        0int
                    } else {
                        1int
                    }),
            ) + (match c.simulation {
                Some(sim) => 1 + sim.uncovers.len(),
                None => 0,
            })
        }),
{
    let lines = coverage_lines(c);
    let row = c.properties[i];
    lemma_warnings_are_counted(c.properties);
    let start = 2 + if c.over_committed {
        1int
    } else {
        0int
    };
    let said = warnings(c.properties);
    assert(forall|k: int| 0 <= k < said.len() ==> lines[start + k] == #[trigger] said[k]);
    let bids = LineView::<N>::Note(
        "  ⚠ "@ + row.property_id
            + ": bids exceed your wallet — at risk of automatic cancellation"@,
    );
    let asks = LineView::<N>::Note(
        "  ⚠ "@ + row.property_id
            + ": asks exceed your held tokens — at risk of automatic cancellation"@,
    );
    if !row.bid_covered {
        assert(row_warnings(row)[0] == bids);
        lemma_warnings_hold(c.properties, i, bids);
        let k = choose|k: int| 0 <= k < said.len() && said[k] == bids;
        assert(lines[start + k] == bids);
    }
    if !row.ask_covered {
        assert(row_warnings(row)[if row.bid_covered {
            0int
        } else {
            1int
        }] == asks);
        lemma_warnings_hold(c.properties, i, asks);
        let k = choose|k: int| 0 <= k < said.len() && said[k] == asks;
        assert(lines[start + k] == asks);
    }
}

/// A spend that was tried out is told at the end: what it leaves, whether it fits, and
/// each property it would uncover with what its bids cost.
pub proof fn a_tried_spend_is_told<N: Amount>(c: CoverageView<N>, k: int)
    requires
        c.simulation is Some,
        0 <= k < c.simulation->0.uncovers.len(),
    ensures
        ({
            let lines = coverage_lines(c);
            let sim = c.simulation->0;
            let at = lines.len() - sim.uncovers.len();
            let u = sim.uncovers[k];
            &&& lines[at - 1] == LineView::<N>::Note(
                "spending $"@ + sim.spend.fixed_text(2) + " leaves $"@
                    + sim.wallet_after.fixed_text(2) + " — "@ + if sim.fits {
                    "fits within free capital"@
                } else {
                    "EXCEEDS free capital"@
                },
            )
            &&& lines[at + k] == LineView::<N>::Note(
                "  ⚠ would uncover "@ + u.property_id + " (bids $"@ + u.bid_usd.fixed_text(2)
                    + ")"@,
            )
        }),
{
}

/// Of the fills only a maker's are listed, in order, each figure under its heading; the
/// note has the total and counts both kinds.
pub proof fn rebates_are_shown_in_full<N: Amount>(r: RebatesView<N>, k: int)
    requires
        0 <= k < r.trades.filter(|t: RebateView<N>| t.was_maker).len(),
    ensures
        ({
            let lines = rebate_lines(r);
            let earners = r.trades.filter(|t: RebateView<N>| t.was_maker);
            let e = earners[k];
            &&& lines.len() == 2
            &&& lines[0] matches LineView::Table(t) && {
                let cells = t.rows[k];
                &&& t.headings.len() == 6 && cells.len() == 6 && t.rows.len() == earners.len()
                &&& t.headings[0] == "property"@ && cells[0] == CellView::<N>::Text(e.property_id)
                &&& t.headings[1] == "side"@ && cells[1] == CellView::<N>::Text(e.direction)
                &&& t.headings[2] == "price"@ && cells[2] == CellView::<N>::Text(
                    "$"@ + e.price.fixed_text(2),
                )
                &&& t.headings[3] == "qty"@ && cells[3] == CellView::Number(e.quantity)
                &&& t.headings[4] == "your fee"@ && cells[4] == CellView::<N>::Text(
                    "$"@ + e.our_fee.fixed_text(4),
                )
                &&& t.headings[5] == "rebate"@ && cells[5] == CellView::<N>::Text(
                    "$"@ + e.rebate.fixed_text(4),
                )
            }
            &&& lines[1] == LineView::<N>::Note(
                "total $"@ + r.total_rebates.fixed_text(4) + " across "@ + decimal_text(
                    r.maker_fills,
                ) + " maker fill(s) at "@ + r.rebate_share_of_fee.product(
                    N::whole(100),
                ).fixed_text(0) + "% of your side's fee; "@ + decimal_text(r.taker_fills)
                    + " taker fill(s) earned nothing (crossing the book pays no rebate)"@,
            )
        }),
{
}

proof fn lemma_positions_hold<N: Amount>(
    positions: Seq<BreakevenView<N>>,
    margin: N,
    i: int,
    line: LineView<N>,
)
    requires
        0 <= i < positions.len(),
        position_lines(positions[i], margin).contains(line),
    ensures
        breakeven_lines(positions, margin).contains(line),
    decreases positions.len(),
{
    let head = positions.drop_last();
    let (older, newer) = (
        breakeven_lines(head, margin),
        position_lines(positions.last(), margin),
    );
    if i < head.len() {
        assert(head[i] == positions[i]);
        lemma_positions_hold(head, margin, i, line);
        let k = choose|k: int| 0 <= k < older.len() && older[k] == line;
        assert(breakeven_lines(positions, margin)[k] == line);
    } else {
        let k = choose|k: int| 0 <= k < newer.len() && newer[k] == line;
        assert(breakeven_lines(positions, margin)[older.len() + k] == line);
    }
}

/// Every position is told: one without a sell fee asks for it; any other has its basis,
/// its venue and that fee, and a table of its scenarios, or a word that no buy fee is
/// known. A price beyond all bounds is shown as zero.
pub proof fn every_position_is_told<N: Amount>(positions: Seq<BreakevenView<N>>, margin: N, i: int)
    requires
        0 <= i < positions.len(),
    ensures
        ({
            let lines = breakeven_lines(positions, margin);
            let p = positions[i];
            let kept = |n: N|
                if n.finite() {
                    n
                } else {
                    N::whole(0)
                };
            &&& p.sell_fee_pct is None ==> lines.contains(
                LineView::<N>::Note(
                    p.property_id + ": no published "@ + p.sell_venue
                        + " sell fee — pass --sell-fee to price it"@,
                ),
            )
            &&& p.sell_fee_pct matches Some(fee) ==> lines.contains(
                LineView::<N>::Note(
                    p.property_id + ": cost basis $"@ + p.cost_basis.fixed_text(2)
                        + "/token (excludes the buy fee) — selling on "@ + p.sell_venue + " at "@
                        + fee.fixed_text(2) + "% fee"@,
                ),
            )
            &&& p.sell_fee_pct is Some && p.scenarios.len() == 0 ==> lines.contains(
                LineView::<N>::Note("  (no published buy-fee rate — pass --buy-fee to price it)"@),
            )
            &&& p.sell_fee_pct is Some && p.scenarios.len() > 0 ==> exists|at: int|
                0 <= at < lines.len() && (#[trigger] lines[at] matches LineView::Table(t)
                    && t.rows.len() == p.scenarios.len() && t.headings == seq![
                    "acquired via"@,
                    "buy fee %"@,
                    "true cost"@,
                    "break-even ask"@,
                    "ask +"@ + margin.fixed_text(1) + "%"@,
                ] && forall|k: int|
                    0 <= k < p.scenarios.len() ==> #[trigger] t.rows[k] == seq![
                        CellView::<N>::Text(p.scenarios[k].acquired_via),
                        CellView::<N>::Text(kept(p.scenarios[k].buy_fee_pct).fixed_text(2)),
                        CellView::<N>::Text("$"@ + kept(p.scenarios[k].true_cost).fixed_text(2)),
                        CellView::<N>::Text(
                            "$"@ + kept(p.scenarios[k].break_even_ask).fixed_text(2),
                        ),
                        CellView::<N>::Text("$"@ + kept(p.scenarios[k].target_ask).fixed_text(2)),
                    ])
        }),
{
    let lines = breakeven_lines(positions, margin);
    let own = position_lines(positions[i], margin);
    assert(own.contains(own[0]));
    lemma_positions_hold(positions, margin, i, own[0]);
    if positions[i].sell_fee_pct is Some {
        assert(own.contains(own[1]));
        lemma_positions_hold(positions, margin, i, own[1]);
        let at = choose|at: int| 0 <= at < lines.len() && lines[at] == own[1];
        if positions[i].scenarios.len() > 0 {
            assert(lines[at] matches LineView::Table(t) && t.headings =~= seq![
                "acquired via"@,
                "buy fee %"@,
                "true cost"@,
                "break-even ask"@,
                "ask +"@ + margin.fixed_text(1) + "%"@,
            ]);
        }
    }
}

proof fn lemma_properties_hold<N: Amount>(
    rows: Seq<EligibilityView<N>>,
    i: int,
    line: LineView<N>,
)
    requires
        0 <= i < rows.len(),
        property_lines(rows[i]).contains(line),
    ensures
        all_property_lines(rows).contains(line),
    decreases rows.len(),
{
    let head = rows.drop_last();
    let (older, newer) = (all_property_lines(head), property_lines(rows.last()));
    if i < head.len() {
        assert(head[i] == rows[i]);
        lemma_properties_hold(head, i, line);
        let k = choose|k: int| 0 <= k < older.len() && older[k] == line;
        assert(all_property_lines(rows)[k] == line);
    } else {
        let k = choose|k: int| 0 <= k < newer.len() && newer[k] == line;
        assert(all_property_lines(rows)[older.len() + k] == line);
    }
}

/// Every property is told of: that it earns, with its share, what that comes to a
/// day, the mid and the competition; or that it earns nothing, and why.
pub proof fn every_property_is_told_of<N: Amount>(r: EligibilityReportView<N>, i: int)
    requires
        0 <= i < r.properties.len(),
    ensures
        ({
            let lines = eligibility_lines(r);
            let p = r.properties[i];
            &&& p.earning && p.standing is Some ==> lines.contains(
                LineView::<N>::Out(
                    p.standing->0.name + ": EARNING — "@ + p.standing->0.expected_share.product(
                        N::whole(100),
                    ).fixed_text(1) + "% of pool ≈ $"@ + p.expected_daily.fixed_text(2)
                        + "/day (mid $"@ + p.standing->0.band.mid.fixed_text(2)
                        + ", competing score "@ + p.standing->0.competing_score.fixed_text(1)
                        + ")"@,
                ),
            )
            &&& !p.earning && p.standing is Some && p.reason is Some ==> lines.contains(
                LineView::<N>::Out(p.standing->0.name + ": $0 — "@ + p.reason->0),
            )
            &&& p.standing is None && p.reason is Some ==> lines.contains(
                LineView::<N>::Out("?"@ + ": $0 — "@ + p.reason->0),
            )
            &&& lines.last() == LineView::<N>::Note(
                "projected total: $"@ + r.expected_daily_total.fixed_text(2) + "/day across "@
                    + decimal_text(r.properties.len()) + " propert"@ + if r.properties.len() == 1 {
                    "y"@
                } else {
                    "ies"@
                },
            )
        }),
{
    let lines = eligibility_lines(r);
    let told = all_property_lines(r.properties);
    let own = property_lines(r.properties[i]);
    assert(own.contains(own[0]));
    lemma_properties_hold(r.properties, i, own[0]);
    let k = choose|k: int| 0 <= k < told.len() && told[k] == own[0];
    assert(lines[k] == own[0]);
}

/// Every order with something wrong about it is told, with all that is wrong.
pub proof fn every_issue_is_told<N: Amount>(r: EligibilityReportView<N>, i: int, j: int)
    requires
        0 <= i < r.properties.len(),
        0 <= j < r.properties[i].orders.len(),
        r.properties[i].orders[j].issues.len() > 0,
    ensures
        ({
            let o = r.properties[i].orders[j];
            eligibility_lines(r).contains(
                LineView::<N>::Out(
                    "    "@ + o.direction + " $"@ + o.price.fixed_text(2) + " x"@
                        + o.quantity.plain_text() + " — "@ + joined_text(o.issues, ", "@),
                ),
            )
        }),
{
    let p = r.properties[i];
    let o = p.orders[j];
    let keep = |o: OrderCheckView<N>| o.issues.len() > 0;
    let show = |o: OrderCheckView<N>| issue_line(o);
    let bad = p.orders.filter(keep);
    p.orders.lemma_filter_contains(keep, j);
    let k = choose|k: int| 0 <= k < bad.len() && bad[k] == o;
    let own = property_lines(p);
    assert(own[1 + k] == show(bad[k]));
    assert(own.contains(own[1 + k]));
    lemma_properties_hold(r.properties, i, own[1 + k]);
    let told = all_property_lines(r.properties);
    let at = choose|at: int| 0 <= at < told.len() && told[at] == own[1 + k];
    assert(eligibility_lines(r)[at] == own[1 + k]);
}

proof fn lemma_payouts_hold<N>(rows: Seq<PayoutsView<N>>, i: int, line: LineView<N>)
    requires
        0 <= i < rows.len(),
        payout_warnings(rows[i]).contains(line),
    ensures
        all_payout_warnings(rows).contains(line),
    decreases rows.len(),
{
    let head = rows.drop_last();
    let (older, newer) = (all_payout_warnings(head), payout_warnings(rows.last()));
    if i < head.len() {
        assert(head[i] == rows[i]);
        lemma_payouts_hold(head, i, line);
        let k = choose|k: int| 0 <= k < older.len() && older[k] == line;
        assert(all_payout_warnings(rows)[k] == line);
    } else {
        let k = choose|k: int| 0 <= k < newer.len() && newer[k] == line;
        assert(all_payout_warnings(rows)[older.len() + k] == line);
    }
}

proof fn lemma_payout_warnings_are_counted<N>(rows: Seq<PayoutsView<N>>)
    ensures
        all_payout_warnings(rows).len() == tally(
            rows,
            |p: PayoutsView<N>|
                (if p.gaps.len() > 0 {
                    1int
                } else {
                    0int
                }) + (if p.inconsistent_payouts > 0 {
                    1int
                } else {
                    0int
                }),
        ),
    decreases rows.len(),
{
    if rows.len() > 0 {
        lemma_payout_warnings_are_counted(rows.drop_last());
    }
}

/// The reconciliation has a row for every property, in order, each figure under its
/// heading, and the totals; every property with gaps has them told one by one, every
/// property with a payout that is off is called out, and nothing else is.
pub proof fn a_reconciliation_is_shown_in_full<N: Amount>(r: ReconciliationView<N>, i: int)
    requires
        0 <= i < r.properties.len(),
    ensures
        ({
            let lines = reconcile_lines(r);
            let p = r.properties[i];
            &&& lines[0] matches LineView::Table(t) && {
                let cells = t.rows[i];
                &&& t.headings.len() == 6 && cells.len() == 6 && t.rows.len() == r.properties.len()
                &&& t.headings[0] == "property"@ && cells[0] == CellView::<N>::Text(p.name)
                &&& t.headings[1] == "payouts"@ && cells[1] == CellView::<N>::Count(p.payouts)
                &&& t.headings[2] == "earned"@ && cells[2] == CellView::<N>::Text(
                    "$"@ + p.earned.fixed_text(4),
                )
                &&& t.headings[3] == "avg%pool"@ && cells[3] == CellView::<N>::Text(
                    p.avg_percent_of_pool.fixed_text(1),
                )
                &&& t.headings[4] == "gaps"@ && cells[4] == CellView::<N>::Count(p.gaps.len())
                &&& t.headings[5] == "mismatch"@ && cells[5] == CellView::<N>::Count(
                    p.inconsistent_payouts,
                )
            }
            &&& lines[1] == LineView::<N>::Note(
                "total: $"@ + r.total_earned.fixed_text(4) + " across "@ + decimal_text(
                    r.total_payouts,
                ) + " payout(s); "@ + decimal_text(r.total_gaps) + " gap period(s)"@,
            )
            &&& p.gaps.len() > 0 ==> lines.contains(
                LineView::<N>::Note(
                    "  ⚠ "@ + p.name + ": "@ + decimal_text(p.gaps.len())
                        + " period(s) with no payout — verify eligibility: "@ + joined_text(
                        p.gaps.map_values(|t: u64| period_text(t)),
                        ", "@,
                    ),
                ),
            )
            &&& p.inconsistent_payouts > 0 ==> lines.contains(
                LineView::<N>::Note(
                    "  ⚠ "@ + p.name
                        + ": some payouts don't match percentOfPool x pool — report to Lofty"@,
                ),
            )
            &&& lines.len() == 2 + tally(
                r.properties,
                |p: PayoutsView<N>|
                    (if p.gaps.len() > 0 {
                        1int
                    } else {
                        0int
                    }) + (if p.inconsistent_payouts > 0 {
                        1int
                    } else {
                        0int
                    }),
            )
        }),
{
    let lines = reconcile_lines(r);
    let p = r.properties[i];
    let own = payout_warnings(p);
    let said = all_payout_warnings(r.properties);
    lemma_payout_warnings_are_counted(r.properties);
    assert(forall|k: int| 0 <= k < said.len() ==> lines[2 + k] == #[trigger] said[k]);
    if p.gaps.len() > 0 {
        assert(own.contains(own[0]));
        lemma_payouts_hold(r.properties, i, own[0]);
        let k = choose|k: int| 0 <= k < said.len() && said[k] == own[0];
        assert(lines[2 + k] == own[0]);
    }
    if p.inconsistent_payouts > 0 {
        let at = if p.gaps.len() > 0 {
            1int
        } else {
            0int
        };
        assert(own.contains(own[at]));
        lemma_payouts_hold(r.properties, i, own[at]);
        let k = choose|k: int| 0 <= k < said.len() && said[k] == own[at];
        assert(lines[2 + k] == own[at]);
    }
}

/// A plan is shown in full: the headline with the band where there is one, every step
/// in order with how far from the mid it posts, every order left alone, every note, and
/// after a dry run how to apply it.
pub proof fn a_plan_is_shown_in_full<N: Amount>(
    band: Option<Band<N>>,
    steps: Seq<StepView<N>>,
    untouched: Seq<KeptView<N>>,
    notes: Seq<Seq<char>>,
    mode: Render,
)
    ensures
        ({
            let lines = plan_lines(band, steps, untouched, notes, mode);
            let headline = match mode {
                Render::DryRun => "DRY RUN — nothing sent"@,
                Render::NoOp => "nothing to do — no matching orders"@,
                Render::Applied => "applied"@,
            };
            let (a, b) = (steps.len(), steps.len() + untouched.len());
            &&& lines.len() == 1 + b + notes.len() + (if mode is DryRun {
                1int
            } else {
                0int
            })
            &&& lines[0] == LineView::<N>::Out(
                match band {
                    Some(x) => headline + ". mid $"@ + x.mid.fixed_text(2) + ", reward band [$"@
                        + x.low.fixed_text(2) + ", $"@ + x.high.fixed_text(2) + "]"@,
                    None => headline + "."@,
                },
            )
            &&& forall|k: int|
                0 <= k < a ==> {
                    let s = #[trigger] steps[k];
                    lines[1 + k] == LineView::<N>::Out(
                        "  "@ + ((if s.op is Cancel {
                            "cancel"@
                        } else {
                            "create"@
                        }) + " "@ + s.direction + " $"@ + s.price.fixed_text(2) + " x"@
                            + s.quantity.plain_text()) + (match s.dist_from_mid {
                            Some(d) => "  ("@ + d.fixed_text(2) + " from mid)"@,
                            None => Seq::empty(),
                        }),
                    )
                }
            &&& forall|k: int|
                0 <= k < untouched.len() ==> {
                    let o = #[trigger] untouched[k];
                    lines[1 + a + k] == LineView::<N>::Out(
                        "  keep   "@ + o.direction + " $"@ + o.price.fixed_text(2) + " x"@
                            + o.quantity.plain_text() + " (untouched)"@,
                    )
                }
            &&& forall|k: int|
                0 <= k < notes.len() ==> lines[1 + b + k] == LineView::<N>::Note(
                    "  ⚠ "@ + #[trigger] notes[k],
                )
            &&& mode is DryRun ==> lines.last() == LineView::<N>::Note(
                "re-run with --execute to apply"@,
            )
        }),
{
}

} // verus!
