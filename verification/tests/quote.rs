use lofty::amount::Amount;
use lofty::commands::quote::apply::{
    advance, check_provision, check_pull, check_recenter, disposition, partial_failure_lines,
    partial_failure_message, program_for, render_applied, render_plan, request_for, state_from,
    Disposition, Progress, Render, Request,
};
use lofty::commands::quote::plan::{
    plan_provision, plan_pull, plan_recenter, Op, Plan, State, Step, Targets,
};
use lofty::commands::quote::Side;
use lofty::failure::Failure;
use lofty::json::Json;
use lofty::report::Line;

/// Double-precision amounts.
#[derive(Clone, Copy, Debug, PartialEq)]
struct F(f64);

impl Amount for F {
    fn of(n: u64) -> F {
        F(n as f64)
    }
    fn beyond_all() -> F {
        F(f64::INFINITY)
    }
    fn plus(self, other: F) -> F {
        F(self.0 + other.0)
    }
    fn minus(self, other: F) -> F {
        F(self.0 - other.0)
    }
    fn times(self, other: F) -> F {
        F(self.0 * other.0)
    }
    fn over(self, other: F) -> F {
        F(self.0 / other.0)
    }
    fn absolute(self) -> F {
        F(self.0.abs())
    }
    fn larger_of(self, other: F) -> F {
        F(self.0.max(other.0))
    }
    fn smaller_of(self, other: F) -> F {
        F(self.0.min(other.0))
    }
    fn rounded(self) -> F {
        F(self.0.round())
    }
    fn is_below(self, other: F) -> bool {
        self.0 < other.0
    }
    fn is_at_most(self, other: F) -> bool {
        self.0 <= other.0
    }
    fn is_finite(self) -> bool {
        self.0.is_finite()
    }
    fn order_key(self) -> i128 {
        let bits = self.0.to_bits() as i64;
        i128::from(bits ^ ((((bits >> 63) as u64) >> 1) as i64))
    }
    fn fixed(self, digits: u8) -> String {
        format!("{:.*}", usize::from(digits), self.0)
    }
    fn plain(self) -> String {
        format!("{}", self.0)
    }
}

fn payload(v: &serde_json::Value) -> Json<F> {
    match v {
        serde_json::Value::Null => Json::Null,
        serde_json::Value::Bool(b) => Json::Bool(*b),
        serde_json::Value::Number(n) => Json::Number {
            value: F(n.as_f64().unwrap()),
            whole: n.as_u64(),
        },
        serde_json::Value::String(s) => Json::Text(s.clone()),
        serde_json::Value::Array(a) => Json::List(a.iter().map(payload).collect()),
        serde_json::Value::Object(m) => {
            Json::Record(m.iter().map(|(k, v)| (k.clone(), payload(v))).collect())
        }
    }
}

fn json(text: &str) -> Json<F> {
    payload(&serde_json::from_str(text).unwrap())
}

fn refs(items: &[Json<F>]) -> Vec<&Json<F>> {
    items.iter().collect()
}

const P: &str = "01SAMPLEPROPERTY000000000A";

fn program() -> Json<F> {
    json(&format!(
        r#"{{"propertyId": "{P}", "allowedSpread": 2.0, "minContracts": 4.0, "dailyRewards": 10.0}}"#
    ))
}

/// One of our orders: id, direction, price, quantity.
type Resting = (&'static str, &'static str, f64, f64);

fn order(o: Resting) -> Json<F> {
    let (id, dir, price, qty) = o;
    json(&format!(
        r#"{{"orderId": "{id}", "propertyId": "{P}", "direction": "{dir}", "price": {price:?}, "quantity": {qty:?}, "status": "active"}}"#
    ))
}

fn orders(mine: &[Resting]) -> Vec<Json<F>> {
    mine.iter().map(|o| order(*o)).collect()
}

/// Market book (excluding ours): bid $50 x10, ask $54 x10 → with our orders added
/// the inside is $50/$54, mid $52, band [$50, $54].
fn book(mine: &[Resting]) -> Json<F> {
    let level = |p: f64, q: f64| format!(r#"{{"price": {p:?}, "quantity": {q:?}}}"#);
    let mut bids = vec![level(50.0, 10.0)];
    let mut asks = vec![level(54.0, 10.0)];
    for (_, dir, price, qty) in mine {
        if *dir == "buy" {
            bids.push(level(*price, *qty));
        } else {
            asks.push(level(*price, *qty));
        }
    }
    json(&format!(
        r#"{{"orderbook": {{"bids": [{}], "asks": [{}]}}}}"#,
        bids.join(","),
        asks.join(",")
    ))
}

fn targets() -> Targets<F> {
    Targets {
        bid: None,
        ask: None,
        bid_qty: None,
        ask_qty: None,
        min_ask: None,
        allow_out_of_band: false,
    }
}

fn ops(plan: &Plan<F>) -> Vec<String> {
    plan.steps
        .iter()
        .map(|s| format!("{} {}", s.op.as_str(), s.direction))
        .collect()
}

/// What the steps of a plan say, and its error if it has one.
#[derive(Debug)]
struct Outcome {
    ops: Vec<String>,
    quantities: Vec<f64>,
    untouched: Vec<(String, f64, Option<&'static str>)>,
    notes: Vec<String>,
    band: Option<(f64, f64, f64)>,
}

fn outcome(plan: Plan<F>) -> Outcome {
    Outcome {
        ops: ops(&plan),
        quantities: plan.steps.iter().map(|s| s.quantity.0).collect(),
        untouched: plan
            .untouched
            .iter()
            .map(|k| (k.direction.to_string(), k.price.0, k.reason))
            .collect(),
        notes: plan.notes,
        band: plan.band.map(|b| (b.mid.0, b.low.0, b.high.0)),
    }
}

fn recenter(mine: &[Resting], usdc: f64, held: f64, t: Targets<F>) -> Result<Outcome, Failure> {
    let (program, own, book) = (program(), orders(mine), book(mine));
    plan_recenter(&program, &refs(&own), &book, F(usdc), F(held), t).map(outcome)
}

fn provision(
    mine: &[Resting],
    usdc: f64,
    held: f64,
    bid: f64,
    ask: f64,
    qty: Option<u32>,
    min_ask: Option<f64>,
) -> Result<Outcome, Failure> {
    let (program, own, book) = (program(), orders(mine), book(mine));
    let st = State {
        program: &program,
        mine: refs(&own),
        book: &book,
        usdc: F(usdc),
        held: F(held),
    };
    plan_provision(&st, F(bid), F(ask), qty, min_ask.map(F)).map(outcome)
}

fn pull(mine: &[Resting], keep_above: Option<f64>, side: Option<Side>) -> Outcome {
    let (program, own, book) = (program(), orders(mine), book(mine));
    let st = State {
        program: &program,
        mine: refs(&own),
        book: &book,
        usdc: F(1000.0),
        held: F(10.0),
    };
    outcome(plan_pull(&st, keep_above.map(F), side))
}

fn refused(r: Result<Outcome, Failure>) -> String {
    match r {
        Ok(o) => panic!("planned {:?}", o.ops),
        Err(e) => format!("{e:?}"),
    }
}

// ── recenter ────────────────────────────────────────────────────────────────

#[test]
fn moving_the_bid_leaves_the_ask_completely_alone() {
    // The rail that matters most: re-centering one side must never cancel the
    // other, which would drop an earning position to one-sided $0.
    let mine = [("B1", "buy", 51.0, 4.0), ("A1", "sell", 53.0, 4.0)];
    let plan = recenter(
        &mine,
        1000.0,
        10.0,
        Targets {
            bid: Some(F(51.5)),
            ..targets()
        },
    )
    .unwrap();
    assert_eq!(plan.ops, ["cancel buy", "create buy"]);
    assert_eq!(plan.untouched.len(), 1);
    assert_eq!(plan.untouched[0].0, "sell");
}

#[test]
fn a_bid_that_would_cross_the_ask_is_refused() {
    // Crossing fills instantly as a taker — the opposite of resting liquidity.
    let mine = [("B1", "buy", 51.0, 4.0)];
    let e = refused(recenter(
        &mine,
        1000.0,
        10.0,
        Targets {
            bid: Some(F(54.0)),
            ..targets()
        },
    ));
    assert!(e.contains("cross"), "{e}");
}

#[test]
fn an_ask_that_would_cross_the_bid_is_refused() {
    let mine = [("A1", "sell", 53.0, 4.0)];
    let e = refused(recenter(
        &mine,
        1000.0,
        10.0,
        Targets {
            ask: Some(F(50.0)),
            ..targets()
        },
    ));
    assert!(e.contains("cross"), "{e}");
}

#[test]
fn our_own_resting_size_is_not_mistaken_for_the_market() {
    // We are the best bid at $51; re-pricing to $51.50 must not be read as
    // crossing our OWN order. Only the market's $54 ask can be crossed.
    let mine = [("B1", "buy", 51.0, 4.0)];
    let plan = recenter(
        &mine,
        1000.0,
        10.0,
        Targets {
            bid: Some(F(51.5)),
            ..targets()
        },
    )
    .unwrap();
    assert_eq!(plan.ops, ["cancel buy", "create buy"]);
}

#[test]
fn an_uncovered_bid_is_refused_before_anything_is_cancelled() {
    let mine = [("B1", "buy", 51.0, 4.0)];
    let e = refused(recenter(
        &mine,
        100.0,
        10.0,
        Targets {
            bid: Some(F(51.5)),
            ..targets()
        },
    ));
    assert!(e.contains("cover"), "{e}");
}

#[test]
fn coverage_counts_the_side_being_left_in_place() {
    // Moving only the ask must still respect the untouched bid's $204 of cover.
    let mine = [("B1", "buy", 51.0, 4.0), ("A1", "sell", 53.0, 4.0)];
    let e = refused(recenter(
        &mine,
        205.0,
        3.0,
        Targets {
            ask: Some(F(53.5)),
            ..targets()
        },
    ));
    assert!(e.contains("token"), "{e}");
}

#[test]
fn an_ask_beyond_held_tokens_is_refused() {
    let mine = [("A1", "sell", 53.0, 4.0)];
    let e = refused(recenter(
        &mine,
        1000.0,
        2.0,
        Targets {
            ask: Some(F(53.5)),
            ..targets()
        },
    ));
    assert!(e.contains("held"), "{e}");
}

#[test]
fn a_size_below_min_contracts_is_refused() {
    let mine = [("B1", "buy", 51.0, 4.0)];
    let e = refused(recenter(
        &mine,
        1000.0,
        10.0,
        Targets {
            bid: Some(F(51.5)),
            bid_qty: Some(2),
            ..targets()
        },
    ));
    assert!(e.contains("minContracts"), "{e}");
}

#[test]
fn an_out_of_band_target_is_refused_unless_explicitly_allowed() {
    let mine = [("B1", "buy", 51.0, 4.0)];
    let e = refused(recenter(
        &mine,
        1000.0,
        10.0,
        Targets {
            bid: Some(F(45.0)),
            ..targets()
        },
    ));
    assert!(e.contains("band"), "{e}");
    // With the override it proceeds, but says it will earn nothing.
    let plan = recenter(
        &mine,
        1000.0,
        10.0,
        Targets {
            bid: Some(F(45.0)),
            allow_out_of_band: true,
            ..targets()
        },
    )
    .unwrap();
    assert_eq!(plan.ops, ["cancel buy", "create buy"]);
    assert!(plan.notes[0].contains("earn nothing"));
}

#[test]
fn min_ask_blocks_a_below_cost_sell() {
    let mine = [("A1", "sell", 53.0, 4.0)];
    let e = refused(recenter(
        &mine,
        1000.0,
        10.0,
        Targets {
            ask: Some(F(52.5)),
            min_ask: Some(F(53.0)),
            ..targets()
        },
    ));
    assert!(e.contains("min-ask"), "{e}");
}

#[test]
fn size_defaults_to_whatever_is_already_resting() {
    let mine = [("B1", "buy", 51.0, 6.0)];
    let plan = recenter(
        &mine,
        1000.0,
        10.0,
        Targets {
            bid: Some(F(51.5)),
            ..targets()
        },
    )
    .unwrap();
    assert_eq!(*plan.quantities.last().unwrap(), 6.0);
}

#[test]
fn both_sides_move_when_both_prices_are_given() {
    let mine = [("B1", "buy", 51.0, 4.0), ("A1", "sell", 53.0, 4.0)];
    let plan = recenter(
        &mine,
        1000.0,
        10.0,
        Targets {
            bid: Some(F(51.5)),
            ask: Some(F(52.5)),
            ..targets()
        },
    )
    .unwrap();
    assert_eq!(
        plan.ops,
        ["cancel buy", "create buy", "cancel sell", "create sell"]
    );
    assert!(plan.untouched.is_empty());
}

#[test]
fn cancel_always_precedes_the_matching_create() {
    // Posting first would double-commit capital and can breach per-property
    // coverage, which auto-cancels BOTH orders.
    let mine = [("B1", "buy", 51.0, 4.0)];
    let plan = recenter(
        &mine,
        1000.0,
        10.0,
        Targets {
            bid: Some(F(51.5)),
            ..targets()
        },
    )
    .unwrap();
    assert!(plan.ops[0].starts_with("cancel"));
    assert!(plan.ops[1].starts_with("create"));
}

#[test]
fn several_orders_of_a_side_are_merged_into_one() {
    let mine = [
        ("B1", "buy", 51.0, 4.0),
        ("A1", "sell", 53.0, 4.0),
        ("B2", "buy", 50.5, 2.0),
    ];
    let plan = recenter(
        &mine,
        1000.0,
        10.0,
        Targets {
            bid: Some(F(51.5)),
            ..targets()
        },
    )
    .unwrap();
    assert_eq!(plan.ops, ["cancel buy", "cancel buy", "create buy"]);
    assert_eq!(plan.quantities, [4.0, 2.0, 6.0]);
}

#[test]
fn a_side_without_a_size_cannot_be_moved() {
    let e = refused(recenter(
        &[],
        1000.0,
        10.0,
        Targets {
            ask: Some(F(53.0)),
            ..targets()
        },
    ));
    assert!(e.contains("no resting sell to take a size from — pass --ask-qty"), "{e}");
}

#[test]
fn refusals_quote_the_numbers_they_rest_on() {
    let mine = [("B1", "buy", 51.0, 4.0)];
    let message = |t: Targets<F>, usdc: f64| match recenter(&mine, usdc, 10.0, t) {
        Err(Failure::Usage(m)) => m,
        other => panic!("{:?}", other.map(|o| o.ops)),
    };
    let bid = |p: f64| Targets {
        bid: Some(F(p)),
        ..targets()
    };
    assert_eq!(
        message(bid(54.0), 1000.0),
        "bid $54.00 would cross the best ask $54.00 and fill immediately as a taker; this command only rests liquidity"
    );
    assert_eq!(
        message(bid(51.5), 100.0),
        "bid needs $206.00 of cover but the wallet holds $100.00 — Lofty auto-cancels uncovered orders"
    );
    assert_eq!(
        message(
            Targets {
                bid_qty: Some(2),
                ..bid(51.5)
            },
            1000.0
        ),
        "buy size 2 is below minContracts 4 — it would rest but earn nothing"
    );
    // Our $51 bid is part of the whole book, so the mid is $52.50.
    assert_eq!(
        message(bid(45.0), 1000.0),
        "buy $45.00 is outside the reward band [$50.50, $54.50] (mid $52.50) and would earn nothing — pass --allow-out-of-band to place it anyway"
    );
}

#[test]
fn a_one_sided_book_has_no_mid_to_measure_the_band_against() {
    let b = json(r#"{"orderbook": {"bids": [{"price": 50.0, "quantity": 4.0}], "asks": []}}"#);
    let mine = orders(&[("B1", "buy", 50.0, 4.0)]);
    let program = program();
    let e = plan_recenter(
        &program,
        &refs(&mine),
        &b,
        F(1000.0),
        F(10.0),
        Targets {
            bid: Some(F(50.5)),
            ..targets()
        },
    )
    .err()
    .unwrap();
    assert!(format!("{e:?}").contains("one-sided"), "{e:?}");
}

// ── provision ───────────────────────────────────────────────────────────────

#[test]
fn provision_plans_both_sides_at_once() {
    let plan = provision(&[], 1000.0, 10.0, 51.0, 53.0, Some(4), None).unwrap();
    assert_eq!(plan.ops, ["create buy", "create sell"]);
}

#[test]
fn provision_size_defaults_to_min_contracts() {
    let plan = provision(&[], 1000.0, 10.0, 51.0, 53.0, None, None).unwrap();
    assert_eq!(plan.quantities[0], 4.0);
}

#[test]
fn provision_refuses_rather_than_leaving_a_paid_for_one_sided_half() {
    // Only 2 tokens against a 4-token ask: the ask can't be covered. The bid
    // alone would rest, consume cover, and earn NOTHING — so plan neither.
    let e = refused(provision(&[], 1000.0, 2.0, 51.0, 53.0, Some(4), None));
    assert!(e.contains("held"), "{e}");
}

#[test]
fn provision_refuses_when_already_quoting() {
    let mine = [("B1", "buy", 51.0, 4.0)];
    let e = refused(provision(&mine, 1000.0, 10.0, 51.0, 53.0, Some(4), None));
    assert!(e.contains("recenter"), "{e}");
}

#[test]
fn provision_names_every_side_it_already_quotes() {
    let mine = [("A1", "sell", 53.0, 4.0), ("B1", "buy", 51.0, 4.0)];
    let e = refused(provision(&mine, 1000.0, 10.0, 51.0, 53.0, Some(4), None));
    assert!(e.contains("already quoting buy and sell on this property"), "{e}");
}

#[test]
fn provision_enforces_the_same_rails_as_recenter() {
    let ask = |bid, ask, qty, floor| provision(&[], 1000.0, 10.0, bid, ask, Some(qty), floor);
    // crossing
    assert!(ask(54.0, 55.0, 4, None).is_err());
    // out of band
    assert!(ask(45.0, 53.0, 4, None).is_err());
    // below minContracts
    assert!(ask(51.0, 53.0, 1, None).is_err());
    // below the ask floor
    assert!(ask(51.0, 52.5, 4, Some(53.0)).is_err());
}

// ── pull ────────────────────────────────────────────────────────────────────

#[test]
fn pull_cancels_everything_by_default() {
    let mine = [("B1", "buy", 51.0, 4.0), ("A1", "sell", 53.0, 4.0)];
    let plan = pull(&mine, None, None);
    assert_eq!(plan.ops, ["cancel buy", "cancel sell"]);
    assert!(plan.untouched.is_empty());
}

#[test]
fn keep_above_protects_a_recovery_ask_from_a_stand_down() {
    // The whole point: standing down must not sweep away the cost-basis ask
    // parked above the band waiting to recover the position.
    let mine = [("B1", "buy", 51.0, 4.0), ("A1", "sell", 72.80, 8.0)];
    let plan = pull(&mine, Some(70.0), None);
    assert_eq!(plan.ops, ["cancel buy"]);
    assert_eq!(plan.untouched[0].1, 72.80);
    assert_eq!(plan.untouched[0].2, Some("at or above --keep-above"));
}

#[test]
fn keep_above_never_protects_a_bid() {
    // It guards recovery ASKS; a bid at the same price is still pulled.
    let mine = [("B1", "buy", 71.0, 4.0)];
    let plan = pull(&mine, Some(70.0), None);
    assert_eq!(plan.ops, ["cancel buy"]);
}

#[test]
fn pull_can_be_limited_to_one_side() {
    let mine = [("B1", "buy", 51.0, 4.0), ("A1", "sell", 53.0, 4.0)];
    let plan = pull(&mine, None, Some(Side::Buy));
    assert_eq!(plan.ops, ["cancel buy"]);
    assert_eq!(plan.untouched[0].2, Some("other side"));
}

#[test]
fn pull_flags_when_it_leaves_a_non_earning_remainder() {
    let mine = [("B1", "buy", 51.0, 4.0), ("A1", "sell", 72.80, 8.0)];
    let plan = pull(&mine, Some(70.0), None);
    assert!(plan.notes[0].contains("earns nothing"), "{:?}", plan.notes);
}

#[test]
fn a_pull_plan_carries_no_market_because_it_places_nothing() {
    // A stand-down measures against no mid or band. The renderer must omit
    // them rather than default to $0.00, which reads as a real (wrong) market.
    let mine = [("B1", "buy", 51.0, 4.0)];
    let plan = pull(&mine, None, None);
    assert!(plan.band.is_none(), "pull should not invent a mid or a band");
    // Plans that DO place an order still carry both.
    let placed = provision(&[], 1000.0, 10.0, 51.0, 53.0, Some(4), None).unwrap();
    assert_eq!(placed.band, Some((52.0, 50.0, 54.0)));
}

#[test]
fn pull_with_nothing_to_cancel_plans_nothing() {
    let plan = pull(&[], None, None);
    assert!(plan.ops.is_empty());
}

#[test]
fn a_pull_that_sweeps_both_sides_says_nothing() {
    let mine = [("B1", "buy", 51.0, 4.0), ("A1", "sell", 53.0, 4.0)];
    assert!(pull(&mine, None, None).notes.is_empty());
    // Nothing cancelled: the remainder is not this command's doing.
    assert!(pull(&mine[1..], Some(1.0), None).notes.is_empty());
}

// ── carrying a plan out ─────────────────────────────────────────────────────

fn step<'a>(op: Op, direction: &'a str, price: f64, quantity: f64) -> Step<'a, F> {
    Step {
        op,
        direction,
        order_id: None,
        price: F(price),
        quantity: F(quantity),
        dist_from_mid: None,
    }
}

#[test]
fn partial_failure_message_names_what_landed_and_what_did_not() {
    // In --json mode this string IS the whole report (stdout carries only the
    // single error DTO), so it has to stand alone.
    let applied = [step(Op::Cancel, "buy", 62.25, 3.0)];
    let failed = step(Op::Create, "buy", 61.50, 3.0);
    let msg = partial_failure_message(&applied, &failed, "upstream 500");
    assert!(msg.contains("create buy $61.50 x3"), "{msg}");
    assert!(msg.contains("cancel buy $62.25 x3"), "{msg}");
    assert!(msg.contains("upstream 500"), "{msg}");
    assert!(msg.contains("earning $0"), "{msg}");
    assert!(msg.contains("rewards eligibility"), "{msg}");
}

#[test]
fn partial_failure_before_anything_applied_says_nothing_landed() {
    let failed = step(Op::Cancel, "buy", 62.25, 3.0);
    let msg = partial_failure_message(&[], &failed, "boom");
    assert!(msg.contains("Already applied: nothing"), "{msg}");
}

#[test]
fn partial_failure_diagnostic_lists_every_applied_step() {
    let applied = [step(Op::Cancel, "buy", 62.25, 3.0)];
    let failed = step(Op::Create, "buy", 61.50, 3.0);
    let lines = partial_failure_lines(&applied, &failed);
    assert!(lines[0].contains("FAILED partway"));
    assert!(lines
        .iter()
        .any(|l| l.contains("applied: cancel buy $62.25")));
    assert!(lines
        .iter()
        .any(|l| l.contains("FAILED:  create buy $61.50")));
}

#[test]
fn a_run_goes_on_while_it_succeeds_and_stops_at_the_first_failure() {
    let steps = vec![
        step(Op::Cancel, "buy", 62.25, 3.0),
        step(Op::Create, "buy", 61.50, 3.0),
        step(Op::Create, "sell", 65.0, 3.0),
    ];
    assert!(matches!(advance(&steps, 0, None), Progress::Continue(1)));
    assert!(matches!(advance(&steps, 2, None), Progress::Finished));
    match advance(&steps, 1, Some("HTTP 500".to_string())) {
        Progress::Stopped { lines, failure } => {
            assert_eq!(lines.len(), 4);
            assert_eq!(failure.exit_code(), 1);
            assert_eq!(
                failure.message(),
                "recenter failed partway on `create buy $61.50 x3`: HTTP 500. Already applied: cancel buy $62.25 x3. A side may now be unquoted and earning $0 — check `lofty rewards eligibility` and re-post it"
            );
        }
        other => panic!("{other:?}"),
    }
}

#[test]
fn a_cancellation_deletes_by_id_and_a_creation_posts_what_was_planned() {
    let id = json(r#""B1""#);
    let mut cancel = step(Op::Cancel, "buy", 62.25, 3.0);
    cancel.order_id = Some(&id);
    assert!(
        matches!(request_for(&cancel, P), Request::Delete { path } if path == "/public/v1/orders/B1")
    );
    cancel.order_id = None;
    assert!(
        matches!(request_for(&cancel, P), Request::Delete { path } if path == "/public/v1/orders/")
    );
    match request_for(&step(Op::Create, "sell", 65.0, 3.0), P) {
        Request::Post {
            property_id,
            direction,
            price,
            quantity,
        } => {
            assert_eq!((property_id, direction), (P, "sell"));
            assert_eq!((price, quantity), (F(65.0), F(3.0)));
        }
        other => panic!("{other:?}"),
    }
}

#[test]
fn nothing_is_sent_without_execute() {
    let (program, own, book) = (
        program(),
        orders(&[("B1", "buy", 51.0, 4.0)]),
        book(&[("B1", "buy", 51.0, 4.0)]),
    );
    let st = State {
        program: &program,
        mine: refs(&own),
        book: &book,
        usdc: F(1.0),
        held: F(1.0),
    };
    let plan = plan_pull(&st, None, None);
    match disposition(&plan, false, "pull", P) {
        Disposition::Show { schema, mode } => {
            assert_eq!(schema, "quote-plan");
            assert_eq!(mode, Render::DryRun);
        }
        other => panic!("{other:?}"),
    }
    match disposition(&plan, true, "pull", P) {
        Disposition::Confirm(text) => {
            assert_eq!(text, format!("pull {P}: 1 order operation(s) on real money"))
        }
        other => panic!("{other:?}"),
    }
    let idle = plan_pull(&st, None, Some(Side::Sell));
    assert!(matches!(
        disposition(&idle, true, "pull", P),
        Disposition::Show {
            schema: "quote-noop",
            mode: Render::NoOp
        }
    ));
}

fn texts(lines: &[Line<F>]) -> Vec<String> {
    lines
        .iter()
        .map(|l| match l {
            Line::Out(s) => format!("out:{s}"),
            Line::Note(s) => format!("note:{s}"),
            Line::Table(t) => panic!("{t:?}"),
        })
        .collect()
}

#[test]
fn a_dry_run_reads_as_documented() {
    let mine = [("B1", "buy", 51.0, 4.0), ("A1", "sell", 53.0, 8.0)];
    let (program, own, book) = (program(), orders(&mine), book(&mine));
    let own = refs(&own);
    let t = Targets {
        bid: Some(F(51.5)),
        ..targets()
    };
    let plan = plan_recenter(&program, &own, &book, F(1000.0), F(10.0), t).unwrap();
    assert_eq!(
        texts(&render_plan(&plan, Render::DryRun)),
        [
            "out:DRY RUN — nothing sent. mid $52.00, reward band [$50.00, $54.00]",
            "out:  cancel buy $51.00 x4",
            "out:  create buy $51.50 x4  (0.50 from mid)",
            "out:  keep   sell $53.00 x8 (untouched)",
            "note:re-run with --execute to apply",
        ]
    );
    assert_eq!(
        texts(&render_applied(&plan.steps)),
        ["out:  done: cancel buy $51.00 x4", "out:  done: create buy $51.50 x4"]
    );
}

#[test]
fn a_stand_down_shows_no_market() {
    let mine = [("A1", "sell", 13.60, 1.0)];
    let (program, own, book) = (program(), orders(&mine), book(&mine));
    let st = State {
        program: &program,
        mine: refs(&own),
        book: &book,
        usdc: F(0.0),
        held: F(1.0),
    };
    let plan = plan_pull(&st, Some(F(13.0)), None);
    assert_eq!(
        texts(&render_plan(&plan, Render::DryRun)),
        [
            "out:DRY RUN — nothing sent.",
            "out:  keep   sell $13.60 x1 (untouched)",
            "note:re-run with --execute to apply",
        ]
    );
    assert_eq!(
        texts(&render_plan(&plan, Render::NoOp))[0],
        "out:nothing to do — no matching orders."
    );
}

// ── arguments and state ─────────────────────────────────────────────────────

fn usage(r: Result<(), Failure>) -> String {
    match r {
        Err(Failure::Usage(m)) => m,
        other => panic!("{other:?}"),
    }
}

#[test]
fn quote_recenter_bad_args_fail_before_the_keychain_is_touched() {
    // A recenter naming neither side must be a usage error (exit 2) — not an auth
    // error, and not a keychain prompt on a machine with no key stored.
    for bad in [
        check_recenter::<F>(None, None, None),
        check_recenter(Some(F(0.0)), None, None),
    ] {
        let e = bad.unwrap_err();
        assert_eq!(e.exit_code(), 2);
        assert_eq!(e.label(), "usage");
    }
}

#[test]
fn quote_prices_are_at_least_a_cent() {
    let one = Some(F(1.0));
    assert!(check_recenter(one, None, Some(F(0.01))).is_ok());
    assert_eq!(
        usage(check_recenter(one, Some(F(0.009)), one)),
        "--ask must be at least $0.01"
    );
    assert_eq!(
        usage(check_recenter(Some(F(f64::NAN)), one, None)),
        "--bid must be at least $0.01"
    );
    assert_eq!(
        usage(check_provision(F(1.0), F(2.0), Some(F(-1.0)))),
        "--min-ask must be at least $0.01"
    );
    assert_eq!(
        usage(check_provision(F(2.0), F(2.0), None)),
        "--bid $2.00 must be below --ask $2.00"
    );
    assert!(check_provision(F(1.0), F(2.0), None).is_ok());
    assert!(check_pull(Some(F(0.0))).is_ok());
    assert!(check_pull::<F>(None).is_ok());
    assert_eq!(
        usage(check_pull(Some(F(-0.5)))),
        "--keep-above must be a non-negative price"
    );
}

#[test]
fn the_state_of_a_property_is_gathered_from_the_account() {
    let programs = json(&format!(
        r#"{{"programs": [{{"propertyId": "other"}}, {{"propertyId": "{P}", "minContracts": 4}}]}}"#
    ));
    let orders = json(
        r#"{"orders": [{"orderId": "1", "status": "active"}, {"orderId": "2", "status": "cancelled"}, {"orderId": "3"}]}"#,
    );
    let book = json("{}");
    let balance = json(r#"{"usdc": 12.5}"#);
    let positions = json(&format!(
        r#"{{"positions": [{{"propertyId": "{P}", "currentTokens": 3}}]}}"#
    ));
    let program = program_for(&programs, P).unwrap();
    let st = state_from(program, &orders, &book, &balance, &positions, P);
    assert_eq!(st.program.number_in("minContracts"), Some(F(4.0)));
    assert_eq!(st.mine.len(), 1);
    assert_eq!((st.usdc, st.held), (F(12.5), F(3.0)));
    match program_for(&programs, "missing") {
        Err(Failure::NotFound(m)) => assert_eq!(m, "no active LP program for missing"),
        other => panic!("{other:?}"),
    }
    let bare = state_from(program, &book, &book, &book, &book, P);
    assert!(bare.mine.is_empty());
    assert_eq!((bare.usdc, bare.held), (F(0.0), F(0.0)));
}

#[test]
fn a_recenter_is_refused_while_the_side_left_in_place_is_uncovered() {
    let mine = [("B1", "buy", 51.0, 4.0), ("A1", "sell", 53.0, 4.0)];
    let ask_only = || Targets {
        ask: Some(F(53.5)),
        ..targets()
    };
    let bid_only = || Targets {
        bid: Some(F(51.5)),
        ..targets()
    };
    // The bid that stays needs $204, whatever the ask does.
    let e = recenter(&mine, 100.0, 10.0, ask_only()).unwrap_err();
    assert_eq!(e.exit_code(), 2);
    assert_eq!(
        e.message(),
        "bid needs $204.00 of cover but the wallet holds $100.00 — Lofty auto-cancels uncovered orders"
    );
    assert!(recenter(&mine, 204.0, 10.0, ask_only()).is_ok());
    // The ask that stays needs four tokens, whatever the bid does.
    let e = recenter(&mine, 1000.0, 3.0, bid_only()).unwrap_err();
    assert_eq!(
        e.message(),
        "ask needs 4 token(s) but only 3 are held — Lofty auto-cancels uncovered orders"
    );
    assert!(recenter(&mine, 1000.0, 4.0, bid_only()).is_ok());
    // An empty side commits nothing.
    assert!(recenter(&mine[1..], 0.0, 4.0, ask_only()).is_ok());
}
