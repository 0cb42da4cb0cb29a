use lofty::amount::Amount;
use lofty::commands::rewards::calendar::fmt_period;
use lofty::commands::rewards::eligibility::{
    eligibility, eligibility_report, engaged_programs, orders_for, render_eligibility, score_order,
};
use lofty::commands::rewards::reconcile::{reconcile, render_reconcile};
use lofty::commands::rewards::{
    collect_rewards, cursor_to_show, history_query, next_cursor, page_query, PAGE_CAP,
};
use lofty::failure::Failure;
use lofty::json::Json;
use lofty::report::{Cell, Line};

/// Double-precision amounts.
#[derive(Clone, Copy, Debug, PartialEq)]
struct F(f64);

impl Amount for F {
    fn of(n: u64) -> F {
        F(n as f64)
    }
    fn beyond_all() -> F {
        F(f64::INFINITY)
    }
    fn plus(self, other: F) -> F {
        F(self.0 + other.0)
    }
    fn minus(self, other: F) -> F {
        F(self.0 - other.0)
    }
    fn times(self, other: F) -> F {
        F(self.0 * other.0)
    }
    fn over(self, other: F) -> F {
        F(self.0 / other.0)
    }
    fn absolute(self) -> F {
        F(self.0.abs())
    }
    fn larger_of(self, other: F) -> F {
        F(self.0.max(other.0))
    }
    fn smaller_of(self, other: F) -> F {
        F(self.0.min(other.0))
    }
    fn rounded(self) -> F {
        F(self.0.round())
    }
    fn is_below(self, other: F) -> bool {
        self.0 < other.0
    }
    fn is_at_most(self, other: F) -> bool {
        self.0 <= other.0
    }
    fn is_finite(self) -> bool {
        self.0.is_finite()
    }
    fn order_key(self) -> i128 {
        let bits = self.0.to_bits() as i64;
        i128::from(bits ^ ((((bits >> 63) as u64) >> 1) as i64))
    }
    fn fixed(self, digits: u8) -> String {
        format!("{:.*}", usize::from(digits), self.0)
    }
    fn plain(self) -> String {
        format!("{}", self.0)
    }
}

fn payload(v: &serde_json::Value) -> Json<F> {
    match v {
        serde_json::Value::Null => Json::Null,
        serde_json::Value::Bool(b) => Json::Bool(*b),
        serde_json::Value::Number(n) => Json::Number {
            value: F(n.as_f64().unwrap()),
            whole: n.as_u64(),
        },
        serde_json::Value::String(s) => Json::Text(s.clone()),
        serde_json::Value::Array(a) => Json::List(a.iter().map(payload).collect()),
        serde_json::Value::Object(m) => {
            Json::Record(m.iter().map(|(k, v)| (k.clone(), payload(v))).collect())
        }
    }
}

fn json(text: &str) -> Json<F> {
    payload(&serde_json::from_str(text).unwrap())
}

fn refs(items: &[Json<F>]) -> Vec<&Json<F>> {
    items.iter().collect()
}

const HR: u64 = 3_600_000;
const T0: u64 = 1_784_764_800_000; // 2026-07-23 00:00 UTC

fn programs() -> Vec<Json<F>> {
    vec![json(&format!(
        r#"{{"propertyId": "01SAMPLEPROP0000000000001", "dailyRewards": 10, "blocksPerDay": 24, "blockDurationMs": {HR}, "address": {{"line2": "Sample City, ST 00000"}}}}"#
    ))]
}

// Pool per block = 10/24 = 0.416666..., so amount = pct/100 * that.
fn payout(period: u64, pct: f64) -> Json<F> {
    let amount = pct / 100.0 * (10.0 / 24.0);
    json(&format!(
        r#"{{"propertyId": "01SAMPLEPROP0000000000001", "periodStart": {period}, "percentOfPool": {pct:?}, "amount": {amount:?}}}"#
    ))
}

// ── reconcile ───────────────────────────────────────────────────────────────

#[test]
fn sums_earnings_and_averages_pool_share() {
    let rewards = vec![payout(T0, 20.0), payout(T0 + HR, 10.0)];
    let r = reconcile(&refs(&rewards), &refs(&programs()));
    let p = &r.properties[0];
    assert_eq!(p.payouts, 2);
    assert!((p.earned.0 - (30.0 / 100.0 * 10.0 / 24.0)).abs() < 1e-9);
    assert!((p.avg_percent_of_pool.0 - 15.0).abs() < 1e-9);
    assert_eq!(r.total_payouts, 2);
}

#[test]
fn detects_a_missing_period_mid_streak() {
    // periods at T0, T0+1h, then T0+3h → T0+2h is the gap.
    let rewards = vec![
        payout(T0, 10.0),
        payout(T0 + HR, 10.0),
        payout(T0 + 3 * HR, 10.0),
    ];
    let r = reconcile(&refs(&rewards), &refs(&programs()));
    let gaps = &r.properties[0].gaps;
    assert_eq!(gaps.len(), 1);
    assert_eq!(gaps[0], T0 + 2 * HR);
    assert_eq!(r.total_gaps, 1);
}

#[test]
fn flags_a_payout_inconsistent_with_the_pool() {
    // amount doesn't match 15% of the 0.41666 pool → one mismatch.
    let bad = vec![json(&format!(
        r#"{{"propertyId": "01SAMPLEPROP0000000000001", "periodStart": {T0}, "percentOfPool": 15.0, "amount": 999.0}}"#
    ))];
    let r = reconcile(&refs(&bad), &refs(&programs()));
    assert_eq!(r.properties[0].inconsistent_payouts, 1);
}

#[test]
fn a_payout_at_no_share_of_the_pool_is_a_mismatch() {
    let paid = |pct: &str, amount: &str| {
        let rewards = vec![json(&format!(
            r#"{{"propertyId": "01SAMPLEPROP0000000000001", "periodStart": {T0}, "percentOfPool": {pct}, "amount": {amount}}}"#
        ))];
        let r = reconcile(&refs(&rewards), &refs(&programs()));
        r.properties[0].inconsistent_payouts
    };
    assert_eq!(paid("0.0", "5.0"), 1);
    assert_eq!(paid("null", "5.0"), 1);
    assert_eq!(paid("0.0", "-0.02"), 1);
    // A negative share of the pool of 10/24.
    assert_eq!(paid("-24", "5.0"), 1);
    assert_eq!(paid("-24", "-0.1"), 0);
    // To the cent, nothing is the right payout for no share.
    assert_eq!(paid("0.0", "0.0"), 0);
    assert_eq!(paid("0.0", "0.01"), 0);
}

#[test]
fn fmt_period_is_utc_civil() {
    assert_eq!(fmt_period(T0), "2026-07-23 00:00 UTC");
    assert_eq!(fmt_period(T0 + 13 * HR), "2026-07-23 13:00 UTC");
}

#[test]
fn the_calendar_knows_its_leap_years() {
    let day = 86_400_000u64;
    assert_eq!(fmt_period(0), "1970-01-01 00:00 UTC");
    assert_eq!(fmt_period(59 * day + 59_999), "1970-03-01 00:00 UTC");
    assert_eq!(fmt_period(951_782_400_000), "2000-02-29 00:00 UTC");
    assert_eq!(fmt_period(951_782_400_000 + day), "2000-03-01 00:00 UTC");
    assert_eq!(fmt_period(1_709_251_199_999), "2024-02-29 23:59 UTC");
    assert_eq!(fmt_period(4_107_542_399_999), "2100-02-28 23:59 UTC");
    assert_eq!(fmt_period(4_107_542_400_000), "2100-03-01 00:00 UTC");
    assert_eq!(fmt_period(253_402_300_800_000), "10000-01-01 00:00 UTC");
}

#[test]
fn periods_are_put_in_order_and_counted_once() {
    let rewards = vec![
        payout(T0 + 4 * HR, 10.0),
        payout(T0, 10.0),
        payout(T0 + 4 * HR, 10.0),
        payout(T0 + 2 * HR, 10.0),
    ];
    let r = reconcile(&refs(&rewards), &refs(&programs()));
    let p = &r.properties[0];
    assert_eq!(p.payouts, 4);
    assert_eq!((p.first_period, p.last_period), (T0, T0 + 4 * HR));
    assert_eq!(p.gaps, [T0 + HR, T0 + 3 * HR]);
}

#[test]
fn a_property_without_a_program_is_held_to_the_usual_terms() {
    let rewards = vec![payout(T0, 20.0), payout(T0 + 2 * HR, 10.0)];
    let r = reconcile(&refs(&rewards), &vec![]);
    let p = &r.properties[0];
    assert_eq!(p.name, "01SAMPLEPROP0000000000001");
    assert_eq!(p.inconsistent_payouts, 0);
    assert_eq!(p.gaps, [T0 + HR]);
    assert_eq!(reconcile::<F>(&vec![], &vec![]).properties.len(), 0);
}

#[test]
fn the_last_program_of_a_property_sets_its_terms() {
    let terms = vec![
        json(r#"{"propertyId": "a", "dailyRewards": 1, "blocksPerDay": 0}"#),
        json(r#"{"propertyId": "a", "dailyRewards": 4, "blocksPerDay": 0, "blockDurationMs": 0}"#),
    ];
    let rewards = vec![
        json(r#"{"propertyId": "a", "periodStart": 1, "percentOfPool": 50, "amount": 2}"#),
        json(r#"{"propertyId": "a", "periodStart": 9000000, "percentOfPool": 50, "amount": 3}"#),
    ];
    let r = reconcile(&refs(&rewards), &refs(&terms));
    // Half of a pool of 4 is 2, so the second payout is off; a period of no length
    // has no gaps.
    assert_eq!(r.properties[0].inconsistent_payouts, 1);
    assert!(r.properties[0].gaps.is_empty());
    assert_eq!(r.properties[0].earned, F(5.0));
}

#[test]
fn the_best_earner_is_listed_first() {
    let rewards = vec![
        json(r#"{"propertyId": "a", "amount": 1}"#),
        json(r#"{"propertyId": "c", "amount": 5}"#),
        json(r#"{"propertyId": "b", "amount": 5}"#),
        json(r#"{"amount": 2}"#),
    ];
    let r = reconcile(&refs(&rewards), &vec![]);
    let ids: Vec<&str> = r
        .properties
        .iter()
        .map(|p| p.property_id.as_str())
        .collect();
    assert_eq!(ids, ["b", "c", "", "a"]);
    assert_eq!(r.total_earned, F(13.0));
}

#[test]
fn reconciliation_report_reads_as_documented() {
    let rewards = vec![
        payout(T0, 20.0),
        payout(T0 + 2 * HR, 20.0),
        json(&format!(
            r#"{{"propertyId": "01SAMPLEPROP0000000000001", "periodStart": {}, "percentOfPool": 20.0, "amount": 3.0}}"#,
            T0 + 3 * HR
        )),
    ];
    let lines = render_reconcile(&reconcile(&refs(&rewards), &refs(&programs())));
    match &lines[0] {
        Line::Table(t) => {
            assert_eq!(
                t.headings,
                ["property", "payouts", "earned", "avg%pool", "gaps", "mismatch"]
            );
            assert!(matches!(&t.rows[0][0], Cell::Text(s) if s == "Sample City, ST 00000"));
            assert!(matches!(&t.rows[0][1], Cell::Count(3)));
            assert!(matches!(&t.rows[0][2], Cell::Text(s) if s == "$3.1667"));
            assert!(matches!(&t.rows[0][3], Cell::Text(s) if s == "20.0"));
            assert!(matches!(&t.rows[0][4], Cell::Count(1)));
            assert!(matches!(&t.rows[0][5], Cell::Count(1)));
        }
        other => panic!("{other:?}"),
    }
    let notes: Vec<&str> = lines[1..]
        .iter()
        .map(|l| match l {
            Line::Note(s) => s.as_str(),
            other => panic!("{other:?}"),
        })
        .collect();
    assert_eq!(
        notes,
        [
            "total: $3.1667 across 3 payout(s); 1 gap period(s)",
            "  ⚠ Sample City, ST 00000: 1 period(s) with no payout — verify eligibility: 2026-07-23 01:00 UTC",
            "  ⚠ Sample City, ST 00000: some payouts don't match percentOfPool x pool — report to Lofty",
        ]
    );
}

#[test]
fn paging_stops_at_the_end_at_a_repeat_and_at_the_cap() {
    let page = json(r#"{"rewards": [{"amount": 1}], "nextCursor": "c2"}"#);
    assert_eq!(next_cursor(&page, None, 1), Some("c2"));
    assert_eq!(next_cursor(&page, Some("c1"), 49), Some("c2"));
    assert_eq!(next_cursor(&page, Some("c2"), 2), None);
    assert_eq!(next_cursor(&page, Some("c1"), PAGE_CAP), None);
    let last = json(r#"{"rewards": [{"amount": 2}, {"amount": 3}], "nextCursor": null}"#);
    assert_eq!(next_cursor(&last, Some("c2"), 2), None);
    assert!(cursor_to_show(&last).is_none());
    assert!(cursor_to_show(&page).is_some());
    let pages = vec![page, json("{}"), last];
    let amounts: Vec<Option<F>> = collect_rewards(&pages)
        .iter()
        .map(|r| r.number_in("amount"))
        .collect();
    assert_eq!(amounts, [Some(F(1.0)), Some(F(2.0)), Some(F(3.0))]);
}

#[test]
fn history_queries_send_only_what_is_given() {
    assert_eq!(history_query(None, None, None), vec![]);
    assert_eq!(
        history_query(Some(T0), Some(5), Some("c")),
        vec![
            ("since", "1784764800000".to_string()),
            ("limit", "5".to_string()),
            ("cursor", "c".to_string()),
        ]
    );
    assert_eq!(
        page_query(None, Some("c")),
        vec![("limit", "200".to_string()), ("cursor", "c".to_string())]
    );
}

// ── eligibility ─────────────────────────────────────────────────────────────

const P: &str = "01SAMPLEPROPERTY000000000A";

fn program() -> Json<F> {
    json(&format!(
        r#"{{"propertyId": "{P}", "dailyRewards": 10.0, "allowedSpread": 2.0, "minContracts": 4.0, "minTwoSidedLiquidity": 1.0, "address": {{"line2": "Sample City, ST 00000"}}}}"#
    ))
}

/// Book with a $50/$52 inside market → mid $51, band [$49, $53].
fn book(extra_bids: &str, extra_asks: &str) -> Json<F> {
    json(&format!(
        r#"{{"orderbook": {{"bids": [{{"price": 50.0, "quantity": 4.0}}{extra_bids}], "asks": [{{"price": 52.0, "quantity": 4.0}}{extra_asks}]}}}}"#
    ))
}

fn order(dir: &str, price: f64, qty: f64) -> Json<F> {
    json(&format!(
        r#"{{"propertyId": "{P}", "direction": "{dir}", "price": {price:?}, "quantity": {qty:?}, "status": "active"}}"#
    ))
}

#[test]
fn two_sided_in_band_and_covered_earns() {
    let mine = [order("buy", 50.0, 4.0), order("sell", 52.0, 4.0)];
    let program = program();
    let r = eligibility(&program, &refs(&mine), &book("", ""), F(1000.0), F(10.0));
    assert!(r.earning);
    let s = r.standing.unwrap();
    assert!(s.two_sided);
    assert!(r.reason.is_none());
    assert!(s.band.mid.0 - 51.0 < 1e-9);
    assert!(r.expected_daily.0 > 0.0);
}

#[test]
fn a_tiny_out_of_band_ask_still_qualifies_the_side() {
    // Regression, confirmed against observed payouts: a 4-share in-band bid
    // plus a 1-share ask parked far out of band — the ask failing BOTH
    // minContracts and the band. The bid's score earns because
    // minTwoSidedLiquidity (1), not minContracts, decides whether a side exists.
    let mine = [order("buy", 50.0, 4.0), order("sell", 60.0, 1.0)];
    let program = program();
    let r = eligibility(&program, &refs(&mine), &book("", ""), F(1000.0), F(10.0));
    assert!(r.standing.unwrap().two_sided);
    assert!(r.earning);
    assert!(r.expected_daily.0 > 0.0);
    // ...while contributing no score of its own.
    let ask = r.orders.iter().find(|o| o.direction == "sell").unwrap();
    assert!(!ask.scoring);
    assert!(!ask.meets_min_contracts);
    assert!(!ask.in_band);
}

#[test]
fn a_bid_alone_earns_nothing_however_good_it_is() {
    // The single most expensive mistake: one-sided liquidity earns NOTHING,
    // even resting exactly at mid with plenty of size and cover.
    let mine = [order("buy", 51.0, 10.0)];
    let program = program();
    let r = eligibility(&program, &refs(&mine), &book("", ""), F(1000.0), F(10.0));
    assert!(!r.earning);
    assert!(!r.standing.unwrap().two_sided);
    assert!(r.reason.unwrap().contains("no qualifying ASK"));
    assert_eq!(r.expected_daily, F(0.0));
}

#[test]
fn an_ask_alone_earns_nothing_either() {
    let mine = [order("sell", 51.0, 10.0)];
    let program = program();
    let r = eligibility(&program, &refs(&mine), &book("", ""), F(1000.0), F(10.0));
    assert!(!r.standing.unwrap().two_sided);
    assert!(r.reason.unwrap().contains("no qualifying BID"));
}

#[test]
fn an_undersized_order_qualifies_its_side_but_never_scores() {
    // 2 tokens against minContracts 4. minContracts gates SCORE;
    // minTwoSidedLiquidity (1) gates whether the side exists.
    let mine = [order("buy", 50.0, 4.0), order("sell", 52.0, 2.0)];
    let program = program();
    let r = eligibility(&program, &refs(&mine), &book("", ""), F(1000.0), F(10.0));
    assert!(r.standing.unwrap().two_sided);
    assert!(r.earning); // the in-band bid scores
    let ask = &r.orders[1];
    assert!(!ask.meets_min_contracts);
    assert!(!ask.scoring); // the undersized ask contributes none
    assert!(ask.issues.iter().any(|i| *i == "below minContracts"));
}

#[test]
fn an_uncovered_bid_is_reported_and_stops_the_reward() {
    // Bid needs $200 but the wallet holds $50 → uncovered, so no qualifying bid.
    let mine = [order("buy", 50.0, 4.0), order("sell", 52.0, 4.0)];
    let program = program();
    let r = eligibility(&program, &refs(&mine), &book("", ""), F(50.0), F(10.0));
    assert!(!r.orders[0].covered);
    assert!(!r.earning);
    assert!(r.reason.unwrap().contains("no qualifying BID"));
}

#[test]
fn an_ask_beyond_held_tokens_is_uncovered() {
    let mine = [order("buy", 50.0, 4.0), order("sell", 52.0, 4.0)];
    let program = program();
    let r = eligibility(&program, &refs(&mine), &book("", ""), F(1000.0), F(1.0));
    assert!(!r.orders[1].covered);
    assert!(r.reason.unwrap().contains("no qualifying ASK"));
}

#[test]
fn out_of_band_orders_qualify_the_side_but_never_score() {
    // Ask at $70 is far outside [$49, $53]: it still establishes the ask side
    // (sized + covered), but only the in-band bid accrues score.
    let mine = [order("buy", 50.0, 4.0), order("sell", 70.0, 4.0)];
    let program = program();
    let r = eligibility(&program, &refs(&mine), &book("", ""), F(1000.0), F(10.0));
    assert!(r.standing.unwrap().two_sided);
    assert!(r.earning);
    assert!(!r.orders[1].in_band);
    assert!(!r.orders[1].scoring);
    assert!(r.orders[0].scoring);
}

#[test]
fn score_rises_quadratically_toward_mid() {
    let score = |d: f64, s: f64, q: f64| score_order(F(d), F(s), F(q)).0;
    // Published formula: ((spread + 1 - dist) / (spread + 1))^2 * qty.
    assert!((score(0.0, 2.0, 1.0) - 1.0).abs() < 1e-9); // at mid → full weight
    assert!((score(1.0, 2.0, 1.0) - (2.0f64 / 3.0).powi(2)).abs() < 1e-9);
    assert!((score(3.0, 2.0, 1.0) - 0.0).abs() < 1e-9); // past the band → 0
    // Doubling size doubles score; halving distance more than doubles it.
    assert!((score(1.0, 2.0, 2.0) - 2.0 * score(1.0, 2.0, 1.0)).abs() < 1e-9);
    assert!(score(0.5, 2.0, 1.0) / score(1.0, 2.0, 1.0) > 1.0);
}

#[test]
fn competition_excludes_our_own_resting_size() {
    // We are the entire book, so nothing competes and the pool is all ours.
    let mine = [order("buy", 50.0, 4.0), order("sell", 52.0, 4.0)];
    let program = program();
    let r = eligibility(&program, &refs(&mine), &book("", ""), F(1000.0), F(10.0));
    let s = r.standing.unwrap();
    assert_eq!(s.competing_score, F(0.0));
    assert!((s.expected_share.0 - 1.0).abs() < 1e-9);
    assert!((r.expected_daily.0 - 10.0).abs() < 1e-9);
}

#[test]
fn a_crowded_book_shrinks_our_share() {
    let mine = [order("buy", 50.0, 4.0), order("sell", 52.0, 4.0)];
    let crowded = book(
        r#", {"price": 50.5, "quantity": 40.0}"#,
        r#", {"price": 51.5, "quantity": 40.0}"#,
    );
    let program = program();
    let r = eligibility(&program, &refs(&mine), &crowded, F(1000.0), F(10.0));
    let s = r.standing.unwrap();
    assert!(s.competing_score.0 > 0.0);
    assert!(s.expected_share.0 < 0.2, "share {:?}", s.expected_share);
}

#[test]
fn a_one_sided_book_has_no_mid_to_measure_against() {
    let only_bids =
        json(r#"{"orderbook": {"bids": [{"price": 50.0, "quantity": 4.0}], "asks": []}}"#);
    let mine = [order("buy", 50.0, 4.0)];
    let program = program();
    let r = eligibility(&program, &refs(&mine), &only_bids, F(1000.0), F(10.0));
    assert!(!r.earning);
    assert!(r.reason.unwrap().contains("one-sided or empty"));
}

#[test]
fn reads_the_legacy_orderbook_envelope() {
    let legacy = json(
        r#"{"orderbook": {"orderBook": {"buyOrders": [{"price": 50.0, "quantity": 4.0}], "sellOrders": [{"price": 52.0, "quantity": 4.0}]}}}"#,
    );
    let mine = [order("buy", 50.0, 4.0), order("sell", 52.0, 4.0)];
    let program = program();
    let r = eligibility(&program, &refs(&mine), &legacy, F(1000.0), F(10.0));
    assert!((r.standing.unwrap().band.mid.0 - 51.0).abs() < 1e-9);
    assert!(r.earning);
}

#[test]
fn two_sided_without_a_scoring_order_says_so() {
    let mine = [order("buy", 45.0, 4.0), order("sell", 60.0, 4.0)];
    let program = program();
    let r = eligibility(&program, &refs(&mine), &book("", ""), F(1000.0), F(10.0));
    assert!(!r.earning);
    assert_eq!(
        r.reason,
        Some("two-sided, but no order is in-band and sized, so nothing scores")
    );
    assert_eq!(r.expected_daily, F(0.0));
}

#[test]
fn only_programs_with_orders_of_ours_are_looked_at() {
    let programs = [
        json(r#"{"propertyId": "a"}"#),
        program(),
        json(r#"{"propertyId": "c"}"#),
    ];
    let active = [order("buy", 50.0, 4.0)];
    let (programs, active) = (refs(&programs), refs(&active));
    let engaged = engaged_programs(&programs, &active, None);
    assert_eq!(engaged.len(), 1);
    assert_eq!(orders_for(&active, engaged[0]).len(), 1);
    assert!(engaged_programs(&programs, &active, Some("a")).is_empty());
    match eligibility_report::<F>(vec![], Some("a")) {
        Err(Failure::NotFound(m)) => {
            assert_eq!(m, "no open orders on an LP-reward property for a")
        }
        other => panic!("{other:?}"),
    }
    match eligibility_report::<F>(vec![], None) {
        Err(Failure::NotFound(m)) => assert_eq!(m, "no open orders on any LP-reward property"),
        other => panic!("{other:?}"),
    }
}

#[test]
fn eligibility_report_reads_as_documented() {
    let (earning, idle) = (program(), json(r#"{"propertyId": "b", "allowedSpread": 1, "minContracts": 4}"#));
    let mine = [order("buy", 50.0, 4.0), order("sell", 52.0, 4.0)];
    let lone = [order("sell", 13.60, 1.0)];
    let rows = vec![
        eligibility(&earning, &refs(&mine), &book("", ""), F(1000.0), F(10.0)),
        eligibility(&idle, &refs(&lone), &book("", ""), F(1000.0), F(10.0)),
        eligibility(&idle, &refs(&lone), &json("{}"), F(1000.0), F(10.0)),
    ];
    let report = eligibility_report(rows, None).unwrap();
    assert_eq!(report.expected_daily_total, F(10.0));
    let lines: Vec<String> = render_eligibility(&report)
        .iter()
        .map(|l| match l {
            Line::Out(s) => format!("out:{s}"),
            Line::Note(s) => format!("note:{s}"),
            Line::Table(t) => panic!("{t:?}"),
        })
        .collect();
    assert_eq!(
        lines,
        [
            "out:Sample City, ST 00000: EARNING — 100.0% of pool ≈ $10.00/day (mid $51.00, competing score 0.0)",
            "out:b: $0 — not two-sided: no qualifying BID (one-sided liquidity earns nothing)",
            "out:    sell $13.60 x1 — out of band, below minContracts",
            "out:?: $0 — order book is one-sided or empty — no mid to measure against",
            "note:projected total: $10.00/day across 3 properties",
        ]
    );
}
