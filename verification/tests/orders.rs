use lofty::amount::Amount;
use lofty::commands::amm::{
    absurd_slippage_pct, bound_field, check_quote, check_swap, implied_slippage_pct, pools_query,
    quote_query, round2, swap_terms, Bounds,
};
use lofty::commands::orders::{
    cancel_summary, check_confirmable, check_order, check_price, list_query, market_view,
    min_contracts_note_from, order_summary, MarketView,
};
use lofty::failure::Failure;
use lofty::json::Json;
use lofty::micros::Micros;

/// Double-precision amounts.
#[derive(Clone, Copy, Debug, PartialEq)]
struct F(f64);

impl Amount for F {
    fn of(n: u64) -> F {
        F(n as f64)
    }
    fn beyond_all() -> F {
        F(f64::INFINITY)
    }
    fn plus(self, other: F) -> F {
        F(self.0 + other.0)
    }
    fn minus(self, other: F) -> F {
        F(self.0 - other.0)
    }
    fn times(self, other: F) -> F {
        F(self.0 * other.0)
    }
    fn over(self, other: F) -> F {
        F(self.0 / other.0)
    }
    fn absolute(self) -> F {
        F(self.0.abs())
    }
    fn larger_of(self, other: F) -> F {
        F(self.0.max(other.0))
    }
    fn smaller_of(self, other: F) -> F {
        F(self.0.min(other.0))
    }
    fn rounded(self) -> F {
        F(self.0.round())
    }
    fn is_below(self, other: F) -> bool {
        self.0 < other.0
    }
    fn is_at_most(self, other: F) -> bool {
        self.0 <= other.0
    }
    fn is_finite(self) -> bool {
        self.0.is_finite()
    }
    fn order_key(self) -> i128 {
        let bits = self.0.to_bits() as i64;
        i128::from(bits ^ ((((bits >> 63) as u64) >> 1) as i64))
    }
    fn fixed(self, digits: u8) -> String {
        format!("{:.*}", usize::from(digits), self.0)
    }
    fn plain(self) -> String {
        format!("{}", self.0)
    }
}

fn payload(v: &serde_json::Value) -> Json<F> {
    match v {
        serde_json::Value::Null => Json::Null,
        serde_json::Value::Bool(b) => Json::Bool(*b),
        serde_json::Value::Number(n) => Json::Number {
            value: F(n.as_f64().unwrap()),
            whole: n.as_u64(),
        },
        serde_json::Value::String(s) => Json::Text(s.clone()),
        serde_json::Value::Array(a) => Json::List(a.iter().map(payload).collect()),
        serde_json::Value::Object(m) => {
            Json::Record(m.iter().map(|(k, v)| (k.clone(), payload(v))).collect())
        }
    }
}

fn json(text: &str) -> Json<F> {
    payload(&serde_json::from_str(text).unwrap())
}


fn levels(prices: &[f64]) -> String {
    let all: Vec<String> = prices
        .iter()
        .map(|p| format!(r#"{{"price": {p:?}, "quantity": 1}}"#))
        .collect();
    all.join(",")
}

fn book(bids: &[f64], asks: &[f64]) -> Json<F> {
    json(&format!(
        r#"{{"orderbook": {{"bids": [{}], "asks": [{}]}}}}"#,
        levels(bids),
        levels(asks)
    ))
}

fn feed(best_bid: f64, best_ask: f64, prints: &[(f64, u64)]) -> Json<F> {
    let all: Vec<String> = prints
        .iter()
        .map(|(p, t)| format!(r#"{{"price": {p:?}, "createdAt": {t}}}"#))
        .collect();
    json(&format!(
        r#"{{"bestBid": {best_bid:?}, "bestAsk": {best_ask:?}, "recentTrades": [{}]}}"#,
        all.join(",")
    ))
}

fn market(book: Json<F>, feed: Json<F>) -> MarketView<F> {
    market_view(Some(&book), Some(&feed))
}

// ── orders ──────────────────────────────────────────────────────────────────

#[test]
fn refuses_the_sell_that_actually_lost_money() {
    // The real incident: the ORDERBOOK reported a $50 best bid while the trades
    // feed reported $71.09 and the last print was $67.50. Trusting the orderbook
    // priced a sell at $57.12, which crossed and filled instantly.
    let m = market(
        book(&[50.0, 45.0], &[]),
        feed(71.09, 71.43, &[(67.50, 1_785_500_000_000)]),
    );
    let why = m.objection("sell", F(57.12)).expect("must object");
    assert!(why.contains("BELOW the best bid"), "{why}");
    // It must quote the REAL bid, not the stale orderbook one.
    assert!(why.contains("71.09"), "{why}");
}

#[test]
fn the_higher_of_the_two_disagreeing_sources_wins_for_a_sell() {
    // Being generous about what the market would pay makes the check strict on
    // us — the whole failure was believing the pessimistic source.
    let m = market(book(&[50.0], &[]), feed(71.09, 71.43, &[(67.50, 1)]));
    assert_eq!(m.sell_reference(), Some(F(71.09)));
    assert_eq!(m.book_bid, Some(F(50.0)));
}

#[test]
fn no_trade_history_is_itself_a_reason_to_stop() {
    // An empty tape means the price cannot be checked. Silence is not evidence
    // the price is fine — this property traded roughly twice a year.
    let m = market(book(&[50.0], &[60.0]), feed(50.0, 60.0, &[]));
    let why = m.objection("sell", F(55.0)).expect("must object");
    assert!(why.contains("NO trade history"), "{why}");
}

#[test]
fn a_sell_well_under_the_market_is_refused_even_without_crossing() {
    // Below the reference but above the bid: rests rather than crossing, and is
    // still a bad price.
    let m = market(book(&[40.0], &[]), feed(40.0, 80.0, &[(70.0, 1)]));
    let why = m.objection("sell", F(55.0)).expect("must object");
    assert!(why.contains("below the market reference"), "{why}");
}

#[test]
fn buys_are_guarded_the_same_way() {
    let m = market(book(&[50.0], &[60.0]), feed(50.0, 60.0, &[(58.0, 1)]));
    assert!(m
        .objection("buy", F(60.0))
        .unwrap()
        .contains("AT OR ABOVE the best ask"));
    // Overpaying WITHOUT crossing: the ask is far away so nothing would fill,
    // but the last print says $58, so $75 is still well over the market. The
    // crossing check fires first when both apply, hence a separate book here.
    let over = market(book(&[50.0], &[100.0]), feed(50.0, 100.0, &[(58.0, 1)]));
    let why = over.objection("buy", F(75.0)).expect("must object");
    assert!(why.contains("above the market reference"), "{why}");
}

#[test]
fn a_fairly_priced_resting_order_passes() {
    // Sell above the bid and within tolerance of the reference: exactly the
    // recovery-ask shape we place every day. It must not be blocked.
    let m = market(book(&[62.25], &[63.70]), feed(62.25, 63.70, &[(62.0, 1)]));
    assert_eq!(m.objection("sell", F(72.80)), None);
    assert_eq!(m.objection("buy", F(60.00)), None);
}

#[test]
fn describe_shows_the_disagreement_rather_than_hiding_it() {
    let d = market(book(&[50.0], &[]), feed(71.09, 71.43, &[(67.50, 1)])).describe();
    assert!(d.contains("50.00") && d.contains("71.09"), "{d}");
}

fn lp_programs() -> Json<F> {
    json(
        r#"{"programs": [
            {"propertyId": "01PROPA", "minContracts": 4.0, "minTwoSidedLiquidity": 1.0},
            {"propertyId": "01PROPB", "minContracts": 2.0, "minTwoSidedLiquidity": 1.0}
        ]}"#,
    )
}

#[test]
fn sub_min_contracts_order_is_flagged_as_qualifying_but_not_scoring() {
    // The mistake this exists to catch: 3 tokens on a minContracts-4 program.
    // The order rests, qualifies the side, and earns nothing — silently.
    let n = min_contracts_note_from(&lp_programs(), "01PROPA", 3).expect("should warn");
    assert!(n.contains("below"), "{n}");
    assert!(n.contains("QUALIFY"), "{n}");
    assert!(n.contains("NOTHING"), "{n}");
}

#[test]
fn an_order_at_or_above_min_contracts_is_silent() {
    assert!(min_contracts_note_from(&lp_programs(), "01PROPA", 4).is_none());
    assert!(min_contracts_note_from(&lp_programs(), "01PROPA", 9).is_none());
    // Thresholds differ per property: 3 is fine on a minContracts-2 program.
    assert!(min_contracts_note_from(&lp_programs(), "01PROPB", 3).is_none());
}

#[test]
fn a_property_with_no_reward_program_never_warns() {
    // Most properties run no program at all; they must not be nagged.
    assert!(min_contracts_note_from(&lp_programs(), "01NOTINPROGRAM", 1).is_none());
    // Nor should a malformed or empty payload block an order.
    assert!(min_contracts_note_from(&json("{}"), "01PROPA", 1).is_none());
    assert!(min_contracts_note_from(&json(r#"{"programs": []}"#), "01PROPA", 1).is_none());
}

#[test]
fn order_create_validates_before_any_network_or_confirmation() {
    // Bad direction is a usage error (exit 2) regardless of auth state.
    assert_eq!(
        check_order("hold", F(1.0), 1).unwrap_err().exit_code(),
        2
    );
    // Sub-cent price rejected.
    assert_eq!(
        check_order("buy", F(0.001), 1).unwrap_err().exit_code(),
        2
    );
    assert_eq!(
        check_order("sell", F(1.0), 0).unwrap_err().message(),
        "--quantity must be at least 1"
    );
    assert!(check_order("sell", F(0.01), 1).is_ok());
}

#[test]
fn mutations_refuse_to_run_unconfirmed_when_non_interactive() {
    // A valid-but-unconfirmed mutation in non-interactive mode is
    // deterministically exit 6 — it never reaches the keychain or the API.
    assert!(check_order("buy", F(1.00), 1).is_ok());
    let e = check_confirmable(false, false, "buy", 1, F(1.00), "X").unwrap_err();
    assert_eq!(e.exit_code(), 6);
    assert_eq!(e.label(), "confirmation_required");
    assert_eq!(
        e.message(),
        "place limit buy of 1 token(s) @ $1.00 on X — pass --force to proceed non-interactively"
    );
    assert!(check_confirmable(true, false, "buy", 1, F(1.00), "X").is_ok());
    assert!(check_confirmable(false, true, "buy", 1, F(1.00), "X").is_ok());
}

#[test]
fn the_documented_refusal_comes_out_word_for_word() {
    let prints: Vec<(f64, u64)> = (0..42).map(|i| (60.0 + i as f64, i)).collect();
    let m = market(book(&[50.0], &[]), feed(71.09, 71.43, &prints));
    let m = MarketView {
        last_trade: Some(F(67.50)),
        ..m
    };
    match check_price(&m, "sell", F(57.12), false) {
        Err(Failure::Usage(text)) => assert_eq!(
            text,
            "sell at $57.12 is AT OR BELOW the best bid $71.09 — it will fill immediately as a taker, not rest on the book\n  orderbook   bid $50.00  ask —\n  trades feed bid $71.09  ask $71.43\n  last trade  $67.50   (42 recent print(s))\n\nIf you understand and accept that this may lose money against the listed price, re-run with --accept-below-market."
        ),
        other => panic!("{other:?}"),
    }
    // Accepted, it is shown and the order goes on; a fair price says nothing.
    assert!(
        matches!(check_price(&m, "sell", F(57.12), true), Ok(Some(why)) if why.starts_with("sell at $57.12"))
    );
    assert!(matches!(check_price(&m, "sell", F(80.0), false), Ok(None)));
}

#[test]
fn the_last_trade_is_the_latest_and_of_equals_the_last_listed() {
    let m = market(
        book(&[], &[]),
        feed(1.0, 2.0, &[(10.0, 5), (11.0, 9), (12.0, 9), (13.0, 7)]),
    );
    assert_eq!(m.last_trade, Some(F(12.0)));
    assert_eq!(m.trade_count, 4);
    let nothing: MarketView<F> = market_view(None, None);
    assert_eq!(nothing.trade_count, 0);
    assert_eq!(nothing.buy_reference(), None);
    assert_eq!(nothing.summary_suffix(), " — NO market reference available");
}

#[test]
fn an_order_is_confirmed_with_its_total_and_its_market() {
    let m = market(book(&[62.25], &[]), feed(62.5, 63.70, &[(62.0, 1)]));
    assert_eq!(
        order_summary("buy", 3, F(60.5), "X", &m, None),
        "place limit buy of 3 token(s) @ $60.50 on X (total $181.50) — market ref $62.50, last trade $62.00"
    );
    assert!(order_summary("buy", 3, F(60.5), "X", &m, Some("small"))
        .ends_with("last trade $62.00\n⚠ small"));
    assert_eq!(cancel_summary("O1"), "cancel order O1");
}

#[test]
fn order_lists_default_to_every_property() {
    assert_eq!(list_query(None, None), vec![("all", "true".to_string())]);
    assert_eq!(
        list_query(Some("X"), Some("active")),
        vec![
            ("propertyId", "X".to_string()),
            ("status", "active".to_string())
        ]
    );
}

#[test]
fn a_crossing_order_is_objected_to_in_exact_amounts_too() {
    let at = |units: i64| Some(Micros { units });
    let m = MarketView {
        book_bid: at(50_000_000),
        book_ask: None,
        feed_bid: at(71_090_000),
        feed_ask: at(71_430_000),
        last_trade: at(67_500_000),
        trade_count: 1,
    };
    assert_eq!(m.sell_reference(), at(71_090_000));
    assert_eq!(m.buy_reference(), at(67_500_000));
    assert!(m
        .objection("sell", Micros { units: 57_120_000 })
        .unwrap()
        .contains("best bid $71.09"));
    assert!(m.objection("sell", Micros { units: 71_100_000 }).is_none());
}

// ── swaps ───────────────────────────────────────────────────────────────────

fn slippage(bound: f64, reference: f64, buying: bool) -> f64 {
    implied_slippage_pct(F(bound), F(reference), buying).0
}

#[test]
fn slippage_is_measured_against_the_live_quote() {
    // The bound that actually got submitted by hand: $56 on a ~$51.22 quote.
    // It reads as 9.3% — comfortably over the 5% backstop, so it is refused.
    let pct = slippage(56.00, 51.22, true);
    assert!((pct - 9.33).abs() < 0.05, "{pct}");
    assert!(pct > absurd_slippage_pct::<F>().0);
    // A 1% bound is well inside it.
    assert!(slippage(51.73, 51.22, true) < 1.05);
}

#[test]
fn sells_are_bounded_the_other_way() {
    // On a sell the bound is a FLOOR on proceeds, so slippage is the shortfall.
    assert!((slippage(49.00, 50.00, false) - 2.0).abs() < 1e-9);
    // Buying and selling at the same numbers are not the same tolerance.
    assert!(slippage(49.00, 50.00, true) < 1e-9);
}

#[test]
fn a_bound_better_than_the_quote_is_zero_not_negative() {
    // Never report "-3% slippage" and never let a favourable bound look absurd.
    assert_eq!(slippage(48.00, 50.00, true), 0.0);
    assert_eq!(slippage(52.00, 50.00, false), 0.0);
}

#[test]
fn a_zero_reference_cannot_divide() {
    assert_eq!(slippage(10.0, 0.0, true), 0.0);
}

fn bounds(max: Option<f64>, min: Option<f64>, pct: Option<f64>) -> Bounds<F> {
    Bounds {
        max_usdc: max.map(F),
        min_usdc: min.map(F),
        max_slippage_pct: pct.map(F),
    }
}

#[test]
fn amm_swap_requires_slippage_bounds() {
    let e = check_swap("buy", &bounds(None, None, None)).unwrap_err();
    assert_eq!(e.exit_code(), 2);
    assert!(e.message().contains("--max-usdc"));
    let e = check_swap("sell", &bounds(None, None, None)).unwrap_err();
    assert_eq!(e.exit_code(), 2);
    assert!(e.message().contains("--min-usdc"));
    // Each side needs its own bound.
    assert!(check_swap("buy", &bounds(None, Some(1.0), None)).is_err());
    assert!(check_swap("sell", &bounds(Some(1.0), None, None)).is_err());
    assert!(check_swap("buy", &bounds(Some(1.0), Some(1.0), None))
        .unwrap_err()
        .message()
        .contains("only the bound for your side"));
    assert!(check_swap("buy", &bounds(None, None, Some(-1.0)))
        .unwrap_err()
        .message()
        .contains("non-negative percent"));
    assert!(check_swap("hold", &bounds(None, None, Some(1.0))).is_err());
    assert!(check_swap("sell", &bounds(None, None, Some(1.0))).is_ok());
}

#[test]
fn amm_quote_wants_exactly_one_amount() {
    let amount = Some(F(1.0));
    assert_eq!(
        check_quote::<F>("buy", None, None).unwrap_err().exit_code(),
        2
    );
    assert_eq!(
        check_quote("buy", amount, Some(F(50.0)))
            .unwrap_err()
            .exit_code(),
        2
    );
    assert!(check_quote("buy", amount, None).is_ok());
    assert!(check_quote("bye", amount, None).is_err());
    assert_eq!(
        quote_query(7, "sell", Some(F(1.5)), None),
        vec![
            ("poolId", "7".to_string()),
            ("side", "sell".to_string()),
            ("tokenAmount", "1.5".to_string()),
        ]
    );
    assert_eq!(quote_query(7, "buy", None, Some(F(50.0)))[2].1, "50");
    assert_eq!(pools_query(None), vec![]);
    assert_eq!(pools_query(Some("X")), vec![("propertyId", "X".to_string())]);
}

#[test]
fn a_swap_is_held_against_a_fresh_quote() {
    let quote = json(r#"{"usdcAmount": 51.27, "totalDebit": 53.83, "fees": {"total": 2.56}}"#);
    let terms = |side: &str, b: Bounds<F>, allow: bool| {
        swap_terms(&quote, 9, side, F(1.0), &b, allow)
    };
    assert_eq!(
        terms("buy", bounds(Some(56.0), None, None), false)
            .unwrap_err()
            .message(),
        "bound $56.00 is 9.2% from the live quote $51.27 — that authorises far more slippage than you likely intend. Use --max-slippage-pct for an exact bound, or --allow-high-slippage to proceed."
    );
    assert!(terms("buy", bounds(Some(56.0), None, None), true).is_ok());
    let t = terms("buy", bounds(None, None, Some(1.0)), false).unwrap();
    assert_eq!(t.bound, F(51.78));
    assert_eq!(
        t.summary,
        "swap (buy) 1 token(s) on pool 9 — quote $51.27 + $2.56 fees = $53.83 expected; bound $51.78 (1.0% slippage allowed)"
    );
    let t = terms("sell", bounds(None, Some(50.0), None), false).unwrap();
    assert_eq!(t.bound, F(50.0));
    assert!(t.summary.ends_with("quote $51.27 proceeds; floor $50.00 (2.5% slippage allowed)"));
    let bare = json(r#"{"usdcAmount": 51.27}"#);
    assert!(swap_terms(&bare, 9, "buy", F(1.0), &bounds(Some(52.0), None, None), false)
        .unwrap()
        .summary
        .ends_with("quote $51.27; bound $52.00 (1.4% slippage allowed)"));
    assert_eq!(
        swap_terms(&json("{}"), 9, "buy", F(1.0), &bounds(Some(52.0), None, None), false)
            .unwrap_err()
            .message(),
        "quote returned no usdcAmount"
    );
    assert_eq!(bound_field("buy"), "maxUsdcAmount");
    assert_eq!(bound_field("sell"), "minUsdcAmount");
    assert_eq!(round2(F(1.239)), F(1.24));
}
