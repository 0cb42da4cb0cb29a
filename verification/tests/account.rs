use lofty::amount::Amount;
use lofty::commands::account::breakeven::{
    ask_for, breakeven, check_breakeven, held_targets, render_breakeven, stated_target, venue_fees,
    Breakeven, Scenario, SellVenue, VenueFees,
};
use lofty::commands::account::coverage::{check_spend, coverage, render_coverage};
use lofty::commands::account::rebates::{rebates, render_rebates};
use lofty::commands::account::{rebate_trades_query, trades_query};
use lofty::failure::Failure;
use lofty::json::Json;
use lofty::micros::Micros;
use lofty::report::{Cell, Line};

/// Double-precision amounts.
#[derive(Clone, Copy, Debug, PartialEq)]
struct F(f64);

impl Amount for F {
    fn of(n: u64) -> F {
        F(n as f64)
    }
    fn beyond_all() -> F {
        F(f64::INFINITY)
    }
    fn plus(self, other: F) -> F {
        F(self.0 + other.0)
    }
    fn minus(self, other: F) -> F {
        F(self.0 - other.0)
    }
    fn times(self, other: F) -> F {
        F(self.0 * other.0)
    }
    fn over(self, other: F) -> F {
        F(self.0 / other.0)
    }
    fn absolute(self) -> F {
        F(self.0.abs())
    }
    fn larger_of(self, other: F) -> F {
        F(self.0.max(other.0))
    }
    fn smaller_of(self, other: F) -> F {
        F(self.0.min(other.0))
    }
    fn rounded(self) -> F {
        F(self.0.round())
    }
    fn is_below(self, other: F) -> bool {
        self.0 < other.0
    }
    fn is_at_most(self, other: F) -> bool {
        self.0 <= other.0
    }
    fn is_finite(self) -> bool {
        self.0.is_finite()
    }
    fn order_key(self) -> i128 {
        let bits = self.0.to_bits() as i64;
        i128::from(bits ^ ((((bits >> 63) as u64) >> 1) as i64))
    }
    fn fixed(self, digits: u8) -> String {
        format!("{:.*}", usize::from(digits), self.0)
    }
    fn plain(self) -> String {
        format!("{}", self.0)
    }
}

fn payload(v: &serde_json::Value) -> Json<F> {
    match v {
        serde_json::Value::Null => Json::Null,
        serde_json::Value::Bool(b) => Json::Bool(*b),
        serde_json::Value::Number(n) => Json::Number {
            value: F(n.as_f64().unwrap()),
            whole: n.as_u64(),
        },
        serde_json::Value::String(s) => Json::Text(s.clone()),
        serde_json::Value::Array(a) => Json::List(a.iter().map(payload).collect()),
        serde_json::Value::Object(m) => {
            Json::Record(m.iter().map(|(k, v)| (k.clone(), payload(v))).collect())
        }
    }
}

fn json(text: &str) -> Json<F> {
    payload(&serde_json::from_str(text).unwrap())
}

fn refs(items: &[Json<F>]) -> Vec<&Json<F>> {
    items.iter().collect()
}

const A: &str = "01SAMPLEPROPERTY000000000A";
const B: &str = "01SAMPLEPROPERTY000000000B";

fn bid(pid: &str, price: f64, qty: f64) -> Json<F> {
    json(&format!(
        r#"{{"propertyId": "{pid}", "direction": "buy", "price": {price:?}, "quantity": {qty:?}, "status": "active"}}"#
    ))
}

fn ask(pid: &str, price: f64, qty: f64) -> Json<F> {
    json(&format!(
        r#"{{"propertyId": "{pid}", "direction": "sell", "price": {price:?}, "quantity": {qty:?}, "status": "active"}}"#
    ))
}

fn position(pid: &str, tokens: f64) -> Json<F> {
    json(&format!(
        r#"{{"propertyId": "{pid}", "currentTokens": {tokens:?}}}"#
    ))
}

// ── coverage ────────────────────────────────────────────────────────────────

#[test]
fn reserve_is_the_largest_single_property_bid_not_the_sum() {
    // Coverage is checked per property, so two $100 bids both clear a $150
    // wallet: the reserve is $100 (the max), leaving $50 free — NOT $200/$0.
    let orders = [bid(A, 50.0, 2.0), bid(B, 100.0, 1.0)];
    let r = coverage(F(150.0), &refs(&orders), &vec![], None);
    assert_eq!(r.reserved_usdc, F(100.0));
    assert_eq!(r.free_usdc, F(50.0));
    assert_eq!(r.bid_exposure_usdc, F(200.0));
    assert!(r.over_committed);
    assert_eq!(r.uncovered_bids, 0);
}

#[test]
fn combines_orders_on_the_same_property() {
    // Same property: its bids are covered COMBINED, so they sum into one reserve.
    let orders = [bid(A, 50.0, 1.0), bid(A, 30.0, 1.0)];
    let r = coverage(F(150.0), &refs(&orders), &vec![], None);
    assert_eq!(r.reserved_usdc, F(80.0));
    assert_eq!(r.free_usdc, F(70.0));
    assert!(!r.over_committed);
}

#[test]
fn flags_a_bid_the_wallet_cannot_cover() {
    let orders = [bid(A, 50.0, 1.0)];
    let r = coverage(F(40.0), &refs(&orders), &vec![], None);
    assert_eq!(r.uncovered_bids, 1);
    assert!(!r.properties[0].bid_covered);
    assert_eq!(r.free_usdc, F(0.0)); // clamped, never negative
}

#[test]
fn asks_are_covered_by_held_tokens_not_usdc() {
    let orders = [ask(A, 60.0, 4.0), ask(B, 60.0, 4.0)];
    let positions = [position(A, 4.0), position(B, 1.0)];
    let r = coverage(F(0.0), &refs(&orders), &refs(&positions), None);
    assert_eq!(r.uncovered_asks, 1); // B holds 1 token against a 4-token ask
    assert_eq!(r.reserved_usdc, F(0.0)); // asks reserve no USDC
    let b = r.properties.iter().find(|p| p.property_id == B).unwrap();
    assert!(!b.ask_covered);
    assert_eq!(b.held_tokens, F(1.0));
}

#[test]
fn ignores_orders_that_are_not_active() {
    let orders = [
        bid(A, 50.0, 1.0),
        json(&format!(
            r#"{{"propertyId": "{B}", "direction": "buy", "price": 999.0, "quantity": 1.0, "status": "cancelled"}}"#
        )),
    ];
    let r = coverage(F(150.0), &refs(&orders), &vec![], None);
    assert_eq!(r.reserved_usdc, F(50.0));
    assert_eq!(r.properties.len(), 1);
}

#[test]
fn simulated_spend_reports_the_cascade_onto_other_properties() {
    // $150 wallet, bids of $100 (A) and $90 (B): $50 free. Spending $80 drops
    // the wallet to $70 — uncovering BOTH, including the one not being touched.
    let orders = [bid(A, 100.0, 1.0), bid(B, 90.0, 1.0)];
    let r = coverage(F(150.0), &refs(&orders), &vec![], Some(F(80.0)));
    let sim = r.simulation.unwrap();
    assert!(!sim.fits); // $80 > $50 free
    assert_eq!(sim.wallet_after, F(70.0));
    assert_eq!(sim.uncovers.len(), 2);
}

#[test]
fn a_spend_within_free_capital_uncovers_nothing() {
    let orders = [bid(A, 100.0, 1.0)];
    let r = coverage(F(150.0), &refs(&orders), &vec![], Some(F(50.0)));
    let sim = r.simulation.unwrap();
    assert!(sim.fits);
    assert!(sim.uncovers.is_empty());
}

#[test]
fn empty_account_is_all_free_and_never_over_committed() {
    let r = coverage(F(25.0), &vec![], &vec![], None);
    assert_eq!(r.reserved_usdc, F(0.0));
    assert_eq!(r.free_usdc, F(25.0));
    assert!(!r.over_committed);
    assert!(r.properties.is_empty());
}

#[test]
fn properties_are_listed_from_the_largest_bid_down_and_by_id_among_equals() {
    let orders = [
        bid("c", 10.0, 1.0),
        bid("a", 10.0, 1.0),
        bid("b", 90.0, 1.0),
        ask("d", 5.0, 1.0),
    ];
    let r = coverage(F(100.0), &refs(&orders), &vec![], None);
    let ids: Vec<&str> = r
        .properties
        .iter()
        .map(|p| p.property_id.as_str())
        .collect();
    assert_eq!(ids, ["b", "a", "c", "d"]);
}

#[test]
fn the_last_position_of_a_property_is_the_one_that_counts() {
    let orders = [ask(A, 60.0, 2.0)];
    let positions = [position(A, 9.0), position(A, 1.0)];
    let r = coverage(F(0.0), &refs(&orders), &refs(&positions), None);
    assert_eq!(r.properties[0].held_tokens, F(1.0));
    assert_eq!(r.uncovered_asks, 1);
}

#[test]
fn a_wallet_that_falls_short_is_uncovered_by_a_spend_of_nothing() {
    // Nothing is free and nothing is spent, so the spend "fits"; the bid that was
    // uncovered before is still reported.
    let orders = [bid(A, 50.0, 1.0)];
    let r = coverage(F(40.0), &refs(&orders), &vec![], Some(F(0.0)));
    let sim = r.simulation.unwrap();
    assert!(sim.fits);
    assert_eq!(sim.uncovers.len(), 1);
}

#[test]
fn coverage_report_reads_as_documented() {
    let orders = [
        bid(A, 190.0, 1.0),
        ask(A, 60.0, 4.0),
        bid(B, 120.0, 1.0),
        ask(B, 60.0, 9.0),
    ];
    let positions = [position(A, 4.0), position(B, 8.0)];
    let r = coverage(F(200.0), &refs(&orders), &refs(&positions), Some(F(50.0)));
    let lines = render_coverage(&r);
    match &lines[0] {
        Line::Table(t) => {
            assert_eq!(
                t.headings,
                ["property", "bid $", "bid covered", "ask qty", "held", "ask covered"]
            );
            assert_eq!(t.rows.len(), 2);
            assert!(matches!(&t.rows[0][1], Cell::Text(s) if s == "190.00"));
            assert!(matches!(&t.rows[1][5], Cell::Flag(false)));
            assert!(matches!(&t.rows[1][4], Cell::Number(F(n)) if *n == 8.0));
        }
        other => panic!("{other:?}"),
    }
    let notes: Vec<&str> = lines[1..]
        .iter()
        .map(|l| match l {
            Line::Note(s) => s.as_str(),
            other => panic!("{other:?}"),
        })
        .collect();
    assert_eq!(
        notes,
        [
            "wallet $200.00 — $190.00 reserved (largest single-property bid), $10.00 free to spend".to_string(),
            "  note: $310.00 total bid exposure exceeds the wallet — fine while they rest (coverage is per property), but one fill spends cash the others also rely on".to_string(),
            format!("  ⚠ {B}: asks exceed your held tokens — at risk of automatic cancellation"),
            "spending $50.00 leaves $150.00 — EXCEEDS free capital".to_string(),
            format!("  ⚠ would uncover {A} (bids $190.00)"),
        ]
    );
}

#[test]
fn a_spend_must_be_an_amount_of_money() {
    assert!(check_spend::<F>(None).is_ok());
    assert!(check_spend(Some(F(0.0))).is_ok());
    for bad in [-1.0, f64::NAN, f64::INFINITY] {
        match check_spend(Some(F(bad))) {
            Err(Failure::Usage(m)) => assert!(m.contains("--spend")),
            other => panic!("{other:?}"),
        }
    }
}

// ── rebates ─────────────────────────────────────────────────────────────────

fn trade(dir: &str, price: f64, buyer_fee: f64, seller_fee: f64, at: u64) -> Json<F> {
    let (buyer, seller) = (buyer_fee * 1e6, seller_fee * 1e6);
    json(&format!(
        r#"{{"tradeId": "T1", "propertyId": "{A}", "direction": "{dir}", "price": {price:?}, "quantity": 1, "createdAt": {at}, "buyerFeeAmount": {buyer:?}, "sellerFeeAmount": {seller:?}}}"#
    ))
}

fn order(dir: &str, price: f64) -> Json<F> {
    json(&format!(
        r#"{{"propertyId": "{A}", "direction": "{dir}", "price": {price:?}}}"#
    ))
}

#[test]
fn reproduces_the_rebates_actually_paid() {
    // Verified against real payouts: a $62.25 buy with a $1.5562 buyer fee
    // rebated $0.78, and a $52.75 sell with a $1.5825 seller fee rebated $0.79.
    let trades = [
        trade("buy", 62.25, 1.55625, 1.8675, 3),
        trade("sell", 52.75, 1.31875, 1.5825, 2),
    ];
    let orders = [order("buy", 62.25), order("sell", 52.75)];
    let (trades, orders) = (refs(&trades), refs(&orders));
    let r = rebates(&trades, &orders, None);
    let got: Vec<String> = r
        .trades
        .iter()
        .map(|t| format!("{:.2}", t.rebate.0))
        .collect();
    assert_eq!(got, vec!["0.78", "0.79"]);
    assert!((r.total_rebates.0 - 1.57).abs() < 0.005);
    assert_eq!(r.maker_fills, 2);
}

#[test]
fn a_taker_fill_earns_nothing() {
    // Crossing the book pays no rebate — the real corroboration was a sell that
    // crossed and received nothing while resting fills the same week were paid.
    let trades = [trade("sell", 71.09, 1.0, 2.0, 1)];
    let r = rebates(&refs(&trades), &vec![], None); // no resting order at that price
    assert_eq!(r.total_rebates, F(0.0));
    assert_eq!(r.taker_fills, 1);
    assert!(!r.trades[0].was_maker);
}

#[test]
fn the_fee_taken_is_the_one_on_our_side() {
    // A buy rebates off the BUYER fee, a sell off the SELLER fee. Mixing them up
    // silently misprices every rebate.
    let trades = [trade("buy", 10.0, 4.0, 8.0, 1)];
    let orders = [order("buy", 10.0)];
    let buy = rebates(&refs(&trades), &refs(&orders), None);
    assert_eq!(buy.trades[0].rebate, F(2.0));
    let trades = [trade("sell", 10.0, 4.0, 8.0, 1)];
    let orders = [order("sell", 10.0)];
    let sell = rebates(&refs(&trades), &refs(&orders), None);
    assert_eq!(sell.trades[0].rebate, F(4.0));
}

#[test]
fn an_opposite_side_order_does_not_count_as_maker() {
    // A resting BID does not make a SELL a maker fill, even at the same price.
    let trades = [trade("sell", 62.25, 1.0, 2.0, 1)];
    let orders = [order("buy", 62.25)];
    let r = rebates(&refs(&trades), &refs(&orders), None);
    assert_eq!(r.taker_fills, 1);
}

#[test]
fn since_filters_older_trades() {
    let trades = [
        trade("buy", 10.0, 4.0, 8.0, 100),
        trade("buy", 10.0, 4.0, 8.0, 900),
    ];
    let orders = [order("buy", 10.0)];
    let r = rebates(&refs(&trades), &refs(&orders), Some(500));
    assert_eq!(r.trades.len(), 1);
    assert_eq!(r.maker_fills, 1);
}

#[test]
fn rebates_are_listed_newest_first() {
    let trades = [
        trade("buy", 10.0, 4.0, 8.0, 100),
        trade("sell", 10.0, 4.0, 8.0, 900),
        trade("buy", 11.0, 4.0, 8.0, 900),
    ];
    let trades = refs(&trades);
    let r = rebates(&trades, &vec![], None);
    let seen: Vec<(u64, f64)> = r.trades.iter().map(|t| (t.created_at, t.price.0)).collect();
    assert_eq!(seen, [(900, 10.0), (900, 11.0), (100, 10.0)]);
    assert_eq!(r.trades[0].direction, "sell");
}

#[test]
fn a_price_half_a_cent_away_is_another_level() {
    let trades = [trade("buy", 10.0, 4.0, 8.0, 1)];
    let near = [order("buy", 10.004)];
    let far = [order("buy", 10.006)];
    assert_eq!(rebates(&refs(&trades), &refs(&near), None).maker_fills, 1);
    assert_eq!(rebates(&refs(&trades), &refs(&far), None).maker_fills, 0);
}

#[test]
fn rebate_report_shows_the_earners_and_the_total() {
    let trades = [
        trade("buy", 62.25, 1.55625, 1.8675, 3),
        trade("sell", 71.09, 1.0, 2.0, 1),
    ];
    let orders = [order("buy", 62.25)];
    let (trades, orders) = (refs(&trades), refs(&orders));
    let lines = render_rebates(&rebates(&trades, &orders, None));
    match (&lines[0], &lines[1]) {
        (Line::Table(t), Line::Note(n)) => {
            assert_eq!(t.rows.len(), 1);
            assert!(matches!(&t.rows[0][2], Cell::Text(s) if s == "$62.25"));
            assert!(matches!(&t.rows[0][4], Cell::Text(s) if s == "$1.5562"));
            assert_eq!(
                n,
                "total $0.7781 across 1 maker fill(s) at 50% of your side's fee; 1 taker fill(s) earned nothing (crossing the book pays no rebate)"
            );
        }
        other => panic!("{other:?}"),
    }
    let lines = render_rebates(&rebates::<F>(&vec![], &vec![], None));
    assert!(matches!(&lines[0], Line::Out(s) if s.starts_with("no maker fills")));
}

#[test]
fn trade_queries_send_only_what_is_given() {
    assert_eq!(trades_query(None, None, None), vec![]);
    assert_eq!(
        trades_query(Some(A), Some("buy"), Some(7)),
        vec![
            ("propertyId", A.to_string()),
            ("direction", "buy".to_string()),
            ("limit", "7".to_string()),
        ]
    );
    assert_eq!(
        rebate_trades_query(Some(B)),
        vec![("limit", "200".to_string()), ("propertyId", B.to_string())]
    );
}

// ── break-even ──────────────────────────────────────────────────────────────

// Rates mirror the live shapes: the listing reports FRACTIONS, the pool PERCENT.
fn listing() -> Json<F> {
    json(r#"{"liquidity": {"mtBuyFeePct": 0.03, "mtSellFeePct": 0.035, "lpFeePct": 0.02}}"#)
}

fn pool() -> Json<F> {
    // Real observed shape: the platform and LP fees are separate lines.
    json(&format!(
        r#"{{"propertyId": "{A}", "fees": {{"lp": 2.0, "platformBuy": 3.0, "platformSell": 3.5}}}}"#
    ))
}

fn fees() -> VenueFees<F> {
    venue_fees(&listing(), Some(&pool()))
}

fn scenario<'a>(v: &'a Breakeven<F>, via: &str) -> &'a Scenario<F> {
    v.scenarios
        .iter()
        .find(|s| s.acquired_via == via)
        .unwrap_or_else(|| panic!("no `{via}` scenario"))
}

#[test]
fn normalizes_the_two_fee_unit_conventions_to_percent() {
    // The listing's 0.035 and the pool's 2.5 both mean "percent" after this.
    let f = fees();
    assert_eq!(f.book_buy, Some(F(3.0)));
    assert_eq!(f.book_sell, Some(F(3.5)));
    // AMM rates are all-in: platform + the pool's LP fee.
    assert_eq!(f.amm_buy, Some(F(5.0))); // 3 + 2
    assert_eq!(f.amm_sell, Some(F(5.5))); // 3.5 + 2
}

#[test]
fn amm_rates_include_the_pools_lp_fee() {
    // A swap pays platform AND lp; the pool lists them separately. Taking
    // `platform` alone understated every AMM figure by the lp fee.
    let f = fees();
    assert_eq!(f.amm_buy, Some(F(5.0)), "buy = platform 3 + lp 2");
    assert_eq!(f.amm_sell, Some(F(5.5)), "sell = platform 3.5 + lp 2");
    // A pool with no lp line is just the platform rate, not a missing rate.
    let no_lp = json(&format!(
        r#"{{"propertyId": "{A}", "fees": {{"platformBuy": 3.0, "platformSell": 3.5}}}}"#
    ));
    assert_eq!(venue_fees(&listing(), Some(&no_lp)).amm_buy, Some(F(3.0)));
    // No platform rate at all is genuinely unknown.
    let empty = json(&format!(r#"{{"propertyId": "{A}", "fees": {{"lp": 2.0}}}}"#));
    assert_eq!(venue_fees(&listing(), Some(&empty)).amm_buy, None);
}

#[test]
fn reads_fees_through_the_property_envelope() {
    // `properties/{id}` returns {"property": {...}} — reading a bare
    // `/liquidity` finds nothing and silently drops the marketplace rates.
    let wrapped = Json::Record(vec![("property".to_string(), listing())]);
    let f = venue_fees(&wrapped, Some(&pool()));
    assert_eq!(f.book_sell, Some(F(3.5)), "book fees lost inside the envelope");
    assert_eq!(f.book_buy, Some(F(3.0)));
    // A bare listing still works.
    assert_eq!(venue_fees(&listing(), None).book_sell, Some(F(3.5)));
}

#[test]
fn true_cost_adds_the_buy_fee_the_basis_leaves_out() {
    // $100 basis + 5% AMM buy fee = $105 actually spent per token.
    let (true_cost, _) = ask_for(F(100.0), F(5.0), F(0.0), F(0.0));
    assert!((true_cost.0 - 105.0).abs() < 1e-9);
}

#[test]
fn break_even_ask_clears_the_sell_fee() {
    // Selling at true cost loses the sell fee; the ask must gross it up.
    let (_, ask) = ask_for(F(100.0), F(5.0), F(3.5), F(0.0));
    assert!((ask.0 - 105.0 / 0.965).abs() < 1e-9);
    // Net proceeds land exactly back on true cost.
    assert!((ask.0 * 0.965 - 105.0).abs() < 1e-9);
}

#[test]
fn margin_is_net_of_every_fee() {
    let (true_cost, ask) = ask_for(F(100.0), F(5.0), F(3.5), F(5.0));
    let net = ask.0 * 0.965; // proceeds after the sell fee
    assert!(
        (net - true_cost.0 * 1.05).abs() < 1e-9,
        "net {net} vs {true_cost:?}"
    );
}

#[test]
fn prices_both_acquisition_venues_when_the_buy_fee_is_unknown() {
    let v = breakeven(A, F(100.0), &fees(), F(0.0), SellVenue::Book, None, None);
    assert_eq!(v.scenarios.len(), 2);
    assert_eq!(scenario(&v, "amm").buy_fee_pct, F(5.0));
    assert_eq!(scenario(&v, "book").buy_fee_pct, F(3.0));
    // A pricier acquisition needs a higher exit.
    assert!(scenario(&v, "amm").break_even_ask.0 > scenario(&v, "book").break_even_ask.0);
}

#[test]
fn an_explicit_buy_fee_collapses_to_one_scenario() {
    let v = breakeven(
        A,
        F(100.0),
        &fees(),
        F(0.0),
        SellVenue::Book,
        Some(F(0.0)),
        None,
    );
    let s = &v.scenarios;
    assert_eq!(s.len(), 1);
    assert_eq!(s[0].acquired_via, "specified");
    // buy fee 0 → true cost IS the basis.
    assert!((s[0].true_cost.0 - 100.0).abs() < 1e-9);
}

#[test]
fn selling_into_the_amm_uses_the_pool_fee() {
    let fee = Some(F(5.0));
    let book = breakeven(A, F(100.0), &fees(), F(0.0), SellVenue::Book, fee, None);
    let amm = breakeven(A, F(100.0), &fees(), F(0.0), SellVenue::Amm, fee, None);
    assert_eq!(book.sell_fee_pct, Some(F(3.5))); // mtSellFeePct
    assert_eq!(amm.sell_fee_pct, Some(F(5.5))); // platformSell 3.5 + lp 2
    // Swapping out costs more than resting an ask, so it needs a higher price.
    assert!(amm.scenarios[0].break_even_ask.0 > book.scenarios[0].break_even_ask.0);
}

#[test]
fn an_explicit_sell_fee_overrides_the_published_rate() {
    let v = breakeven(
        A,
        F(100.0),
        &fees(),
        F(0.0),
        SellVenue::Book,
        Some(F(0.0)),
        Some(F(10.0)),
    );
    assert_eq!(v.sell_fee_pct, Some(F(10.0)));
    assert!((v.scenarios[0].break_even_ask.0 - 100.0 / 0.9).abs() < 1e-9);
}

#[test]
fn missing_published_rates_yield_no_scenarios_rather_than_wrong_ones() {
    // No pool and no listing fees: nothing to price off, so say nothing.
    let bare = venue_fees(&json("{}"), None);
    let v = breakeven(A, F(100.0), &bare, F(0.0), SellVenue::Book, None, None);
    assert!(v.sell_fee_pct.is_none());
    assert!(v.scenarios.is_empty());
}

#[test]
fn reproduces_a_worked_position() {
    // $63.68 basis, bought via AMM (5%), sold on the book (3.5%):
    // true cost $66.86; break-even $69.29; a 5% net target $72.75.
    let v = breakeven(
        A,
        F(63.68),
        &fees(),
        F(5.0),
        SellVenue::Book,
        Some(F(5.0)),
        None,
    );
    let s = &v.scenarios[0];
    assert_eq!(format!("{:.2}", s.true_cost.0), "66.86");
    assert_eq!(format!("{:.2}", s.break_even_ask.0), "69.29");
    assert_eq!(format!("{:.2}", s.target_ask.0), "72.75");
}

#[test]
fn a_total_sell_fee_has_no_reachable_break_even() {
    let (_, ask) = ask_for(F(100.0), F(0.0), F(100.0), F(0.0));
    assert!(ask.0.is_infinite(), "expected no finite price, got {ask:?}");
}

#[test]
fn break_even_report_reads_as_documented() {
    let rows = vec![
        breakeven(A, F(63.68), &fees(), F(5.0), SellVenue::Book, None, None),
        breakeven(
            B,
            F(1.0),
            &venue_fees(&json("{}"), None),
            F(5.0),
            SellVenue::Amm,
            None,
            None,
        ),
        breakeven(
            B,
            F(1.0),
            &venue_fees(&json("{}"), None),
            F(5.0),
            SellVenue::Amm,
            None,
            Some(F(2.0)),
        ),
    ];
    let lines = render_breakeven(&rows, F(5.0));
    assert_eq!(lines.len(), 5);
    assert!(
        matches!(&lines[0], Line::Note(s) if *s == format!("{A}: cost basis $63.68/token (excludes the buy fee) — selling on book at 3.50% fee"))
    );
    match &lines[1] {
        Line::Table(t) => {
            assert_eq!(t.headings[4], "ask +5.0%");
            let cells: Vec<Vec<&str>> = t
                .rows
                .iter()
                .map(|r| {
                    r.iter()
                        .map(|c| match c {
                            Cell::Text(s) => s.as_str(),
                            other => panic!("{other:?}"),
                        })
                        .collect()
                })
                .collect();
            assert_eq!(cells[0], ["amm", "5.00", "$66.86", "$69.29", "$72.75"]);
            assert_eq!(cells[1], ["book", "3.00", "$65.59", "$67.97", "$71.37"]);
        }
        other => panic!("{other:?}"),
    }
    assert!(
        matches!(&lines[2], Line::Note(s) if *s == format!("{B}: no published amm sell fee — pass --sell-fee to price it"))
    );
    assert!(
        matches!(&lines[4], Line::Note(s) if s == "  (no published buy-fee rate — pass --buy-fee to price it)")
    );
}

#[test]
fn break_even_arguments_are_checked_in_order() {
    assert!(check_breakeven(Some(F(1.0)), None, Some(F(99.9)), F(0.0)).is_ok());
    let text = |r: Result<(), Failure>| match r {
        Err(Failure::Usage(m)) => m,
        other => panic!("{other:?}"),
    };
    let bad = Some(F(-1.0));
    assert_eq!(
        text(check_breakeven(bad, bad, bad, F(-1.0))),
        "--cost must be a non-negative number"
    );
    assert_eq!(
        text(check_breakeven(None, bad, bad, F(-1.0))),
        "--buy-fee must be a non-negative number"
    );
    assert_eq!(
        text(check_breakeven(None, None, bad, F(-1.0))),
        "--sell-fee must be a non-negative number"
    );
    assert_eq!(
        text(check_breakeven(None, None, None, F(f64::NAN))),
        "--margin must be a non-negative percent"
    );
    assert!(text(check_breakeven(None, None, Some(F(100.0)), F(0.0))).contains("below 100%"));
}

#[test]
fn break_even_prices_what_is_held() {
    let positions = [
        json(&format!(
            r#"{{"propertyId": "{A}", "currentTokens": 2, "costBasis": 6368}}"#
        )),
        json(&format!(
            r#"{{"propertyId": "{B}", "currentTokens": 0, "costBasis": 100}}"#
        )),
    ];
    let positions = refs(&positions);
    let targets = held_targets(&positions, None).unwrap();
    assert_eq!(targets.len(), 1);
    assert_eq!(targets[0].property_id, A);
    assert_eq!(targets[0].cost, F(63.68));
    match held_targets(&positions, Some(B)) {
        Err(Failure::NotFound(m)) => assert_eq!(m, format!("no position holding tokens for {B}")),
        other => panic!("{other:?}"),
    }
    match held_targets::<F>(&vec![], None) {
        Err(Failure::NotFound(m)) => assert_eq!(m, "no positions holding tokens"),
        other => panic!("{other:?}"),
    }
    assert!(matches!(stated_target::<F>(None, Some(A)), Ok(None)));
    assert!(matches!(stated_target(Some(F(5.0)), Some(A)), Ok(Some(t)) if t.cost == F(5.0)));
    assert!(matches!(stated_target(Some(F(5.0)), None), Err(Failure::Usage(_))));
}

#[test]
fn exact_amounts_price_a_position_to_the_millionth() {
    let dollars = |units: i64| Micros { units };
    let (cost, ask) = ask_for(
        dollars(63_680_000),
        dollars(5_000_000),
        dollars(3_500_000),
        dollars(0),
    );
    assert_eq!(cost.units, 66_864_000);
    assert_eq!(ask.units, 69_289_119);
    // What the sale keeps is the cost again, to within a millionth.
    let proceeds = ask.times(dollars(965_000));
    assert!((proceeds.units - cost.units).abs() <= 1);
    let (_, none) = ask_for(dollars(1), dollars(0), dollars(100_000_000), dollars(0));
    assert!(!none.is_finite());
}
