use lofty::amount::Amount;
use lofty::client::idempotency_key;
use lofty::commands::account::coverage::coverage;
use lofty::commands::amm::{implied_slippage_pct, swap_terms, Bounds};
use lofty::commands::quote::apply::held_of;
use lofty::commands::rewards::calendar::fmt_period;
use lofty::commands::rewards::eligibility::{eligibility, Eligibility};
use lofty::commands::rewards::reconcile::{reconcile, Payouts, Reconciliation};
use lofty::json::Json;
use lofty::micros::Micros;

/// An amount in cents.
fn cents(n: i64) -> Micros {
    Micros { units: n * 10_000 }
}

fn amount(n: i64) -> Json<Micros> {
    Json::Number {
        value: cents(n),
        whole: None,
    }
}

fn text(s: &str) -> Json<Micros> {
    Json::Text(s.to_string())
}

fn record(entries: Vec<(&str, Json<Micros>)>) -> Json<Micros> {
    Json::Record(
        entries
            .into_iter()
            .map(|(k, v)| (k.to_string(), v))
            .collect(),
    )
}

fn refs(items: &[Json<Micros>]) -> Vec<&Json<Micros>> {
    items.iter().collect()
}

fn order(pid: &str, direction: &str, price: i64, quantity: i64) -> Json<Micros> {
    record(vec![
        ("propertyId", text(pid)),
        ("direction", text(direction)),
        ("price", amount(price)),
        ("quantity", amount(quantity)),
        ("status", text("active")),
    ])
}

// ── idempotency keys ────────────────────────────────────────────────────────

#[test]
fn keys_are_lower_case_hexadecimal_but_for_the_dashes() {
    for seed in [0u128, 1, 0xdead_beef, u128::MAX, 1 << 77] {
        for (i, c) in idempotency_key(seed).chars().enumerate() {
            if [8, 13, 18, 23].contains(&i) {
                assert_eq!(c, '-');
            } else {
                assert!(matches!(c, '0'..='9' | 'a'..='f'), "{c}");
            }
        }
    }
}

#[test]
fn seeds_of_one_process_never_share_a_key() {
    let process = 4711u128 << 64;
    let mut keys: Vec<String> = Vec::new();
    for i in 0..64 {
        keys.push(idempotency_key(process ^ (1u128 << i)));
        keys.push(idempotency_key(process ^ (3u128 * i) ^ 0x5555_5555));
    }
    let count = keys.len();
    keys.sort();
    keys.dedup();
    assert_eq!(keys.len(), count);
}

#[test]
fn bits_past_the_seventy_eighth_do_not_count() {
    let seed = 0x1234_5678_9abc_def0u128;
    assert_eq!(idempotency_key(seed), idempotency_key(seed ^ (1 << 78)));
    assert_eq!(idempotency_key(seed), idempotency_key(seed ^ (1 << 127)));
    assert_ne!(idempotency_key(seed), idempotency_key(seed ^ (1 << 77)));
}

// ── slippage ────────────────────────────────────────────────────────────────

#[test]
fn a_bound_derived_from_a_percentage_reads_back() {
    let quote = |reference: Micros| {
        record(vec![(
            "usdcAmount",
            Json::Number {
                value: reference,
                whole: None,
            },
        )])
    };
    for (reference, pct) in [(10_000, 100), (9_999, 337), (123, 25), (100, 0)] {
        let (r, x) = (cents(reference), cents(pct));
        let one = Micros::of(1);
        let share = x.over(Micros::of(100));
        for buying in [true, false] {
            let factor = if buying { one.plus(share) } else { one.minus(share) };
            let read = implied_slippage_pct(r.times(factor), r, buying);
            assert!((read.units - x.units).abs() <= 150, "{reference} {pct}");
        }
    }
    let bounds = Bounds {
        max_usdc: None,
        min_usdc: None,
        max_slippage_pct: Some(cents(100)),
    };
    let r = cents(10_000);
    let terms = swap_terms(&quote(r), 7, "buy", Micros::of(2), &bounds, false).unwrap();
    assert_eq!(terms.bound, cents(10_100));
    assert_eq!(implied_slippage_pct(terms.bound, r, true), cents(100));
    assert_eq!(implied_slippage_pct(cents(5), cents(-1), true), cents(0));
}

// ── coverage ────────────────────────────────────────────────────────────────

#[test]
fn trying_out_a_spend_changes_nothing_else() {
    let orders = vec![order("a", "buy", 10_000, 100), order("b", "buy", 9_000, 100)];
    let orders = refs(&orders);
    let base = coverage(cents(15_000), &orders, &vec![], None);
    let tried = coverage(cents(15_000), &orders, &vec![], Some(cents(8_000)));
    let sim = tried.simulation.unwrap();
    assert!(base.simulation.is_none());
    assert_eq!(tried.free_usdc, base.free_usdc);
    assert_eq!(tried.properties.len(), base.properties.len());
    assert_eq!(sim.wallet_after, cents(7_000));
    assert!(!sim.fits);
    let hit: Vec<&str> = sim.uncovers.iter().map(|u| u.property_id.as_str()).collect();
    assert_eq!(hit, ["a", "b"]);
    assert_eq!(base.uncovered_bids, 0);
    let fits = coverage(cents(15_000), &orders, &vec![], Some(cents(5_000)));
    let sim = fits.simulation.unwrap();
    assert!(sim.fits && sim.uncovers.is_empty());
}

#[test]
fn what_is_held_is_read_from_the_positions() {
    let positions = record(vec![(
        "positions",
        Json::List(vec![
            record(vec![("propertyId", text("a")), ("currentTokens", amount(300))]),
            record(vec![("propertyId", text("b"))]),
        ]),
    )]);
    assert_eq!(held_of(&positions, "a"), cents(300));
    assert_eq!(held_of(&positions, "b"), cents(0));
    assert_eq!(held_of(&positions, "c"), cents(0));
    assert_eq!(held_of(&Json::<Micros>::Null, "a"), cents(0));
}

// ── eligibility ─────────────────────────────────────────────────────────────

fn program(spread: i64, min_contracts: i64) -> Json<Micros> {
    record(vec![
        ("propertyId", text("p")),
        ("allowedSpread", amount(spread)),
        ("minContracts", amount(min_contracts)),
        ("minTwoSidedLiquidity", amount(100)),
        ("dailyRewards", amount(1_000)),
    ])
}

fn book() -> Json<Micros> {
    let level = |price: i64, quantity: i64| {
        record(vec![("price", amount(price)), ("quantity", amount(quantity))])
    };
    record(vec![(
        "orderbook",
        record(vec![
            ("bids", Json::List(vec![level(5_000, 1_000), level(5_100, 400)])),
            ("asks", Json::List(vec![level(5_400, 1_000), level(5_300, 400)])),
        ]),
    )])
}

fn check(e: &Eligibility<Micros>) -> (bool, Micros) {
    let s = e.standing.as_ref().unwrap();
    assert!(s.expected_share.units >= 0 && s.expected_share.units <= 1_000_000);
    assert!(s.competing_score.units >= 0);
    let total = s.our_score.plus(s.competing_score);
    let share = if e.earning { s.our_score.over(total) } else { cents(0) };
    assert_eq!(s.expected_share, share);
    assert_eq!(e.expected_daily, share.times(cents(1_000)));
    (s.two_sided, share)
}

#[test]
fn a_share_lies_between_nothing_and_the_pool() {
    let both = vec![order("p", "buy", 5_100, 400), order("p", "sell", 5_300, 400)];
    let bid = vec![order("p", "buy", 5_100, 400)];
    let rich = cents(100_000);
    let (p, b) = (program(200, 400), book());
    let (two_sided, share) = check(&eligibility(&p, &refs(&both), &b, rich, cents(400)));
    assert!(two_sided && share.units > 0);
    let (two_sided, share) = check(&eligibility(&p, &refs(&bid), &b, rich, cents(400)));
    assert!(!two_sided && share.units == 0);
    let (two_sided, share) = check(&eligibility(&p, &refs(&both), &b, cents(0), cents(400)));
    assert!(!two_sided && share.units == 0);
}

#[test]
fn cover_and_size_alone_decide_whether_a_side_exists() {
    let b = book();
    let rich = cents(100_000);
    let positions = [
        vec![order("p", "buy", 100, 100), order("p", "sell", 9_900, 100)],
        vec![order("p", "buy", 5_100, 400), order("p", "sell", 5_300, 0)],
        vec![order("p", "buy", 5_100, 400), order("p", "sell", 5_300, 900)],
        vec![order("p", "sell", 5_300, 400)],
    ];
    for (mine, two_sided) in positions.iter().zip([true, false, false, false]) {
        for (spread, min) in [(0, 0), (200, 400), (100_000, 100_000)] {
            let p = program(spread, min);
            let e = eligibility(&p, &refs(mine), &b, rich, cents(500));
            assert_eq!(check(&e).0, two_sided);
        }
    }
}

// ── payouts ─────────────────────────────────────────────────────────────────

fn payout(pid: &str, period: u64, pct: i64, paid: i64) -> Json<Micros> {
    record(vec![
        ("propertyId", text(pid)),
        (
            "periodStart",
            Json::Number {
                value: Micros::of(0),
                whole: Some(period),
            },
        ),
        ("percentOfPool", amount(pct)),
        ("amount", amount(paid)),
    ])
}

type Row = (String, usize, Micros, usize, Vec<u64>);

fn row(p: &Payouts<Micros>) -> Row {
    (
        p.property_id.clone(),
        p.payouts,
        p.earned,
        p.inconsistent_payouts,
        p.gaps.clone(),
    )
}

fn summary(r: &Reconciliation<Micros>) -> (Vec<Row>, Micros, usize, u128) {
    (
        r.properties.iter().map(row).collect(),
        r.total_earned,
        r.total_payouts,
        r.total_gaps,
    )
}

const HR: u64 = 3_600_000;

#[test]
fn payouts_may_arrive_in_any_order() {
    // Twelve percent of the usual pool of 10/24 is five cents.
    let all = || {
        vec![
            payout("a", HR, 1_200, 5),
            payout("b", 9 * HR, 1_200, 900),
            payout("a", 4 * HR, 1_200, 6),
            payout("a", 2 * HR, 0, 7),
            payout("b", 2 * HR, 1_200, 5),
        ]
    };
    let forward = all();
    let mut backward = all();
    backward.reverse();
    let mut turned = all();
    turned.rotate_left(2);
    let expected = summary(&reconcile(&refs(&forward), &vec![]));
    assert_eq!(expected, summary(&reconcile(&refs(&backward), &vec![])));
    assert_eq!(expected, summary(&reconcile(&refs(&turned), &vec![])));
    // One row a property, the best earner first, and totals that add up.
    let (rows, earned, payouts, gaps) = expected;
    assert_eq!(rows.len(), 2);
    assert_eq!(rows[0], ("b".to_string(), 2, cents(905), 1, (3..9).map(|k| k * HR).collect()));
    assert_eq!(rows[1], ("a".to_string(), 3, cents(18), 2, vec![3 * HR]));
    assert_eq!((earned, payouts, gaps), (cents(923), 5, 7));
}

#[test]
fn every_unpaid_period_is_reported_in_order() {
    let paid = [5u64, 2, 11, 7, 2];
    let rewards: Vec<Json<Micros>> = paid.iter().map(|k| payout("a", k * HR + 17, 0, 0)).collect();
    let r = reconcile(&refs(&rewards), &vec![]);
    let p = &r.properties[0];
    assert_eq!((p.first_period, p.last_period), (2 * HR + 17, 11 * HR + 17));
    let unpaid: Vec<u64> = (3..11)
        .filter(|k| !paid.contains(k))
        .map(|k| k * HR + 17)
        .collect();
    assert_eq!(p.gaps, unpaid);
    assert_eq!(unpaid.len(), 6);
}

#[test]
fn a_program_without_payouts_has_no_row() {
    let idle = vec![record(vec![("propertyId", text("idle"))])];
    let paid = vec![payout("a", HR, 1_000, 4)];
    let r = reconcile(&refs(&paid), &refs(&idle));
    assert_eq!(r.properties.len(), 1);
    assert_eq!(r.properties[0].property_id, "a");
}

// ── calendar ────────────────────────────────────────────────────────────────

#[test]
fn periods_read_in_the_order_of_their_minutes() {
    let end = 253_402_300_799_999u64;
    let mut times: Vec<u64> = (0..400).map(|k| k * (end / 399)).collect();
    times.extend([0, 59_999, 60_000, 86_399_999, 86_400_000, 951_782_400_000, end]);
    times.sort();
    for w in times.windows(2) {
        let (a, b) = (fmt_period(w[0]), fmt_period(w[1]));
        assert!(a <= b, "{a} {b}");
        assert_eq!(a == b, w[0] / 60_000 == w[1] / 60_000, "{a} {b}");
    }
    assert_eq!(fmt_period(end), "9999-12-31 23:59 UTC");
}
