use lofty::amount::Amount;
use lofty::auth::{login_prompt, logout_notice, stored_notice};
use lofty::client::{failure_for, idempotency_key, is_write, require_key, url};
use lofty::commands::api::{base_for, confirmation_for};
use lofty::commands::catalog::{select_endpoints, Endpoint, Kind};
use lofty::commands::{affirmative, gate, table_view, tagged, take_reply, Gate, Payload};
use lofty::config::{Config, DEFAULT_BASE_URL, INTERNAL_BASE_URL, KEYCHAIN_ACCOUNT};
use lofty::failure::Failure;
use lofty::groups::directory_of;
use lofty::json::Json;
use lofty::micros::Micros;
use lofty::sort::sort_by_key;
use lofty::text::{comes_before, decimal, padded};

// ── client ──────────────────────────────────────────────────────────────────

#[test]
fn idempotency_keys_are_uuid_shaped_and_unique() {
    let a = idempotency_key(1_785_500_000_123_456_789);
    let b = idempotency_key(1_785_500_000_123_456_790);
    assert_ne!(a, b);
    assert_eq!(a.len(), 36);
    assert_eq!(a.chars().filter(|c| *c == '-').count(), 4);
    assert_eq!(a.as_bytes()[14], b'4'); // version nibble
}

#[test]
fn an_idempotency_key_is_a_function_of_its_seed() {
    let mut seed: u128 = (7 << 64) ^ 0x1234_5678_9abc_def0;
    let key = idempotency_key(seed);
    let mut bytes: Vec<u8> = Vec::new();
    for _ in 0..2 {
        seed ^= seed << 13;
        seed ^= seed >> 7;
        seed ^= seed << 17;
        bytes.extend_from_slice(&(seed as u64).to_le_bytes());
    }
    bytes[6] = (bytes[6] & 0x0f) | 0x40;
    bytes[8] = (bytes[8] & 0x3f) | 0x80;
    let hex: String = bytes.iter().map(|b| format!("{b:02x}")).collect();
    assert_eq!(key.replace('-', ""), hex);
    assert!("89ab".contains(&key[19..20]));
}

#[test]
fn a_base_may_end_in_slashes() {
    assert_eq!(url("https://x//", "/a"), "https://x/a");
    assert_eq!(url("https://x", "/a"), "https://x/a");
    assert_eq!(url("///", "a"), "a");
    assert_eq!(url("", ""), "");
}

fn error_body() -> Json<Micros> {
    Json::Record(vec![(
        "error".to_string(),
        Json::Record(vec![
            ("code".to_string(), Json::Text("bad_key".to_string())),
            ("message".to_string(), Json::Text("nope".to_string())),
        ]),
    )])
}

#[test]
fn each_status_has_its_own_failure() {
    let body = error_body();
    let text = |status: u16, retry: Option<&str>| {
        let e = failure_for(status, &body, retry);
        (e.exit_code(), e.message().to_string())
    };
    assert_eq!(
        text(401, None),
        (3, "invalid or revoked API key (bad_key): nope".to_string())
    );
    assert_eq!(
        text(403, None),
        (3, "forbidden (bad_key): nope — if this is a trading call, enable Trading on your API key".to_string())
    );
    assert_eq!(text(404, None), (4, "bad_key: nope".to_string()));
    assert_eq!(text(429, None), (5, "rate limited (bad_key): nope".to_string()));
    assert_eq!(
        text(429, Some("12")),
        (5, "rate limited (bad_key): nope — retry after 12s".to_string())
    );
    assert_eq!(text(500, Some("12")), (5, "HTTP 500 (bad_key): nope".to_string()));
    let e = failure_for::<Micros>(502, &Json::Null, None);
    assert_eq!(e.message(), "HTTP 502 (unknown): no error message");
}

#[test]
fn writes_carry_a_key_and_reads_do_not() {
    for method in ["POST", "PUT", "PATCH", "DELETE"] {
        assert!(is_write(method), "{method}");
    }
    for method in ["GET", "HEAD", "OPTIONS", "patch", ""] {
        assert!(!is_write(method), "{method}");
    }
    assert_eq!(require_key(Some("k".to_string())).unwrap(), "k");
    assert_eq!(require_key(None).unwrap_err().exit_code(), 3);
}

// ── config and auth ─────────────────────────────────────────────────────────

#[test]
fn usage_error_exits_2_with_json_error_dto() {
    let mut cfg = Config::default();
    let e = cfg.set("bogus_key", "x".to_string()).unwrap_err();
    assert_eq!(e.exit_code(), 2);
    assert_eq!(e.label(), "usage");
    assert!(e.message().contains("unknown config key"));
    assert_eq!(
        e.message(),
        "unknown config key `bogus_key` (known: base_url, username)"
    );
    assert!(cfg.base_url.is_none() && cfg.username.is_none());
}

#[test]
fn a_setting_is_read_back_until_it_is_taken_away() {
    let mut cfg = Config::default();
    assert_eq!(cfg.base_url(), "https://api.lofty.ai");
    cfg.set("username", "me@x".to_string()).unwrap();
    cfg.set("base_url", "http://localhost/".to_string()).unwrap();
    assert_eq!(cfg.base_url(), "http://localhost/");
    assert_eq!(cfg.username.as_deref(), Some("me@x"));
    cfg.unset("base_url").unwrap();
    assert_eq!(cfg.base_url(), DEFAULT_BASE_URL);
    assert_eq!(cfg.username.as_deref(), Some("me@x"));
    assert!(matches!(cfg.unset("x"), Err(Failure::Usage(_))));
    assert_eq!(KEYCHAIN_ACCOUNT, "api-key");
}

#[test]
fn raw_requests_pick_their_base_and_confirm_changes() {
    let mut cfg = Config::default();
    cfg.set("base_url", "http://h".to_string()).unwrap();
    assert_eq!(base_for(false, &cfg), "http://h");
    assert_eq!(base_for(true, &cfg), INTERNAL_BASE_URL);
    assert_eq!(confirmation_for("GET", "http://h/a"), None);
    assert_eq!(
        confirmation_for("DELETE", "http://h/a").unwrap(),
        "DELETE http://h/a"
    );
}

#[test]
fn operators_are_told_what_happened_to_their_key() {
    assert_eq!(login_prompt(true), None);
    assert!(login_prompt(false).unwrap().contains("lofty_live_"));
    assert_eq!(
        stored_notice("piekstra.lofty"),
        "API key stored in the OS keychain (piekstra.lofty)"
    );
    assert!(logout_notice(true).contains("removed"));
    assert!(logout_notice(false).contains("--forget"));
}

// ── shared command helpers ──────────────────────────────────────────────────

#[test]
fn an_unforced_change_is_asked_for_or_refused() {
    assert!(matches!(gate(true, false, "do it"), Gate::Open));
    assert!(matches!(gate(false, true, "do it"), Gate::Ask(s) if s == "do it — proceed? [y/N] "));
    match gate(false, false, "do it") {
        Gate::Closed(e) => {
            assert_eq!(e.exit_code(), 6);
            assert_eq!(
                e.message(),
                "do it — pass --force to proceed non-interactively"
            );
        }
        other => panic!("{other:?}"),
    }
}

#[test]
fn only_yes_means_yes() {
    for yes in ["y", "Y", "yes", "YES", "yEs", "  y\n", "\tyes\r\n", "\u{3000}y\u{a0}"] {
        assert!(affirmative(yes), "{yes:?}");
    }
    for no in ["", " ", "n", "no", "yy", "ye", "y es", "yes please", "ＹES", "y\u{200b}"] {
        assert!(!affirmative(no), "{no:?}");
    }
    assert!(take_reply("y\n").is_ok());
    assert_eq!(take_reply("\n").unwrap_err().message(), "aborted by user");
}

#[test]
fn payloads_are_tagged_with_their_schema() {
    let t = tagged("orders-list", Payload::Record(vec![("a".to_string(), 1)]));
    assert_eq!(t.tag, "orders-list/v1");
    assert_eq!(t.entries, vec![("a".to_string(), 1)]);
    // The command's tag stands for it, whatever schema the record names.
    let own = |names: &[&str]| -> Vec<(String, usize)> {
        names.iter().enumerate().map(|(i, n)| (n.to_string(), i)).collect()
    };
    let t = tagged("orders-list", Payload::Record(own(&["schema", "orders"])));
    assert_eq!(t.tag, "orders-list/v1");
    assert_eq!(t.entries, vec![("orders".to_string(), 1)]);
    let t = tagged("x", Payload::Record(own(&["a", "schema", "b", "schema"])));
    assert_eq!(t.entries, vec![("a".to_string(), 0), ("b".to_string(), 2)]);
    let t = tagged("api-response", Payload::Other(3));
    assert_eq!(t.entries, vec![("data".to_string(), 3)]);
    assert_eq!(t.tag, "api-response/v1");
}

#[test]
fn a_table_shows_the_columns_an_item_has() {
    let items = vec![
        vec![
            ("id".to_string(), 1),
            ("x".to_string(), 2),
            ("id".to_string(), 9),
        ],
        vec![],
        vec![("price".to_string(), 3), ("id".to_string(), 4)],
    ];
    let rows = table_view(&items, &vec!["id", "price"]);
    assert_eq!(
        rows,
        vec![vec![("id", &1)], vec![], vec![("id", &4), ("price", &3)]]
    );
}

#[test]
fn the_inventory_is_filtered_by_group_and_kind() {
    let endpoint = |path: &str, group: &str, kind: Kind| Endpoint {
        path: path.to_string(),
        name: "n".to_string(),
        group: group.to_string(),
        kind,
    };
    let all = vec![
        endpoint("/exchange/v2/createorder", "exchange", Kind::Write),
        endpoint("/exchange/v2/getpropertyorderbook", "exchange", Kind::Read),
        endpoint("/lp-rewards/dashboard", "lp-rewards", Kind::Read),
    ];
    let paths = |group: Option<&str>, kind: Option<&str>| -> Vec<String> {
        select_endpoints(&all, group, kind)
            .iter()
            .map(|e| e.path.clone())
            .collect()
    };
    assert_eq!(paths(None, None).len(), 3);
    assert_eq!(paths(Some("lp-rewards"), None), ["/lp-rewards/dashboard"]);
    assert_eq!(
        paths(Some("exchange"), Some("write")),
        ["/exchange/v2/createorder"]
    );
    assert_eq!(paths(None, Some("admin")).len(), 0);
}

// ── text, order and exact amounts ───────────────────────────────────────────

#[test]
fn numbers_are_written_out() {
    assert_eq!(decimal(0), "0");
    assert_eq!(decimal(10), "10");
    assert_eq!(
        decimal(u128::MAX),
        "340282366920938463463374607431768211455"
    );
    assert_eq!(padded(7, 2), "07");
    assert_eq!(padded(2026, 4), "2026");
    assert_eq!(padded(12345, 4), "12345");
}

#[test]
fn names_are_ordered_by_code_point() {
    assert!(comes_before("", "a"));
    assert!(comes_before("a", "ab"));
    assert!(comes_before("Z", "a"));
    assert!(comes_before("z", "é"));
    assert!(!comes_before("a", "a"));
    let item = |name: &str| {
        Json::<Micros>::Record(vec![("id".to_string(), Json::Text(name.to_string()))])
    };
    let items = [item("b"), item("a"), Json::Null, item("b"), item("é")];
    let all: Vec<&Json<Micros>> = items.iter().collect();
    assert_eq!(directory_of(&all, "id"), ["", "a", "b", "é"]);
}

#[test]
fn equal_keys_keep_their_order() {
    let sorted = sort_by_key(vec![(3, 'a'), (1, 'b'), (3, 'c'), (-2, 'd'), (1, 'e')]);
    assert_eq!(sorted, ['d', 'b', 'e', 'a', 'c']);
}

fn micros(units: i64) -> Micros {
    Micros { units }
}

#[test]
fn exact_amounts_round_halves_away_from_zero() {
    assert_eq!(micros(3).times(micros(500_000)).units, 2);
    assert_eq!(micros(-3).times(micros(500_000)).units, -2);
    assert_eq!(micros(1_000_000).over(micros(3_000_000)).units, 333_333);
    assert_eq!(micros(2_000_000).over(micros(-3_000_000)).units, -666_667);
    assert_eq!(micros(2_500_000).rounded().units, 3_000_000);
    assert_eq!(micros(-2_500_000).rounded().units, -3_000_000);
    assert_eq!(micros(2_499_999).rounded().units, 2_000_000);
}

#[test]
fn exact_amounts_stop_at_the_ends_of_their_range() {
    let (top, bottom) = (micros(i64::MAX), micros(i64::MIN));
    assert_eq!(top.plus(micros(1)), top);
    assert_eq!(bottom.minus(micros(1)), bottom);
    assert_eq!(bottom.absolute(), top);
    assert_eq!(top.times(top), top);
    assert_eq!(top.times(bottom), bottom);
    assert_eq!(micros(5).over(micros(0)), top);
    assert_eq!(micros(-5).over(micros(0)), bottom);
    assert_eq!(micros(0).over(micros(0)).units, 0);
    assert_eq!(Micros::of(u64::MAX), top);
    assert!(!top.is_finite() && !bottom.is_finite() && micros(0).is_finite());
    assert_eq!(Micros::beyond_all(), top);
}

#[test]
fn exact_amounts_are_shown_with_the_digits_asked_for() {
    let n = micros(1_234_567);
    assert_eq!(n.fixed(0), "1");
    assert_eq!(n.fixed(1), "1.2");
    assert_eq!(n.fixed(2), "1.23");
    assert_eq!(n.fixed(4), "1.2346");
    assert_eq!(n.fixed(6), "1.234567");
    assert_eq!(n.fixed(8), "1.23456700");
    assert_eq!(micros(999_999).fixed(2), "1.00");
    assert_eq!(micros(-50_000).fixed(2), "-0.05");
    assert_eq!(micros(4_000_000).plain(), "4");
    assert_eq!(micros(1_500_000).plain(), "1.5");
    assert_eq!(micros(-1).plain(), "-0.000001");
    assert_eq!(micros(i64::MIN).plain(), "-9223372036854.775808");
}
