use lofty::auth::{check_key, check_overwrite, looks_like_key};
use lofty::failure::Failure;

#[test]
fn key_shape_validation() {
    assert!(looks_like_key(&format!("lofty_live_{}", "a".repeat(32))));
    assert!(looks_like_key(&format!("lofty_test_{}", "B2c".repeat(11))));
    assert!(!looks_like_key("lofty_live_short"));
    assert!(!looks_like_key(&format!("sk_live_{}", "a".repeat(32))));
    assert!(!looks_like_key(&format!("lofty_live_{}!", "a".repeat(31))));
}

#[test]
fn a_key_holds_no_character_beyond_ascii() {
    assert!(!looks_like_key(&format!("lofty_live_{}é", "a".repeat(40))));
    assert!(!looks_like_key(""));
    assert!(!looks_like_key("lofty_live_"));
}

#[test]
fn a_stored_key_is_kept_unless_told_otherwise() {
    assert!(check_overwrite(false, false).is_ok());
    assert!(check_overwrite(true, true).is_ok());
    match check_overwrite(true, false) {
        Err(Failure::Usage(m)) => assert!(m.contains("--overwrite")),
        other => panic!("{other:?}"),
    }
}

#[test]
fn a_misshapen_candidate_is_a_usage_error() {
    assert!(check_key(&format!("lofty_test_{}", "9".repeat(32))).is_ok());
    match check_key("hunter2") {
        Err(Failure::Usage(m)) => assert!(m.contains("doesn't look like a Lofty API key")),
        other => panic!("{other:?}"),
    }
}
