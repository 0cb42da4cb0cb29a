use vstd::prelude::*;

use crate::failure::{verdict, Failure, FailureView};
use crate::text::{chars_of, letters};

verus! {

pub open spec fn ascii_alphanumeric(c: char) -> bool {
    ('0' <= c && c <= '9') || ('A' <= c && c <= 'Z') || ('a' <= c && c <= 'z')
}

/// Whether a text has the shape of an API key: a live or test prefix, then at
/// least 32 characters, all of them ASCII letters or digits.
pub open spec fn key_shaped(s: Seq<char>) -> bool {
    let n = "lofty_live_"@.len() as int;
    &&& s.len() >= n + 32
    &&& s.take(n) == "lofty_live_"@ || s.take(n) == "lofty_test_"@
    &&& forall|i: int| n <= i < s.len() ==> ascii_alphanumeric(#[trigger] s[i])
}

fn starts_with(s: &Vec<char>, prefix: &Vec<char>) -> (r: bool)
    ensures
        r == (prefix.len() <= s.len() && s@.take(prefix.len() as int) == prefix@),
{
    if s.len() < prefix.len() {
        return false;
    }
    let mut i: usize = 0;
    while i < prefix.len()
        invariant
            i <= prefix.len() <= s.len(),
            forall|k: int| 0 <= k < i ==> s@[k] == prefix@[k],
        decreases prefix.len() - i,
    {
        if s[i] != prefix[i] {
            assert(s@.take(prefix.len() as int)[i as int] != prefix@[i as int]);
            return false;
        }
        i = i + 1;
    }
    assert(s@.take(prefix.len() as int) =~= prefix@);
    true
}

pub fn looks_like_key(s: &str) -> (r: bool)
    ensures
        r == key_shaped(s@),
{
    proof {
        reveal_strlit("lofty_live_");
        reveal_strlit("lofty_test_");
    }
    let all = letters(s);
    if all.len() < 43 {
        return false;
    }
    if !starts_with(&all, &letters("lofty_live_")) && !starts_with(
        &all,
        &letters("lofty_test_"),
    ) {
        return false;
    }
    let mut i: usize = 11;
    while i < all.len()
        invariant
            11 <= i <= all.len(),
            all@ == s@,
            "lofty_live_"@.len() == 11,
            forall|k: int| 11 <= k < i ==> ascii_alphanumeric(#[trigger] s@[k]),
        decreases all.len() - i,
    {
        let c = all[i];
        if !(('0' <= c && c <= '9') || ('A' <= c && c <= 'Z') || ('a' <= c && c <= 'z')) {
            assert(!ascii_alphanumeric(s@[i as int]));
            return false;
        }
        i = i + 1;
    }
    true
}

pub open spec fn already_stored_text() -> Seq<char> {
    "an API key is already stored; pass --overwrite to replace it"@
}

/// A stored key is replaced only when the caller says so.
pub fn check_overwrite(stored: bool, overwrite: bool) -> (r: Result<(), Failure>)
    ensures
        verdict(r) == if stored && !overwrite {
            Err(FailureView::Usage(already_stored_text()))
        } else {
            Ok(())
        },
{
    if stored && !overwrite {
        Err(
            Failure::Usage(
                "an API key is already stored; pass --overwrite to replace it".to_owned(),
            ),
        )
    } else {
        Ok(())
    }
}

pub open spec fn not_a_key_text() -> Seq<char> {
    "that doesn't look like a Lofty API key (expected lofty_live_… or lofty_test_…)"@
}

/// A candidate key is refused before it is sent anywhere unless it has the shape
/// of one.
pub fn check_key(candidate: &str) -> (r: Result<(), Failure>)
    ensures
        verdict(r) == if key_shaped(candidate@) {
            Ok(())
        } else {
            Err(FailureView::Usage(not_a_key_text()))
        },
{
    if looks_like_key(candidate) {
        Ok(())
    } else {
        Err(
            Failure::Usage(
                "that doesn't look like a Lofty API key (expected lofty_live_… or lofty_test_…)".to_owned(),
            ),
        )
    }
}

/// What the operator is prompted with, unless the key must come without a prompt.
pub fn login_prompt(non_interactive: bool) -> (r: Option<&'static str>)
    ensures
        chars_of(r) == if non_interactive {
            None
        } else {
            Some("Lofty API key (lofty_live_…)"@)
        },
{
    if non_interactive {
        None
    } else {
        Some("Lofty API key (lofty_live_…)")
    }
}

/// What the operator is told once a key is stored.
pub fn stored_notice(service: &str) -> (r: String)
    ensures
        r@ == "API key stored in the OS keychain ("@ + service@ + ")"@,
{
    "API key stored in the OS keychain (".to_owned().concat(service).concat(")")
}

/// What the operator is told about a logout: keys are stateless, so only an
/// explicit request removes anything.
pub fn logout_notice(forget: bool) -> (r: &'static str)
    ensures
        r@ == if forget {
            "API key removed from the keychain; config cleared"@
        } else {
            "nothing session-scoped to clear (API keys are stateless); use --forget to remove the stored key"@
        },
{
    if forget {
        "API key removed from the keychain; config cleared"
    } else {
        "nothing session-scoped to clear (API keys are stateless); use --forget to remove the stored key"
    }
}

/// A key is a live or a test prefix with at least 32 ASCII letters or digits behind
/// it, and nothing else is one.
pub proof fn a_key_is_a_prefix_and_enough_letters(prefix: Seq<char>, body: Seq<char>)
    requires
        prefix.len() == 11,
    ensures
        key_shaped(prefix + body) <==> {
            &&& prefix == "lofty_live_"@ || prefix == "lofty_test_"@
            &&& body.len() >= 32
            &&& forall|i: int|
                0 <= i < body.len() ==> {
                    ||| '0' <= #[trigger] body[i] && body[i] <= '9'
                    ||| 'A' <= body[i] && body[i] <= 'Z'
                    ||| 'a' <= body[i] && body[i] <= 'z'
                }
        },
{
    reveal_strlit("lofty_live_");
    let s = prefix + body;
    assert(s.take(11) =~= prefix);
    assert(forall|i: int| 0 <= i < body.len() ==> #[trigger] body[i] == s[i + 11]);
    assert(forall|i: int| 11 <= i < s.len() ==> #[trigger] s[i] == body[i - 11]);
}

} // verus!
