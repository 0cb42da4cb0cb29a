use vstd::prelude::*;

use crate::config::{Config, DEFAULT_BASE_URL, INTERNAL_BASE_URL};
use crate::text::{owned_chars, same};

verus! {

/// The API base of a raw request.
pub fn base_for(internal: bool, cfg: &Config) -> (r: String)
    ensures
        r@ == if internal {
            INTERNAL_BASE_URL@
        } else {
            match cfg@.base_url {
                Some(url) => url,
                None => DEFAULT_BASE_URL@,
            }
        },
{
    if internal {
        INTERNAL_BASE_URL.to_owned()
    } else {
        cfg.base_url()
    }
}

/// What must be confirmed before a raw request is sent: every method but a read.
pub fn confirmation_for(method: &str, url: &str) -> (r: Option<String>)
    ensures
        owned_chars(r) == if method@ == "GET"@ {
            None
        } else {
            Some(method@ + " "@ + url@)
        },
{
    if same(method, "GET") {
        None
    } else {
        Some(method.to_owned().concat(" ").concat(url))
    }
}

} // verus!
