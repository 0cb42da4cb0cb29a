use vstd::prelude::*;

use crate::failure::{verdict, Failure, FailureView};
use crate::text::{joined, joined_text, owned_chars, same, texts};

verus! {

/// Official SDK API base. Auth: `Authorization: Bearer lofty_live_…`.
pub const DEFAULT_BASE_URL: &'static str = "https://api.lofty.ai";

/// The internal platform API used by the website. Reachable via
/// `lofty api --internal`.
pub const INTERNAL_BASE_URL: &'static str = "https://api.lofty.ai/prod";

/// Keychain account name the API key is stored under.
pub const KEYCHAIN_ACCOUNT: &'static str = "api-key";

/// Non-secret settings. The API key lives in the OS keychain, never here.
#[derive(Debug, Clone)]
pub struct Config {
    /// Override the API base URL.
    pub base_url: Option<String>,
    /// Account email: an identity label only.
    pub username: Option<String>,
}

/// The settings as characters.
pub struct ConfigView {
    pub base_url: Option<Seq<char>>,
    pub username: Option<Seq<char>>,
}

impl View for Config {
    type V = ConfigView;

    open spec fn view(&self) -> ConfigView {
        ConfigView { base_url: owned_chars(self.base_url), username: owned_chars(self.username) }
    }
}

impl Default for Config {
    fn default() -> (r: Config)
        ensures
            r@ == (ConfigView { base_url: None, username: None }),
    {
        Config { base_url: None, username: None }
    }
}

impl ConfigView {
    /// The settings with `key` given `value`, or nothing for an unknown key.
    pub open spec fn with(self, key: Seq<char>, value: Option<Seq<char>>) -> Option<ConfigView> {
        if key == "base_url"@ {
            Some(ConfigView { base_url: value, username: self.username })
        } else if key == "username"@ {
            Some(ConfigView { base_url: self.base_url, username: value })
        } else {
            None
        }
    }
}

/// The keys that can be set, in the order they are listed to the user.
pub open spec fn known_key_texts() -> Seq<Seq<char>> {
    seq!["base_url"@, "username"@]
}

pub fn known_keys() -> (r: Vec<String>)
    ensures
        texts(r@) == known_key_texts(),
{
    let mut keys: Vec<String> = Vec::new();
    keys.push("base_url".to_owned());
    keys.push("username".to_owned());
    assert(texts(keys@) =~= known_key_texts());
    keys
}

pub open spec fn unknown_key_text(key: Seq<char>) -> Seq<char> {
    "unknown config key `"@ + key + "` (known: "@ + joined_text(known_key_texts(), ", "@) + ")"@
}

pub fn unknown_key(key: &str) -> (r: Failure)
    ensures
        r@ == FailureView::Usage(unknown_key_text(key@)),
{
    Failure::Usage(
        "unknown config key `".to_owned().concat(key).concat("` (known: ").concat(
            &joined(&known_keys(), ", "),
        ).concat(")"),
    )
}

impl Config {
    /// The API base in force.
    pub fn base_url(&self) -> (r: String)
        ensures
            r@ == match self@.base_url {
                Some(url) => url,
                None => DEFAULT_BASE_URL@,
            },
    {
        match &self.base_url {
            Some(url) => url.clone(),
            None => DEFAULT_BASE_URL.to_owned(),
        }
    }

    fn assign(&mut self, key: &str, value: Option<String>) -> (r: Result<(), Failure>)
        ensures
            match old(self)@.with(key@, owned_chars(value)) {
                Some(next) => verdict(r) == Ok::<(), FailureView>(()) && final(self)@ == next,
                None => verdict(r) == Err::<(), FailureView>(
                    FailureView::Usage(unknown_key_text(key@)),
                ) && final(self)@ == old(self)@,
            },
    {
        if same(key, "base_url") {
            self.base_url = value;
            Ok(())
        } else if same(key, "username") {
            self.username = value;
            Ok(())
        } else {
            Err(unknown_key(key))
        }
    }

    /// Give a key a value. An unknown key changes nothing.
    pub fn set(&mut self, key: &str, value: String) -> (r: Result<(), Failure>)
        ensures
            match old(self)@.with(key@, Some(value@)) {
                Some(next) => verdict(r) == Ok::<(), FailureView>(()) && final(self)@ == next,
                None => verdict(r) == Err::<(), FailureView>(
                    FailureView::Usage(unknown_key_text(key@)),
                ) && final(self)@ == old(self)@,
            },
    {
        self.assign(key, Some(value))
    }

    /// Take a key's value away. An unknown key changes nothing.
    pub fn unset(&mut self, key: &str) -> (r: Result<(), Failure>)
        ensures
            match old(self)@.with(key@, None) {
                Some(next) => verdict(r) == Ok::<(), FailureView>(()) && final(self)@ == next,
                None => verdict(r) == Err::<(), FailureView>(
                    FailureView::Usage(unknown_key_text(key@)),
                ) && final(self)@ == old(self)@,
            },
    {
        self.assign(key, None)
    }
}

/// Setting a key and reading it gives the value back, taking it away leaves
/// nothing, and the other key keeps its value either way.
pub proof fn keys_are_independent(cfg: ConfigView, value: Option<Seq<char>>)
    ensures
        cfg.with("base_url"@, value) == Some(
            ConfigView { base_url: value, username: cfg.username },
        ),
        cfg.with("username"@, value) == Some(
            ConfigView { base_url: cfg.base_url, username: value },
        ),
{
    reveal_strlit("base_url");
    reveal_strlit("username");
    assert("base_url"@[0] != "username"@[0]);
}

/// Exactly the known keys can be set.
pub proof fn only_known_keys_are_accepted(
    cfg: ConfigView,
    key: Seq<char>,
    value: Option<Seq<char>>,
)
    ensures
        cfg.with(key, value) is Some <==> known_key_texts().contains(key),
{
    assert(known_key_texts()[0] == "base_url"@);
    assert(known_key_texts()[1] == "username"@);
}

} // verus!
