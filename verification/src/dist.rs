//! Distribution defaults and their runtime overrides. Forks rebrand by
//! editing the constants; users of an official binary point elsewhere with
//! environment variables or the config file, no rebuild needed. Resolution
//! order: the variable, then the config file, then the constant.

use crate::json;
use crate::json::{member_text, parse};
use crate::text;
use crate::text::{trim, trim_end_char};
use serde_json::Value;
use vstd::prelude::*;
use vstd::utf8;

verus! {

broadcast use vstd::string::group_string_axioms;

pub const DOMAIN: &'static str = "neko.computer";

pub const AUTH: &'static str = "https://app.superhq.ai";

/// GitHub repo this binary self-upgrades from. Compile-time only: an upgrade
/// source must match the provenance of the running binary, not a runtime whim.
pub const REPO: &'static str = "superhq-ai/neko-computer";

/// GitHub repo the base sandbox image downloads from, and the release pin.
/// The pin is compile-time only: the image is provisioned again when it
/// moves, so a runtime override would desync the image from what the code
/// expects.
pub const SHURU_REPO: &'static str = "superhq-ai/shuru";

pub const SHURU_OS_VERSION: &'static str = "0.6.4";

/// The variable that holds a GitHub token for release lookups and downloads.
/// Deliberately not one that is ambient in CI and in many shells: honouring
/// those would let an expired or wrong-scope token turn a working upgrade into
/// a refused one. Opting in is explicit.
pub const GITHUB_TOKEN_VAR: &'static str = "NEKO_GITHUB_TOKEN";

/// The environment variable for the domain.
pub const DOMAIN_VAR: &'static str = "NEKO_DOMAIN";

/// The environment variable for the auth base.
pub const AUTH_VAR: &'static str = "NEKO_AUTH_URL";

/// A setting that is present: its text without white space around it, unless
/// nothing is left.
pub open spec fn setting(value: Option<Seq<char>>) -> Option<Seq<char>> {
    match value {
        Some(s) => if text::trimmed(s).len() > 0 {
            Some(text::trimmed(s))
        } else {
            None
        },
        None => None,
    }
}

/// The setting under a key of the config file.
pub open spec fn config_setting(config: Option<json::Json>, key: Seq<char>) -> Option<Seq<char>> {
    match config {
        Some(tree) => setting(tree.member_text(key)),
        None => None,
    }
}

/// The variable if it is set to something, else the config file's value, else
/// the default.
pub open spec fn resolved(
    env: Option<Seq<char>>,
    config: Option<json::Json>,
    key: Seq<char>,
    default: Seq<char>,
) -> Seq<char> {
    match setting(env) {
        Some(v) => v,
        None => match config_setting(config, key) {
            Some(v) => v,
            None => default,
        },
    }
}

/// What an optional parsed value holds.
pub open spec fn tree_of(config: Option<&Value>) -> Option<json::Json> {
    match config {
        Some(v) => Some(json::json_tree(*v)),
        None => None,
    }
}

/// The trimmed text, unless nothing is left of it.
fn present(value: Option<&str>) -> (r: Option<String>)
    ensures
        text::text_of(r) == setting(text::slice_of(value)),
{
    match value {
        None => None,
        Some(s) => {
            let kept = trim(s);
            if kept.is_empty() {
                None
            } else {
                Some(kept.to_owned())
            }
        },
    }
}

/// Reads the config file's text; one that is missing or is not JSON counts as
/// none.
pub fn load_config(text: Option<&str>) -> (r: Option<Value>)
    ensures
        match text {
            None => r is None,
            Some(s) => match r {
                Some(v) => json::json_document(utf8::encode_utf8(s@)) == Some(json::json_tree(v)),
                None => json::json_document(utf8::encode_utf8(s@)) is None,
            },
        },
{
    match text {
        None => None,
        Some(s) => match parse(s.as_bytes()) {
            Ok(v) => Some(v),
            Err(_) => None,
        },
    }
}

/// The setting under a key of the config file.
pub fn config_value(config: Option<&Value>, key: &str) -> (r: Option<String>)
    ensures
        text::text_of(r) == config_setting(tree_of(config), key@),
{
    match config {
        None => None,
        Some(v) => match member_text(v, key) {
            None => None,
            Some(s) => present(Some(s.as_str())),
        },
    }
}

/// Resolves one setting.
pub fn resolve(env: Option<&str>, config: Option<&Value>, key: &str, default: &str) -> (r: String)
    ensures
        r@ == resolved(text::slice_of(env), tree_of(config), key@, default@),
{
    match present(env) {
        Some(v) => return v,
        None => {},
    }
    match config_value(config, key) {
        Some(v) => return v,
        None => {},
    }
    default.to_owned()
}

/// The domain that tunnels open under, for the value of its variable and the
/// config file.
pub fn domain(env: Option<&str>, config: Option<&Value>) -> (r: String)
    ensures
        r@ == resolved(text::slice_of(env), tree_of(config), "domain"@, DOMAIN@),
{
    resolve(env, config, "domain", DOMAIN)
}

/// The base URL of the identity provider, without a slash at its end.
pub fn auth(env: Option<&str>, config: Option<&Value>) -> (r: String)
    ensures
        r@ == text::without_trailing_char(
            resolved(text::slice_of(env), tree_of(config), "auth"@, AUTH@),
            '/',
        ),
        r@.len() == 0 || r@.last() != '/',
{
    let base = resolve(env, config, "auth", AUTH);
    proof {
        text::no_copies_trail(base@, '/');
    }
    trim_end_char(base.as_str(), '/').to_owned()
}

/// The GitHub token, for the value of its variable; used only when set.
pub fn github_token(env: Option<&str>) -> (r: Option<String>)
    ensures
        text::text_of(r) == setting(text::slice_of(env)),
{
    present(env)
}

// ---------------------------------------------------------------------------
// Laws
// ---------------------------------------------------------------------------

/// A setting that is not blank counts without the white space around it, and
/// the variable counts before the config file, and that before the default.
pub proof fn settings_are_taken_in_order(
    env: Option<&str>,
    config: Option<&Value>,
    key: &str,
    default: &str,
    kept: &str,
    from_config: Option<String>,
    r: String,
)
    requires
        env matches Some(s) ==> call_ensures(trim, (s,), kept),
        call_ensures(config_value, (config, key), from_config),
        call_ensures(resolve, (env, config, key, default), r),
    ensures
        ({
            let set = env is Some && kept@.len() > 0;
            &&& set ==> r@ == kept@
            &&& !set && from_config is Some ==> r@ == from_config->Some_0@
            &&& !set && from_config is None ==> r@ == default@
        }),
{
}

/// The config file sets what it holds as a text that is not blank, without the
/// white space around it, and nothing else.
pub proof fn config_files_set_texts(
    config: &Value,
    key: &str,
    value: &str,
    kept: &str,
    r: Option<String>,
    none: Option<String>,
)
    requires
        call_ensures(trim, (value,), kept),
        call_ensures(config_value, (Some(config), key), r),
        call_ensures(config_value, (None, key), none),
    ensures
        ({
            let tree = json::json_tree(*config);
            let here = tree is Object && tree->Object_0.contains_key(key@);
            &&& here && tree->Object_0[key@] == json::Json::Text(value@) ==> (r is Some <==> kept@.len()
                > 0)
            &&& here && tree->Object_0[key@] == json::Json::Text(value@) && r is Some ==> r->Some_0@
                == kept@
            &&& !here || !(tree->Object_0[key@] is Text) ==> r is None
            &&& none is None
        }),
{
}

/// Tunnels open under the built-in domain unless another one is set, by the
/// variable or under `domain` in the config file.
pub proof fn domains_can_be_set(env: Option<&str>, config: Option<&Value>, set: String, r: String)
    requires
        call_ensures(resolve, (env, config, "domain", "neko.computer"), set),
        call_ensures(domain, (env, config), r),
    ensures
        r@ == set@,
{
}

/// The identity provider is the built-in one unless another one is set, by the
/// variable or under `auth` in the config file; slashes at its end do not
/// count.
pub proof fn providers_can_be_set(
    env: Option<&str>,
    config: Option<&Value>,
    set: String,
    base: &str,
    cut: &str,
    r: String,
)
    requires
        call_ensures(resolve, (env, config, "auth", "https://app.superhq.ai"), set),
        base@ == set@,
        call_ensures(trim_end_char, (base, '/'), cut),
        call_ensures(auth, (env, config), r),
    ensures
        r@ == cut@,
{
}

/// A GitHub token counts where it is set to something, without the white space
/// around it.
pub proof fn tokens_are_opted_into(env: &str, kept: &str, r: Option<String>, none: Option<String>)
    requires
        call_ensures(trim, (env,), kept),
        call_ensures(github_token, (Some(env),), r),
        call_ensures(github_token, (None,), none),
    ensures
        r is Some <==> kept@.len() > 0,
        r matches Some(s) ==> s@ == kept@,
        none is None,
{
}

/// A config file counts where it is there and is JSON, as what it holds.
pub proof fn config_files_are_read(text: &str, r: Option<Value>, none: Option<Value>)
    requires
        call_ensures(load_config, (Some(text),), r),
        call_ensures(load_config, (None,), none),
    ensures
        r is Some <==> json::json_outcome(utf8::encode_utf8(text@)) is Ok,
        r matches Some(v) ==> json::json_outcome(utf8::encode_utf8(text@)) == Ok::<
            json::Json,
            Seq<char>,
        >(json::json_tree(v)),
        none is None,
{
}

} // verus!
