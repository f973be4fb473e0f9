//! What is said when GitHub refuses a request.

use crate::dist::GITHUB_TOKEN_VAR;
use crate::text;
use crate::text::same;
use vstd::prelude::*;
use vstd::string::StringExecFns;

verus! {

broadcast use vstd::string::group_string_axioms;

/// Who this program is to GitHub.
pub const USER_AGENT: &'static str = "neko-cli";

/// The header in which GitHub counts the requests that are left.
pub const REMAINING_HEADER: &'static str = "x-ratelimit-remaining";

/// A refusal for want of requests that are left.
pub open spec fn is_rate_limit(status: u16, remaining: Option<Seq<char>>) -> bool {
    (status == 403 || status == 429) && remaining == Some("0"@)
}

/// The advice on a rate limit, with or without a token.
pub open spec fn advice_text(has_token: bool) -> Seq<char> {
    if has_token {
        "github refused the request even with "@ + GITHUB_TOKEN_VAR@
            + "; check the token is valid and unexpired"@
    } else {
        "github is rate limiting this address; retry with "@ + GITHUB_TOKEN_VAR@
            + "=<personal access token>"@
    }
}

/// Turns a rate-limit refusal into advice instead of a bare status.
pub fn explain(status: u16, remaining: Option<&str>, has_token: bool) -> (r: Option<String>)
    ensures
        text::text_of(r) == (if is_rate_limit(status, text::slice_of(remaining)) {
            Some(advice_text(has_token))
        } else {
            None
        }),
{
    let spent = match remaining {
        Some(n) => same(n, "0"),
        None => false,
    };
    if !((status == 403 || status == 429) && spent) {
        return None;
    }
    if has_token {
        let mut s = "github refused the request even with ".to_owned();
        s.append(GITHUB_TOKEN_VAR);
        s.append("; check the token is valid and unexpired");
        Some(s)
    } else {
        let mut s = "github is rate limiting this address; retry with ".to_owned();
        s.append(GITHUB_TOKEN_VAR);
        s.append("=<personal access token>");
        Some(s)
    }
}

// ---------------------------------------------------------------------------
// Laws
// ---------------------------------------------------------------------------

/// Advice is given exactly where no requests are left: on the statuses 403 and
/// 429 with a count of `0`.
pub proof fn advice_is_for_rate_limits(
    status: u16,
    remaining: Option<&str>,
    has_token: bool,
    r: Option<String>,
)
    requires
        call_ensures(explain, (status, remaining, has_token), r),
    ensures
        r is Some <==> (status == 403 || status == 429) && remaining is Some
            && remaining->Some_0@ == "0"@,
        r is Some && has_token ==> r->Some_0@ == "github refused the request even with "@
            + "NEKO_GITHUB_TOKEN"@ + "; check the token is valid and unexpired"@,
        r is Some && !has_token ==> r->Some_0@
            == "github is rate limiting this address; retry with "@ + "NEKO_GITHUB_TOKEN"@
            + "=<personal access token>"@,
{
}

} // verus!
