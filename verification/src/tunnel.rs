//! How a tunnel is asked for, and what is said when there is none.

use crate::number;
use crate::number::decimal_text;
use crate::text;
use crate::text::trim;
use crate::wire;
use crate::wire::utf8_lossy;
use vstd::prelude::*;
use vstd::string::StringExecFns;

verus! {

broadcast use vstd::string::group_string_axioms;

/// What the edge is told of a tunnel besides its name: that the name was
/// claimed, and the workspace whose members alone may visit it.
pub open spec fn connect_query(claimed: bool, private_org: Option<Seq<char>>) -> Seq<char> {
    match (claimed, private_org) {
        (false, None) => Seq::empty(),
        (true, None) => "?claim=1"@,
        (false, Some(org)) => "?private=1&org="@ + org,
        (true, Some(org)) => "?claim=1&private=1&org="@ + org,
    }
}

/// Where a tunnel is asked for.
pub open spec fn connect_url_of(
    subdomain: Seq<char>,
    domain: Seq<char>,
    claimed: bool,
    private_org: Option<Seq<char>>,
) -> Seq<char> {
    "wss://"@ + subdomain + "."@ + domain + "/__neko/connect"@ + connect_query(claimed, private_org)
}

/// Where a tunnel is asked for. `claimed` marks a name that the user chose: the
/// edge records a claim for it, while a generated name is only held while the
/// connector is live.
pub fn connect_url(
    subdomain: &str,
    domain: &str,
    claimed: bool,
    private_org: Option<&str>,
) -> (r: String)
    ensures
        r@ == connect_url_of(subdomain@, domain@, claimed, text::slice_of(private_org)),
{
    let mut url = "wss://".to_owned();
    url.append(subdomain);
    url.append(".");
    url.append(domain);
    url.append("/__neko/connect");
    let ghost base = url@;
    match private_org {
        Some(org) => {
            url.append(
                if claimed {
                    "?claim=1&private=1&org="
                } else {
                    "?private=1&org="
                },
            );
            url.append(org);
        },
        None => {
            if claimed {
                url.append("?claim=1");
            }
        },
    }
    assert(url@ =~= base + connect_query(claimed, text::slice_of(private_org)));
    url
}

/// How the connector shows who it is.
pub fn bearer(token: &str) -> (r: String)
    ensures
        r@ == "Bearer "@ + token@,
{
    let mut out = "Bearer ".to_owned();
    out.append(token);
    out
}

/// What is said of a tunnel that the edge refused, with what the edge itself
/// said.
pub open spec fn refusal_text(status: u16, said: Seq<char>) -> Seq<char> {
    let said = text::trimmed(said);
    if said.len() == 0 {
        "edge refused the tunnel (HTTP "@ + number::decimal(status as nat) + ")"@
    } else {
        said
    }
}

/// What is said of a tunnel that the edge refused, with what the edge itself
/// said.
pub fn refused(status: u16, said: &str) -> (r: String)
    ensures
        r@ == refusal_text(status, said@),
{
    let said = trim(said);
    if said.is_empty() {
        let mut out = "edge refused the tunnel (HTTP ".to_owned();
        out.append(decimal_text(status as u64).as_str());
        out.append(")");
        out
    } else {
        said.to_owned()
    }
}

/// What is said of a tunnel that the edge refused, with the body of its
/// response.
pub fn refusal(status: u16, body: Option<&[u8]>) -> (r: String)
    ensures
        r@ == refusal_text(
            status,
            match body {
                Some(bytes) => wire::lossy_text(bytes@),
                None => Seq::empty(),
            },
        ),
{
    match body {
        Some(bytes) => refused(status, utf8_lossy(bytes).as_str()),
        None => {
            proof {
                reveal_strlit("");
                assert(""@ =~= Seq::empty());
            }
            refused(status, "")
        },
    }
}

/// What is said of a port that nothing listens on, on either loopback.
pub open spec fn unreached_text(port: u16, v4: Seq<char>, v6: Seq<char>) -> Seq<char> {
    "nothing is listening on port "@ + number::decimal(port as nat) + " (127.0.0.1: "@ + v4
        + "; [::1]: "@ + v6 + ")"@
}

/// What is said of a port that nothing listens on, on either loopback.
pub fn nothing_listens(port: u16, v4: &str, v6: &str) -> (r: String)
    ensures
        r@ == unreached_text(port, v4@, v6@),
{
    let mut out = "nothing is listening on port ".to_owned();
    out.append(decimal_text(port as u64).as_str());
    out.append(" (127.0.0.1: ");
    out.append(v4);
    out.append("; [::1]: ");
    out.append(v6);
    out.append(")");
    out
}

/// What is done next to reach a port of this machine.
pub enum LoopbackStep {
    /// Dial 127.0.0.1.
    TryV4,
    /// Dial [::1].
    TryV6,
    /// Nothing listens; this says so.
    GiveUp(String),
}

/// What is done next to reach a port of this machine, by how the dials so far
/// failed. Servers disagree about which loopback is theirs, so both are tried
/// before giving up.
pub fn loopback_step(port: u16, v4: Option<&str>, v6: Option<&str>) -> (r: LoopbackStep)
    ensures
        match (v4, v6) {
            (None, _) => r is TryV4,
            (Some(_), None) => r is TryV6,
            (Some(a), Some(b)) => r matches LoopbackStep::GiveUp(s) && s@ == unreached_text(
                port,
                a@,
                b@,
            ),
        },
{
    match (v4, v6) {
        (None, _) => LoopbackStep::TryV4,
        (Some(_), None) => LoopbackStep::TryV6,
        (Some(a), Some(b)) => LoopbackStep::GiveUp(nothing_listens(port, a, b)),
    }
}

/// Where a visitor's WebSocket is opened on the guest.
pub fn guest_url(port: u16, url: &str) -> (r: String)
    ensures
        r@ == "ws://localhost:"@ + number::decimal(port as nat) + url@,
{
    let mut out = "ws://localhost:".to_owned();
    out.append(decimal_text(port as u64).as_str());
    out.append(url);
    out
}

// ---------------------------------------------------------------------------
// Laws
// ---------------------------------------------------------------------------

/// A tunnel is asked for at its own name, below the domain; a name that was
/// claimed says so, and a private tunnel says so with its workspace.
pub proof fn tunnels_are_asked_for_by_name(
    subdomain: &str,
    domain: &str,
    org: &str,
    plain: String,
    claimed: String,
    private: String,
    both: String,
)
    requires
        call_ensures(connect_url, (subdomain, domain, false, None), plain),
        call_ensures(connect_url, (subdomain, domain, true, None), claimed),
        call_ensures(connect_url, (subdomain, domain, false, Some(org)), private),
        call_ensures(connect_url, (subdomain, domain, true, Some(org)), both),
    ensures
        plain@ == "wss://"@ + subdomain@ + "."@ + domain@ + "/__neko/connect"@,
        claimed@ == plain@ + "?claim=1"@,
        private@ == plain@ + ("?private=1&org="@ + org@),
        both@ == plain@ + ("?claim=1&private=1&org="@ + org@),
{
    assert(plain@ =~= "wss://"@ + subdomain@ + "."@ + domain@ + "/__neko/connect"@);
}

/// A connector shows its token as it is.
pub proof fn tokens_are_shown_whole(token: &str, r: String)
    requires
        call_ensures(bearer, (token,), r),
    ensures
        r@ == "Bearer "@ + token@,
{
}

/// What the edge says of a refusal is passed on without white space around it;
/// where it says nothing, its status is.
pub proof fn refusals_are_passed_on(status: u16, said: &str, kept: &str, r: String)
    requires
        call_ensures(trim, (said,), kept),
        call_ensures(refused, (status, said), r),
    ensures
        kept@.len() > 0 ==> r@ == kept@,
        kept@.len() == 0 ==> r@ == "edge refused the tunnel (HTTP "@ + number::decimal(
            status as nat,
        ) + ")"@,
{
}

/// The body of a refusal is what the edge says, and without one it says
/// nothing.
pub proof fn refusals_are_read(status: u16, body: &[u8], said: &str, a: String, b: String, none: String)
    requires
        said@ == wire::lossy_text(body@),
        call_ensures(refused, (status, said), a),
        call_ensures(refusal, (status, Some(body)), b),
        call_ensures(refusal, (status, None), none),
    ensures
        a@ == b@,
        none@ == "edge refused the tunnel (HTTP "@ + number::decimal(status as nat) + ")"@,
{
    text::solid_text_is_trimmed(Seq::empty());
}

/// Both loopbacks are tried, 127.0.0.1 first, before a port is given up, and
/// giving up says what came of both.
pub proof fn both_loopbacks_are_tried(
    port: u16,
    a: &str,
    b: &str,
    first: LoopbackStep,
    second: LoopbackStep,
    last: LoopbackStep,
)
    requires
        call_ensures(loopback_step, (port, None, None), first),
        call_ensures(loopback_step, (port, Some(a), None), second),
        call_ensures(loopback_step, (port, Some(a), Some(b)), last),
    ensures
        first is TryV4,
        second is TryV6,
        last matches LoopbackStep::GiveUp(s) && s@ == "nothing is listening on port "@
            + number::decimal(port as nat) + " (127.0.0.1: "@ + a@ + "; [::1]: "@ + b@ + ")"@,
{
}

/// A visitor's socket is opened on the guest's port, with the visitor's URL.
pub proof fn sockets_keep_their_url(port: u16, url: &str, r: String)
    requires
        call_ensures(guest_url, (port, url), r),
    ensures
        r@ == "ws://localhost:"@ + number::decimal(port as nat) + url@,
{
}

} // verus!
