//! Local port forwarding: which port of this machine stands for which port of
//! the sandbox.

use crate::number;
use crate::number::parse_u16;
use crate::text;
use crate::text::{split_once, trim};
use vstd::prelude::*;
use vstd::string::StringExecFns;

verus! {

broadcast use vstd::string::group_string_axioms;

/// A port of this machine and the port of the sandbox that it leads to.
#[derive(Clone, Copy, Debug, PartialEq, Eq, Structural)]
pub struct Mapping {
    pub host: u16,
    pub guest: u16,
}

/// Why a port specification was refused.
#[derive(Debug)]
pub enum ForwardError {
    NotAPort(String),
    Zero,
}

impl ForwardError {
    /// The error as the user reads it.
    pub open spec fn text(self) -> Seq<char> {
        match self {
            ForwardError::NotAPort(s) => "not a port number: "@ + s@,
            ForwardError::Zero => "port must not be zero"@,
        }
    }

    /// The error as the user reads it.
    pub fn message(&self) -> (r: String)
        ensures
            r@ == self.text(),
    {
        match self {
            ForwardError::NotAPort(s) => {
                let mut m = "not a port number: ".to_owned();
                m.append(s.as_str());
                m
            },
            ForwardError::Zero => "port must not be zero".to_owned(),
        }
    }
}

/// The host field and the guest field of a specification, without white space
/// around them; a lone field is both.
pub open spec fn port_fields(spec: Seq<char>) -> (Seq<char>, Seq<char>) {
    match text::split_first(spec, ':') {
        Some((host, guest)) => (text::trimmed(host), text::trimmed(guest)),
        None => (text::trimmed(spec), text::trimmed(spec)),
    }
}

/// What parsing a specification gives.
pub open spec fn parses_to(spec: Seq<char>, r: Result<Mapping, ForwardError>) -> bool {
    let (host, guest) = port_fields(spec);
    match (number::u16_value(host), number::u16_value(guest)) {
        (None, _) => r matches Err(ForwardError::NotAPort(s)) && s@ == host,
        (Some(_), None) => r matches Err(ForwardError::NotAPort(s)) && s@ == guest,
        (Some(h), Some(g)) => if h == 0 || g == 0 {
            r matches Err(ForwardError::Zero)
        } else {
            r == Ok::<Mapping, ForwardError>(Mapping { host: h, guest: g })
        },
    }
}

/// `8000` maps host 8000 to guest 8000; `3000:8000` maps host 3000 to guest
/// 8000, the same order docker uses.
pub fn parse(spec: &str) -> (r: Result<Mapping, ForwardError>)
    ensures
        parses_to(spec@, r),
{
    let (host, guest) = match split_once(spec, ':') {
        Some((h, g)) => (trim(h), trim(g)),
        None => (trim(spec), trim(spec)),
    };
    let h = match parse_u16(host) {
        None => return Err(ForwardError::NotAPort(host.to_owned())),
        Some(h) => h,
    };
    let g = match parse_u16(guest) {
        None => return Err(ForwardError::NotAPort(guest.to_owned())),
        Some(g) => g,
    };
    if h == 0 || g == 0 {
        return Err(ForwardError::Zero);
    }
    Ok(Mapping { host: h, guest: g })
}

/// The way a mapping is written.
pub open spec fn mapping_text(m: Mapping) -> Seq<char> {
    number::decimal(m.host as nat) + ":"@ + number::decimal(m.guest as nat)
}

/// A mapping of two real ports parses back from the way it is written.
pub proof fn written_mapping_parses_back(m: Mapping, r: Result<Mapping, ForwardError>)
    requires
        m.host != 0,
        m.guest != 0,
        parses_to(mapping_text(m), r),
    ensures
        r == Ok::<Mapping, ForwardError>(m),
{
    let h = number::decimal(m.host as nat);
    let g = number::decimal(m.guest as nat);
    let s = mapping_text(m);
    number::decimal_reads_back(m.host as nat);
    number::decimal_reads_back(m.guest as nat);
    reveal_strlit(":");
    assert(s =~= h + seq![':'] + g);
    assert forall|i: int| 0 <= i < h.len() implies h[i] != ':' by {
        assert(number::is_digit(h[i]));
    }
    text::split_at_separator(h, g, ':');
    text::solid_text_is_trimmed(h);
    text::solid_text_is_trimmed(g);
}

/// A lone port maps to itself.
pub proof fn lone_port_maps_to_itself(port: u16, r: Result<Mapping, ForwardError>)
    requires
        port != 0,
        parses_to(number::decimal(port as nat), r),
    ensures
        r == Ok::<Mapping, ForwardError>(Mapping { host: port, guest: port }),
{
    let s = number::decimal(port as nat);
    number::decimal_reads_back(port as nat);
    assert(!s.contains(':')) by {
        if s.contains(':') {
            let i = choose|i: int| 0 <= i < s.len() && s[i] == ':';
            assert(number::is_digit(s[i]));
        }
    }
    text::solid_text_is_trimmed(s);
}

/// White space around either field is forgiven.
pub proof fn white_space_is_forgiven(
    host: Seq<char>,
    guest: Seq<char>,
    a: Seq<char>,
    b: Seq<char>,
    c: Seq<char>,
    d: Seq<char>,
)
    requires
        !host.contains(':'),
        text::is_blank(a),
        text::is_blank(b),
        text::is_blank(c),
        text::is_blank(d),
    ensures
        port_fields((a + host + b) + seq![':'] + (c + guest + d)) == port_fields(
            host + seq![':'] + guest,
        ),
{
    text::split_at_separator(host, guest, ':');
    let left = a + host + b;
    assert forall|i: int| 0 <= i < left.len() implies left[i] != ':' by {
        if i < a.len() {
            assert(text::is_white_space(a[i]));
        } else if i < a.len() + host.len() {
            assert(left[i] == host[i - a.len()]);
            assert(host.contains(host[i - a.len()]));
        } else {
            assert(text::is_white_space(b[i - a.len() - host.len()]));
        }
    }
    text::split_at_separator(left, c + guest + d, ':');
    text::trimming_ignores_padding(a, host, b);
    text::trimming_ignores_padding(c, guest, d);
}

/// What is refused is no pair of ports: a field that is no number of sixteen
/// bits is named, the host's before the guest's, and a zero is refused in
/// either place. Everything else is the mapping of its two numbers.
pub proof fn fields_are_read_as_ports(
    host: Seq<char>,
    guest: Seq<char>,
    spec: &str,
    left: &str,
    right: &str,
    h: Option<u16>,
    g: Option<u16>,
    r: Result<Mapping, ForwardError>,
)
    requires
        !host.contains(':'),
        spec@ == host + seq![':'] + guest,
        left@ == text::trimmed(host),
        right@ == text::trimmed(guest),
        call_ensures(parse_u16, (left,), h),
        call_ensures(parse_u16, (right,), g),
        call_ensures(parse, (spec,), r),
    ensures
        h is None ==> (r matches Err(e) && (e matches ForwardError::NotAPort(s) && s@ == left@)),
        h is Some && g is None ==> (r matches Err(e) && (e matches ForwardError::NotAPort(s) && s@
            == right@)),
        h is Some && g is Some ==> {
            let zero = h->Some_0 == 0 || g->Some_0 == 0;
            &&& zero ==> (r matches Err(e) && e is Zero)
            &&& !zero ==> (r matches Ok(m) && m.host == h->Some_0 && m.guest == g->Some_0)
        },
{
    assert forall|i: int| 0 <= i < host.len() implies host[i] != ':' by {
        assert(host.contains(host[i]));
    }
    text::split_at_separator(host, guest, ':');
}

/// A lone field is read as both ports.
pub proof fn lone_fields_are_both_ports(
    spec: &str,
    field: &str,
    n: Option<u16>,
    r: Result<Mapping, ForwardError>,
)
    requires
        !spec@.contains(':'),
        field@ == text::trimmed(spec@),
        call_ensures(parse_u16, (field,), n),
        call_ensures(parse, (spec,), r),
    ensures
        n is None ==> (r matches Err(e) && (e matches ForwardError::NotAPort(s) && s@ == field@)),
        n == Some(0u16) ==> (r matches Err(e) && e is Zero),
        n matches Some(p) ==> p != 0 ==> (r matches Ok(m) && m.host == p && m.guest == p),
{
}

/// A refusal says which field is no port, or that a port is zero.
pub proof fn port_refusals_speak(s: String, not_a_port: String, zero: String)
    requires
        call_ensures(ForwardError::message, (&ForwardError::NotAPort(s),), not_a_port),
        call_ensures(ForwardError::message, (&ForwardError::Zero,), zero),
    ensures
        not_a_port@ == "not a port number: "@ + s@,
        zero@ == "port must not be zero"@,
{
}

} // verus!
