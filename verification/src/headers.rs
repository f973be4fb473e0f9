//! Which headers cross the relay.

use crate::number;
use crate::number::decimal_text;
use crate::text;
use crate::text::{eq_ignore_case, same};
use tokio_tungstenite::tungstenite::http::header::{HeaderName, HeaderValue};
use vstd::prelude::*;
use vstd::string::StringExecFns;

verus! {

broadcast use vstd::string::group_string_axioms;

/// Header names with their values.
pub type Headers = Vec<(String, String)>;

/// The texts of a list of headers.
pub open spec fn pairs(list: Seq<(String, String)>) -> Seq<(Seq<char>, Seq<char>)> {
    Seq::new(list.len(), |i: int| (list[i].0@, list[i].1@))
}

/// Headers that must not be forwarded on either hop.
pub open spec fn is_hop_header(name: Seq<char>) -> bool {
    ||| text::same_ignoring_case(name, "connection"@)
    ||| text::same_ignoring_case(name, "keep-alive"@)
    ||| text::same_ignoring_case(name, "proxy-connection"@)
    ||| text::same_ignoring_case(name, "transfer-encoding"@)
    ||| text::same_ignoring_case(name, "content-length"@)
}

/// The header that names the host.
pub open spec fn is_host_header(name: Seq<char>) -> bool {
    text::same_ignoring_case(name, "host"@)
}

/// Headers that a WebSocket handshake with the guest sets itself, plus the
/// ones that must not cross the relay. The subprotocol header is not one of
/// them, so the guest can negotiate.
pub open spec fn is_handshake_header(name: Seq<char>) -> bool {
    ||| is_hop_header(name)
    ||| is_host_header(name)
    ||| text::same_ignoring_case(name, "upgrade"@)
    ||| text::same_ignoring_case(name, "sec-websocket-key"@)
    ||| text::same_ignoring_case(name, "sec-websocket-version"@)
    ||| text::same_ignoring_case(name, "sec-websocket-accept"@)
    ||| text::same_ignoring_case(name, "sec-websocket-extensions"@)
}

/// Whether a header must not be forwarded on either hop.
pub fn is_hop_by_hop(name: &str) -> (r: bool)
    ensures
        r == is_hop_header(name@),
{
    eq_ignore_case(name, "connection") || eq_ignore_case(name, "keep-alive") || eq_ignore_case(
        name,
        "proxy-connection",
    ) || eq_ignore_case(name, "transfer-encoding") || eq_ignore_case(name, "content-length")
}

/// Whether a header is left out of the handshake with the guest.
pub fn skip_ws_header(name: &str) -> (r: bool)
    ensures
        r == is_handshake_header(name@),
{
    is_hop_by_hop(name) || eq_ignore_case(name, "host") || eq_ignore_case(name, "upgrade")
        || eq_ignore_case(name, "sec-websocket-key") || eq_ignore_case(
        name,
        "sec-websocket-version",
    ) || eq_ignore_case(name, "sec-websocket-accept") || eq_ignore_case(
        name,
        "sec-websocket-extensions",
    )
}

/// The host header that the guest sees.
pub open spec fn local_host(port: u16) -> Seq<char> {
    "localhost:"@ + number::decimal(port as nat)
}

/// The headers of a visitor's request that the guest gets: all but the ones
/// that stay on their hop, and a host header of the guest's own.
pub open spec fn forwarded(headers: Seq<(Seq<char>, Seq<char>)>, port: u16) -> Seq<
    (Seq<char>, Seq<char>),
> {
    headers.filter(|h: (Seq<char>, Seq<char>)| !is_hop_header(h.0) && !is_host_header(h.0)).push(
        ("host"@, local_host(port)),
    )
}

/// A character that the name of a header may hold.
pub open spec fn is_name_char(c: char) -> bool {
    ||| '0' <= c <= '9'
    ||| 'A' <= c <= 'Z'
    ||| 'a' <= c <= 'z'
    ||| ("!#$%&'*+-.^_`|~"@).contains(c)
}

/// A text that can name a header.
pub open spec fn is_header_name(s: Seq<char>) -> bool {
    &&& 1 <= s.len() <= 65535
    &&& forall|i: int| 0 <= i < s.len() ==> is_name_char(#[trigger] s[i])
}

/// A text that can be the value of a header: it holds no control character but
/// the tab.
pub open spec fn is_header_value(s: Seq<char>) -> bool {
    forall|i: int|
        0 <= i < s.len() ==> ((#[trigger] s[i]) as u32 >= 32 && s[i] as u32 != 127) || s[i] == '\t'
}

/// `HeaderName::from_bytes` accepts the bytes of one to 65535 letters, digits
/// and marks of a token.
#[verifier::external_body]
fn names_header(name: &str) -> (r: bool)
    ensures
        r == is_header_name(name@),
{
    HeaderName::from_bytes(name.as_bytes()).is_ok()
}

/// `HeaderValue::from_str` accepts a text without control characters, the tab
/// aside.
#[verifier::external_body]
fn fits_header(value: &str) -> (r: bool)
    ensures
        r == is_header_value(value@),
{
    HeaderValue::from_str(value).is_ok()
}

/// A header that a visitor's WebSocket request hands on to the guest.
pub open spec fn joins_handshake(h: (Seq<char>, Seq<char>)) -> bool {
    !is_handshake_header(h.0) && is_header_name(h.0) && is_header_value(h.1)
}

/// The headers of a visitor's WebSocket request that the guest gets.
pub open spec fn socket_forwarded(headers: Seq<(Seq<char>, Seq<char>)>) -> Seq<
    (Seq<char>, Seq<char>),
> {
    headers.filter(|h: (Seq<char>, Seq<char>)| joins_handshake(h))
}

/// Adding a header adds its texts.
proof fn lemma_pairs_push(list: Seq<(String, String)>, h: (String, String))
    ensures
        pairs(list.push(h)) == pairs(list).push((h.0@, h.1@)),
{
    assert(pairs(list.push(h)) =~= pairs(list).push((h.0@, h.1@)));
}

/// Filtering one header more.
proof fn lemma_filter_step(
    list: Seq<(Seq<char>, Seq<char>)>,
    keep: spec_fn((Seq<char>, Seq<char>)) -> bool,
    n: int,
)
    requires
        0 <= n < list.len(),
    ensures
        list.take(n + 1).filter(keep) == (if keep(list[n]) {
            list.take(n).filter(keep).push(list[n])
        } else {
            list.take(n).filter(keep)
        }),
{
    reveal(Seq::filter);
    assert(list.take(n + 1).drop_last() =~= list.take(n));
}

/// The headers that the guest gets with a visitor's request.
pub fn guest_headers(headers: &Headers, port: u16) -> (r: Headers)
    ensures
        pairs(r@) == forwarded(pairs(headers@), port),
{
    let ghost keep = |h: (Seq<char>, Seq<char>)| !is_hop_header(h.0) && !is_host_header(h.0);
    let ghost list = pairs(headers@);
    let mut out: Headers = Vec::new();
    let mut i: usize = 0;
    proof {
        reveal(Seq::filter);
        assert(pairs(out@) =~= list.take(0).filter(keep));
    }
    while i < headers.len()
        invariant
            i <= headers.len(),
            list == pairs(headers@),
            keep == (|h: (Seq<char>, Seq<char>)| !is_hop_header(h.0) && !is_host_header(h.0)),
            pairs(out@) == list.take(i as int).filter(keep),
        decreases headers.len() - i,
    {
        proof {
            lemma_filter_step(list, keep, i as int);
        }
        let name = headers[i].0.as_str();
        if !(is_hop_by_hop(name) || eq_ignore_case(name, "host")) {
            let h = (headers[i].0.clone(), headers[i].1.clone());
            proof {
                lemma_pairs_push(out@, h);
            }
            out.push(h);
        }
        i += 1;
    }
    assert(list.take(list.len() as int) =~= list);
    let mut host = "localhost:".to_owned();
    host.append(decimal_text(port as u64).as_str());
    let h = ("host".to_owned(), host);
    proof {
        lemma_pairs_push(out@, h);
    }
    out.push(h);
    out
}

/// The headers that the guest gets with a visitor's WebSocket request.
pub fn guest_socket_headers(headers: &Headers) -> (r: Headers)
    ensures
        pairs(r@) == socket_forwarded(pairs(headers@)),
{
    let ghost keep = |h: (Seq<char>, Seq<char>)| joins_handshake(h);
    let ghost list = pairs(headers@);
    let mut out: Headers = Vec::new();
    let mut i: usize = 0;
    proof {
        reveal(Seq::filter);
        assert(pairs(out@) =~= list.take(0).filter(keep));
    }
    while i < headers.len()
        invariant
            i <= headers.len(),
            list == pairs(headers@),
            keep == (|h: (Seq<char>, Seq<char>)| joins_handshake(h)),
            pairs(out@) == list.take(i as int).filter(keep),
        decreases headers.len() - i,
    {
        proof {
            lemma_filter_step(list, keep, i as int);
        }
        let name = headers[i].0.as_str();
        if !skip_ws_header(name) && names_header(name) && fits_header(headers[i].1.as_str()) {
            let h = (headers[i].0.clone(), headers[i].1.clone());
            proof {
                lemma_pairs_push(out@, h);
            }
            out.push(h);
        }
        i += 1;
    }
    assert(list.take(list.len() as int) =~= list);
    out
}

/// The headers of a response by their names: of two with the same name the
/// later one counts, and one without a readable value does not count.
pub open spec fn response_map(headers: Seq<(String, Option<String>)>) -> Map<Seq<char>, Seq<char>>
    decreases headers.len(),
{
    if headers.len() == 0 {
        Map::empty()
    } else {
        let earlier = response_map(headers.drop_last());
        let last = headers.last();
        match last.1 {
            Some(value) => if is_hop_header(last.0@) {
                earlier
            } else {
                earlier.insert(last.0@, value@)
            },
            None => earlier,
        }
    }
}

/// `list` holds the headers of `map`, each once.
pub open spec fn holds(list: Seq<(String, String)>, map: Map<Seq<char>, Seq<char>>) -> bool {
    &&& forall|i: int|
        0 <= i < list.len() ==> map.contains_pair((#[trigger] list[i]).0@, list[i].1@)
    &&& forall|name: Seq<char>| #[trigger]
        map.contains_key(name) ==> exists|i: int|
            0 <= i < list.len() && (#[trigger] list[i]).0@ == name
    &&& forall|i: int, j: int|
        0 <= i < j < list.len() ==> (#[trigger] list[i]).0@ != (#[trigger] list[j]).0@
}

/// Sets a header, in place of one with the same name.
fn put(list: &mut Headers, name: &str, value: &str, Ghost(map): Ghost<Map<Seq<char>, Seq<char>>>)
    requires
        holds(old(list)@, map),
    ensures
        holds(final(list)@, map.insert(name@, value@)),
{
    let ghost before = list@;
    let h = (name.to_owned(), value.to_owned());
    let mut i: usize = 0;
    while i < list.len()
        invariant
            i <= list.len(),
            list@ == before,
            holds(before, map),
            h.0@ == name@,
            h.1@ == value@,
            forall|j: int| 0 <= j < i ==> (#[trigger] before[j]).0@ != name@,
        decreases list.len() - i,
    {
        if same(list[i].0.as_str(), name) {
            list.set(i, h);
            proof {
                let after = list@;
                assert(after[i as int] == h);
                assert forall|n: Seq<char>| #[trigger]
                    map.insert(name@, value@).contains_key(n) implies exists|k: int|
                    0 <= k < after.len() && (#[trigger] after[k]).0@ == n by {
                    if n == name@ {
                        assert(after[i as int].0@ == n);
                    } else {
                        let k = choose|k: int| 0 <= k < before.len() && (#[trigger] before[k]).0@
                            == n;
                        assert(after[k].0@ == n);
                    }
                }
                assert forall|k: int| 0 <= k < after.len() implies map.insert(
                    name@,
                    value@,
                ).contains_pair((#[trigger] after[k]).0@, after[k].1@) by {
                    if k != i {
                        assert(after[k] == before[k]);
                        assert(before[k].0@ != before[i as int].0@);
                    }
                }
            }
            return;
        }
        i += 1;
    }
    list.push(h);
    proof {
        let after = list@;
        assert(after[before.len() as int] == h);
        assert forall|n: Seq<char>| #[trigger]
            map.insert(name@, value@).contains_key(n) implies exists|k: int|
            0 <= k < after.len() && (#[trigger] after[k]).0@ == n by {
            if n == name@ {
                assert(after[before.len() as int].0@ == n);
            } else {
                let k = choose|k: int| 0 <= k < before.len() && (#[trigger] before[k]).0@ == n;
                assert(after[k].0@ == n);
            }
        }
    }
}

/// The headers of the guest's response that the visitor gets, each once. A
/// header without a value stands for one that is not readable text.
pub fn response_headers(headers: &Vec<(String, Option<String>)>) -> (r: Headers)
    ensures
        holds(r@, response_map(headers@)),
{
    let mut out: Headers = Vec::new();
    let mut i: usize = 0;
    assert(headers@.take(0) =~= Seq::empty());
    while i < headers.len()
        invariant
            i <= headers.len(),
            holds(out@, response_map(headers@.take(i as int))),
        decreases headers.len() - i,
    {
        let ghost map = response_map(headers@.take(i as int));
        assert(headers@.take(i + 1).drop_last() =~= headers@.take(i as int));
        let name = headers[i].0.as_str();
        if !is_hop_by_hop(name) {
            match &headers[i].1 {
                Some(value) => put(&mut out, name, value.as_str(), Ghost(map)),
                None => {},
            }
        }
        i += 1;
    }
    assert(headers@.take(headers@.len() as int) =~= headers@);
    out
}

/// The lengths of the header names that are held back.
proof fn lemma_name_lengths()
    ensures
        "connection"@.len() == 10,
        "keep-alive"@.len() == 10,
        "proxy-connection"@.len() == 16,
        "transfer-encoding"@.len() == 17,
        "content-length"@.len() == 14,
        "host"@.len() == 4,
        "upgrade"@.len() == 7,
        "sec-websocket-key"@.len() == 17,
        "sec-websocket-version"@.len() == 21,
        "sec-websocket-accept"@.len() == 20,
        "sec-websocket-extensions"@.len() == 24,
        "sec-websocket-protocol"@.len() == 22,
{
    reveal_strlit("connection");
    reveal_strlit("keep-alive");
    reveal_strlit("proxy-connection");
    reveal_strlit("transfer-encoding");
    reveal_strlit("content-length");
    reveal_strlit("host");
    reveal_strlit("upgrade");
    reveal_strlit("sec-websocket-key");
    reveal_strlit("sec-websocket-version");
    reveal_strlit("sec-websocket-accept");
    reveal_strlit("sec-websocket-extensions");
    reveal_strlit("sec-websocket-protocol");
}

/// The guest negotiates the subprotocol itself: the header that asks for one is
/// never held back, however it is spelled.
pub proof fn subprotocols_cross(name: Seq<char>)
    requires
        text::same_ignoring_case(name, "sec-websocket-protocol"@),
    ensures
        !is_hop_header(name),
        !is_handshake_header(name),
{
    lemma_name_lengths();
}

/// Nothing that belongs to the visitor's hop reaches the guest, and the one
/// host header that does is the guest's own.
pub proof fn hops_stay_apart(headers: Seq<(Seq<char>, Seq<char>)>, port: u16, i: int)
    requires
        0 <= i < forwarded(headers, port).len(),
    ensures
        !is_hop_header(forwarded(headers, port)[i].0),
        is_host_header(forwarded(headers, port)[i].0) ==> forwarded(headers, port)[i].1
            == local_host(port),
        forwarded(headers, port).last() == ("host"@, local_host(port)),
{
    lemma_name_lengths();
    let keep = |h: (Seq<char>, Seq<char>)| !is_hop_header(h.0) && !is_host_header(h.0);
    if i < headers.filter(keep).len() {
        headers.lemma_filter_pred(keep, i);
    }
}

/// Nothing that belongs to the visitor's hop comes back from the guest either.
pub proof fn replies_stay_apart(headers: Seq<(String, Option<String>)>, name: Seq<char>)
    requires
        is_hop_header(name),
    ensures
        !response_map(headers).contains_key(name),
    decreases headers.len(),
{
    if headers.len() > 0 {
        replies_stay_apart(headers.drop_last(), name);
    }
}

/// A header with this name, however it is spelled, may cross the relay: it is
/// none of the five that belong to one hop.
pub open spec fn may_cross(name: Seq<char>) -> bool {
    let small = text::lowered(name);
    &&& small != "connection"@
    &&& small != "keep-alive"@
    &&& small != "proxy-connection"@
    &&& small != "transfer-encoding"@
    &&& small != "content-length"@
}

/// The names that are held back are written in small letters.
proof fn lemma_names_are_small()
    ensures
        text::lowered("connection"@) == "connection"@,
        text::lowered("keep-alive"@) == "keep-alive"@,
        text::lowered("proxy-connection"@) == "proxy-connection"@,
        text::lowered("transfer-encoding"@) == "transfer-encoding"@,
        text::lowered("content-length"@) == "content-length"@,
        text::lowered("host"@) == "host"@,
        text::lowered("upgrade"@) == "upgrade"@,
        text::lowered("sec-websocket-key"@) == "sec-websocket-key"@,
        text::lowered("sec-websocket-version"@) == "sec-websocket-version"@,
        text::lowered("sec-websocket-accept"@) == "sec-websocket-accept"@,
        text::lowered("sec-websocket-extensions"@) == "sec-websocket-extensions"@,
{
    lemma_name_lengths();
    reveal_strlit("connection");
    reveal_strlit("keep-alive");
    reveal_strlit("proxy-connection");
    reveal_strlit("transfer-encoding");
    reveal_strlit("content-length");
    reveal_strlit("host");
    reveal_strlit("upgrade");
    reveal_strlit("sec-websocket-key");
    reveal_strlit("sec-websocket-version");
    reveal_strlit("sec-websocket-accept");
    reveal_strlit("sec-websocket-extensions");
    assert(text::lowered("connection"@) =~= "connection"@);
    assert(text::lowered("keep-alive"@) =~= "keep-alive"@);
    assert(text::lowered("proxy-connection"@) =~= "proxy-connection"@);
    assert(text::lowered("transfer-encoding"@) =~= "transfer-encoding"@);
    assert(text::lowered("content-length"@) =~= "content-length"@);
    assert(text::lowered("host"@) =~= "host"@);
    assert(text::lowered("upgrade"@) =~= "upgrade"@);
    assert(text::lowered("sec-websocket-key"@) =~= "sec-websocket-key"@);
    assert(text::lowered("sec-websocket-version"@) =~= "sec-websocket-version"@);
    assert(text::lowered("sec-websocket-accept"@) =~= "sec-websocket-accept"@);
    assert(text::lowered("sec-websocket-extensions"@) =~= "sec-websocket-extensions"@);
}

/// Which names are held back, by their small letters.
proof fn lemma_held_back(name: Seq<char>)
    ensures
        is_hop_header(name) == !may_cross(name),
        is_host_header(name) == (text::lowered(name) == "host"@),
        is_handshake_header(name) == ({
            let small = text::lowered(name);
            ||| !may_cross(name)
            ||| small == "host"@
            ||| small == "upgrade"@
            ||| small == "sec-websocket-key"@
            ||| small == "sec-websocket-version"@
            ||| small == "sec-websocket-accept"@
            ||| small == "sec-websocket-extensions"@
        }),
{
    lemma_names_are_small();
    text::small_letters_decide(name, "connection"@);
    text::small_letters_decide(name, "keep-alive"@);
    text::small_letters_decide(name, "proxy-connection"@);
    text::small_letters_decide(name, "transfer-encoding"@);
    text::small_letters_decide(name, "content-length"@);
    text::small_letters_decide(name, "host"@);
    text::small_letters_decide(name, "upgrade"@);
    text::small_letters_decide(name, "sec-websocket-key"@);
    text::small_letters_decide(name, "sec-websocket-version"@);
    text::small_letters_decide(name, "sec-websocket-accept"@);
    text::small_letters_decide(name, "sec-websocket-extensions"@);
}

/// Five headers belong to one hop, and no other one does, whatever the case of
/// its letters.
pub proof fn five_headers_stay_on_their_hop(name: &str, r: bool)
    requires
        call_ensures(is_hop_by_hop, (name,), r),
    ensures
        ({
            let small = text::lowered(name@);
            r <==> small == "connection"@ || small == "keep-alive"@ || small == "proxy-connection"@
                || small == "transfer-encoding"@ || small == "content-length"@
        }),
{
    lemma_held_back(name@);
}

/// A handshake with the guest leaves out those five, the host, and what the
/// handshake sets itself, and no other header.
pub proof fn handshakes_leave_out_their_own(name: &str, r: bool)
    requires
        call_ensures(skip_ws_header, (name,), r),
    ensures
        ({
            let small = text::lowered(name@);
            r <==> !may_cross(name@) || small == "host"@ || small == "upgrade"@ || small
                == "sec-websocket-key"@ || small == "sec-websocket-version"@ || small
                == "sec-websocket-accept"@ || small == "sec-websocket-extensions"@
        }),
{
    lemma_held_back(name@);
}

/// `at` holds the header of a response that counts for its name: it may cross,
/// it is readable, and no later one of the name is.
pub open spec fn counts(headers: Seq<(String, Option<String>)>, at: int) -> bool {
    &&& 0 <= at < headers.len()
    &&& may_cross(headers[at].0@)
    &&& headers[at].1 is Some
    &&& forall|j: int|
        at < j < headers.len() && (#[trigger] headers[j]).0@ == headers[at].0@ ==> headers[j].1
            is None
}

/// A header of a response that counts is the one under its name.
proof fn lemma_counting_headers(headers: Seq<(String, Option<String>)>, at: int)
    requires
        counts(headers, at),
    ensures
        response_map(headers).contains_pair(headers[at].0@, headers[at].1->Some_0@),
    decreases headers.len(),
{
    let front = headers.drop_last();
    let last = headers.last();
    lemma_held_back(headers[at].0@);
    if at < headers.len() - 1 {
        assert forall|j: int|
            at < j < front.len() && (#[trigger] front[j]).0@ == front[at].0@ implies front[j].1
            is None by {
            assert(headers[j] == front[j]);
        }
        lemma_counting_headers(front, at);
        assert(headers[headers.len() - 1] == last);
    }
}

/// What stands under a name came from a header that counts.
proof fn lemma_counted_headers(headers: Seq<(String, Option<String>)>, name: Seq<char>)
    requires
        response_map(headers).contains_key(name),
    ensures
        exists|at: int| #[trigger] counts(headers, at) && headers[at].0@ == name,
    decreases headers.len(),
{
    let front = headers.drop_last();
    let last = headers.last();
    let n = headers.len() - 1;
    lemma_held_back(last.0@);
    if last.0@ == name && last.1 is Some && !is_hop_header(name) {
        assert(counts(headers, n));
    } else {
        lemma_counted_headers(front, name);
        let at = choose|at: int| #[trigger] counts(front, at) && front[at].0@ == name;
        lemma_held_back(name);
        assert(counts(headers, at)) by {
            assert forall|j: int|
                at < j < headers.len() && (#[trigger] headers[j]).0@
                    == headers[at].0@ implies headers[j].1 is None by {
                if j < n {
                    assert(front[j] == headers[j]);
                }
            }
        }
    }
}

/// Every readable header of a response that is none of the five crosses the
/// relay, under its name and with the last value that was given for it.
pub proof fn other_headers_reach_the_visitor(
    headers: &Vec<(String, Option<String>)>,
    at: int,
    r: Headers,
)
    requires
        call_ensures(response_headers, (headers,), r),
        0 <= at < headers@.len(),
        headers@[at].1 is Some,
        ({
            let small = text::lowered(headers@[at].0@);
            &&& small != "connection"@
            &&& small != "keep-alive"@
            &&& small != "proxy-connection"@
            &&& small != "transfer-encoding"@
            &&& small != "content-length"@
        }),
        forall|j: int|
            at < j < headers@.len() && (#[trigger] headers@[j]).0@ == headers@[at].0@
                ==> headers@[j].1 is None,
    ensures
        exists|k: int|
            0 <= k < r@.len() && (#[trigger] r@[k]).0@ == headers@[at].0@ && r@[k].1@
                == headers@[at].1->Some_0@,
{
    lemma_counting_headers(headers@, at);
    let map = response_map(headers@);
    assert(map.contains_key(headers@[at].0@));
    let k = choose|k: int| 0 <= k < r@.len() && (#[trigger] r@[k]).0@ == headers@[at].0@;
    assert(map.contains_pair(r@[k].0@, r@[k].1@));
}

/// The visitor gets nothing else: every header is one that the guest gave, with
/// the last readable value of its name, none of the five, and no name comes
/// twice.
pub proof fn visitors_get_nothing_made_up(
    headers: &Vec<(String, Option<String>)>,
    r: Headers,
    k: int,
)
    requires
        call_ensures(response_headers, (headers,), r),
        0 <= k < r@.len(),
    ensures
        may_cross(r@[k].0@),
        exists|at: int| #[trigger]
            counts(headers@, at) && headers@[at].0@ == r@[k].0@ && headers@[at].1->Some_0@
                == r@[k].1@,
        forall|j: int| 0 <= j < r@.len() && j != k ==> (#[trigger] r@[j]).0@ != r@[k].0@,
{
    let map = response_map(headers@);
    assert(map.contains_pair(r@[k].0@, r@[k].1@));
    lemma_counted_headers(headers@, r@[k].0@);
    let at = choose|at: int| #[trigger] counts(headers@, at) && headers@[at].0@ == r@[k].0@;
    lemma_counting_headers(headers@, at);
    assert(counts(headers@, at) && headers@[at].0@ == r@[k].0@ && headers@[at].1->Some_0@
        == r@[k].1@);
}

/// A visitor's headers reach the guest in their order, each as it is: one more
/// header is one more for the guest, before the host that ends the list, unless
/// it is one of the five or the host; then the guest gets what it got without
/// it.
pub proof fn other_headers_reach_the_guest(
    headers: &Headers,
    longer: &Headers,
    port: u16,
    r: Headers,
    r_longer: Headers,
)
    requires
        longer@.len() == headers@.len() + 1,
        longer@.drop_last() == headers@,
        call_ensures(guest_headers, (headers, port), r),
        call_ensures(guest_headers, (longer, port), r_longer),
    ensures
        ({
            let added = longer@.last();
            let small = text::lowered(added.0@);
            let crosses = small != "connection"@ && small != "keep-alive"@ && small
                != "proxy-connection"@ && small != "transfer-encoding"@ && small
                != "content-length"@ && small != "host"@;
            &&& crosses ==> pairs(r_longer@) == pairs(r@).drop_last().push(
                (added.0@, added.1@),
            ).push(pairs(r@).last())
            &&& !crosses ==> pairs(r_longer@) == pairs(r@)
        }),
{
    reveal(Seq::filter);
    let keep = |h: (Seq<char>, Seq<char>)| !is_hop_header(h.0) && !is_host_header(h.0);
    let added = (longer@.last().0@, longer@.last().1@);
    lemma_held_back(added.0);
    assert(pairs(longer@).drop_last() =~= pairs(headers@));
    assert(pairs(longer@).last() == added);
    assert(pairs(r@).drop_last() =~= pairs(headers@).filter(keep));
}

/// A request without headers reaches the guest with its host alone, and every
/// request ends in it: the port of the guest on this machine.
pub proof fn guests_are_told_their_own_host(headers: &Headers, port: u16, r: Headers)
    requires
        call_ensures(guest_headers, (headers, port), r),
    ensures
        r@.len() >= 1,
        r@.last().0@ == "host"@,
        r@.last().1@ == "localhost:"@ + number::decimal(port as nat),
        headers@.len() == 0 ==> r@.len() == 1,
{
    reveal(Seq::filter);
    assert(pairs(r@).len() == r@.len());
    assert(pairs(r@).last() == (r@.last().0@, r@.last().1@));
}

/// A visitor's WebSocket headers reach the guest in their order, each as it is:
/// one more header is one more for the guest, unless the handshake leaves it
/// out or it is no header at all.
pub proof fn other_headers_reach_the_guest_socket(
    headers: &Headers,
    longer: &Headers,
    r: Headers,
    r_longer: Headers,
)
    requires
        longer@.len() == headers@.len() + 1,
        longer@.drop_last() == headers@,
        call_ensures(guest_socket_headers, (headers,), r),
        call_ensures(guest_socket_headers, (longer,), r_longer),
    ensures
        headers@.len() == 0 ==> r@.len() == 0,
        ({
            let added = longer@.last();
            let small = text::lowered(added.0@);
            let left_out = !may_cross(added.0@) || small == "host"@ || small == "upgrade"@ || small
                == "sec-websocket-key"@ || small == "sec-websocket-version"@ || small
                == "sec-websocket-accept"@ || small == "sec-websocket-extensions"@;
            let crosses = !left_out && is_header_name(added.0@) && is_header_value(added.1@);
            &&& crosses ==> pairs(r_longer@) == pairs(r@).push((added.0@, added.1@))
            &&& !crosses ==> pairs(r_longer@) == pairs(r@)
        }),
{
    reveal(Seq::filter);
    let added = (longer@.last().0@, longer@.last().1@);
    lemma_held_back(added.0);
    assert(pairs(longer@).drop_last() =~= pairs(headers@));
    assert(pairs(longer@).last() == added);
    assert(pairs(r@).len() == r@.len());
}

} // verus!
