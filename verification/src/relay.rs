//! What the connector answers over the wire: responses of the guest, messages
//! of its sockets, the terminal page and its shells.

use crate::headers;
use crate::headers::Headers;
use crate::number;
use crate::number::{parse_u16, signed_text};
use crate::term;
use crate::term::PREFIX;
use crate::text;
use crate::text::{same, split_once, starts_with};
use crate::wire;
use crate::wire::{frame, ws_frame, ABORT, BINARY, RES_BODY, RES_END, RES_HEAD, TEXT, WS_CLOSE};
use include_dir::Dir;
use vstd::prelude::*;
use vstd::string::StringExecFns;
use vstd::utf8;

verus! {

broadcast use vstd::string::group_string_axioms;

/// The frames in a list of byte strings.
pub open spec fn frames(list: Seq<Vec<u8>>) -> Seq<Seq<u8>> {
    Seq::new(list.len(), |i: int| list[i]@)
}

/// Adding a frame.
proof fn lemma_frames_push(list: Seq<Vec<u8>>, f: Vec<u8>)
    ensures
        frames(list.push(f)) == frames(list).push(f@),
{
    assert(frames(list.push(f)) =~= frames(list).push(f@));
}

/// The status and the headers of a response.
pub struct ResMeta {
    pub status: u16,
    pub headers: Headers,
}

/// A response of the connector itself.
pub struct Reply {
    pub meta: ResMeta,
    pub body: Vec<u8>,
}

impl Reply {
    /// The status, the headers and the body.
    pub open spec fn parts(self) -> (u16, Seq<(Seq<char>, Seq<char>)>, Seq<u8>) {
        (self.meta.status, headers::pairs(self.meta.headers@), self.body@)
    }
}

/// Terminal-only tunnel: anything that is not the terminal goes to it.
pub open spec fn redirect_parts() -> (u16, Seq<(Seq<char>, Seq<char>)>, Seq<u8>) {
    (302, seq![("location"@, PREFIX@)], Seq::empty())
}

/// The response to a request for a file of the terminal page, with the file's
/// bytes, content type and caching where there is one.
pub open spec fn asset_parts(
    method: Seq<char>,
    found: Option<(Seq<u8>, Seq<char>, Seq<char>)>,
) -> (u16, Seq<(Seq<char>, Seq<char>)>, Seq<u8>) {
    if method != "GET"@ && method != "HEAD"@ {
        (405, seq![("allow"@, "GET, HEAD"@)], utf8::encode_utf8("method not allowed"@))
    } else {
        match found {
            Some((bytes, kind, cache)) => {
                let usual = seq![("content-type"@, kind), ("cache-control"@, cache)];
                (
                    200,
                    if ("text/html"@).is_prefix_of(kind) {
                        usual.push(("content-security-policy"@, "frame-ancestors 'none'"@))
                    } else {
                        usual
                    },
                    bytes,
                )
            },
            None => (404, Seq::empty(), utf8::encode_utf8("not found"@)),
        }
    }
}

/// What a file of the terminal page is served with.
pub open spec fn found_view(found: Option<(&'static [u8], &'static str, &'static str)>) -> Option<
    (Seq<u8>, Seq<char>, Seq<char>),
> {
    match found {
        Some((bytes, kind, cache)) => Some((bytes@, kind@, cache@)),
        None => None,
    }
}

/// A header with the given texts.
fn header(name: &str, value: &str) -> (r: (String, String))
    ensures
        r.0@ == name@,
        r.1@ == value@,
{
    (name.to_owned(), value.to_owned())
}

/// The bytes of a text.
pub fn bytes_of(s: &str) -> (r: Vec<u8>)
    ensures
        r@ == utf8::encode_utf8(s@),
{
    let mut out: Vec<u8> = Vec::new();
    out.extend_from_slice(s.as_bytes());
    assert(out@ =~= utf8::encode_utf8(s@));
    out
}

/// Sends a visitor of a terminal-only tunnel to the terminal.
pub fn redirect() -> (r: Reply)
    ensures
        r.parts() == redirect_parts(),
{
    let mut list: Headers = Vec::new();
    list.push(header("location", PREFIX));
    assert(headers::pairs(list@) =~= seq![("location"@, PREFIX@)]);
    let r = Reply { meta: ResMeta { status: 302, headers: list }, body: Vec::new() };
    assert(r.body@ =~= Seq::empty());
    r
}

/// The response to a request for a file of the terminal page, which was or was
/// not found.
pub fn asset_reply(
    method: &str,
    found: Option<(&'static [u8], &'static str, &'static str)>,
) -> (r: Reply)
    ensures
        r.parts() == asset_parts(method@, found_view(found)),
{
    let mut list: Headers = Vec::new();
    if !same(method, "GET") && !same(method, "HEAD") {
        list.push(header("allow", "GET, HEAD"));
        assert(headers::pairs(list@) =~= seq![("allow"@, "GET, HEAD"@)]);
        return Reply {
            meta: ResMeta { status: 405, headers: list },
            body: bytes_of("method not allowed"),
        };
    }
    match found {
        Some((bytes, kind, cache)) => {
            list.push(header("content-type", kind));
            list.push(header("cache-control", cache));
            let ghost usual = seq![("content-type"@, kind@), ("cache-control"@, cache@)];
            assert(headers::pairs(list@) =~= usual);
            if starts_with(kind, "text/html") {
                list.push(header("content-security-policy", "frame-ancestors 'none'"));
                assert(headers::pairs(list@) =~= usual.push(
                    ("content-security-policy"@, "frame-ancestors 'none'"@),
                ));
            }
            let mut body: Vec<u8> = Vec::new();
            body.extend_from_slice(bytes);
            assert(body@ =~= bytes@);
            Reply { meta: ResMeta { status: 200, headers: list }, body }
        },
        None => {
            assert(headers::pairs(list@) =~= Seq::empty());
            Reply { meta: ResMeta { status: 404, headers: list }, body: bytes_of("not found") }
        },
    }
}

/// Serves one embedded file of the terminal page.
pub fn serve_term_asset(assets: &Dir<'static>, method: &str, path: &str) -> (r: Reply)
    ensures
        r.parts() == asset_parts(
            method@,
            match term::file_for(path@) {
                Some(file) => if term::files_in(*assets).contains_key(file) {
                    Some(
                        (term::files_in(*assets)[file], term::kind_of(file), term::cache_of(file)),
                    )
                } else {
                    None
                },
                None => None,
            },
        ),
{
    asset_reply(method, term::asset(assets, path))
}

/// The frames of a response that the connector gives itself, with the status
/// and headers as the edge reads them in `head`.
pub open spec fn reply_sequence(id: u32, head: Seq<u8>, body: Seq<u8>, method: Seq<char>) -> Seq<
    Seq<u8>,
> {
    let start = seq![wire::frame_bytes(RES_HEAD, id, head)];
    let end = seq![wire::frame_bytes(RES_END, id, Seq::empty())];
    if method != "HEAD"@ && body.len() > 0 {
        start + seq![wire::frame_bytes(RES_BODY, id, body)] + end
    } else {
        start + end
    }
}

/// The frames of a response that the connector gives itself.
pub fn reply_frames(id: u32, head: &[u8], body: &[u8], method: &str) -> (r: Vec<Vec<u8>>)
    ensures
        frames(r@) == reply_sequence(id, head@, body@, method@),
{
    let mut out: Vec<Vec<u8>> = Vec::new();
    out.push(frame(RES_HEAD, id, head));
    if !same(method, "HEAD") && body.len() > 0 {
        out.push(frame(RES_BODY, id, body));
    }
    out.push(end_frame(RES_END, id));
    assert(frames(out@) =~= reply_sequence(id, head@, body@, method@));
    out
}

/// A frame without a payload.
fn end_frame(t: u8, id: u32) -> (r: Vec<u8>)
    ensures
        r@ == wire::frame_bytes(t, id, Seq::empty()),
{
    let nothing: Vec<u8> = Vec::new();
    assert(nothing@ =~= Seq::empty());
    frame(t, id, nothing.as_slice())
}

/// The next thing that the guest says of a response's body.
pub enum BodyEvent {
    /// A piece of the body.
    Chunk(Vec<u8>),
    /// Something that is not data.
    Other,
    /// The body is complete.
    End,
    /// The visitor gave the request up.
    Aborted,
}

/// Frames for the edge, and whether they are the last ones of their request or
/// socket.
pub struct Step {
    pub frames: Vec<Vec<u8>>,
    pub done: bool,
}

impl Step {
    /// The frames, and whether they are the last ones.
    pub open spec fn parts(self) -> (Seq<Seq<u8>>, bool) {
        (frames(self.frames@), self.done)
    }
}

/// No frames, and more to come.
fn nothing_yet() -> (r: Step)
    ensures
        r.parts() == (Seq::<Seq<u8>>::empty(), false),
{
    let r = Step { frames: Vec::new(), done: false };
    assert(frames(r.frames@) =~= Seq::empty());
    r
}

/// One frame.
fn one(f: Vec<u8>, done: bool) -> (r: Step)
    ensures
        r.parts() == (seq![f@], done),
{
    let mut list: Vec<Vec<u8>> = Vec::new();
    list.push(f);
    assert(frames(list@) =~= seq![f@]);
    Step { frames: list, done }
}

/// What a step of a response's body sends. Empty pieces are not worth a frame,
/// and a request that was given up gets no more of them.
pub open spec fn body_parts(id: u32, event: BodyEvent) -> (Seq<Seq<u8>>, bool) {
    match event {
        BodyEvent::Chunk(chunk) => (
            if chunk@.len() > 0 {
                seq![wire::frame_bytes(RES_BODY, id, chunk@)]
            } else {
                Seq::empty()
            },
            false,
        ),
        BodyEvent::Other => (Seq::empty(), false),
        BodyEvent::End => (seq![wire::frame_bytes(RES_END, id, Seq::empty())], true),
        BodyEvent::Aborted => (Seq::empty(), true),
    }
}

/// One step of a response's body.
pub fn body_step(id: u32, event: &BodyEvent) -> (r: Step)
    ensures
        r.parts() == body_parts(id, *event),
{
    match event {
        BodyEvent::Chunk(chunk) => if chunk.len() > 0 {
            one(frame(RES_BODY, id, chunk.as_slice()), false)
        } else {
            nothing_yet()
        },
        BodyEvent::Other => nothing_yet(),
        BodyEvent::End => one(end_frame(RES_END, id), true),
        BodyEvent::Aborted => {
            let mut r = nothing_yet();
            r.done = true;
            r
        },
    }
}

/// The frame that tells the edge of a request that failed.
pub fn failed(id: u32, message: &str) -> (r: Vec<u8>)
    ensures
        r@ == wire::frame_bytes(ABORT, id, utf8::encode_utf8(message@)),
{
    frame(ABORT, id, message.as_bytes())
}

/// The frame that starts the response of the guest.
pub fn response_head(id: u32, head: &[u8]) -> (r: Vec<u8>)
    ensures
        r@ == wire::frame_bytes(RES_HEAD, id, head@),
{
    frame(RES_HEAD, id, head)
}

/// The frame that closes a socket.
pub fn socket_closed(id: u32) -> (r: Vec<u8>)
    ensures
        r@ == wire::frame_bytes(WS_CLOSE, id, Seq::empty()),
{
    end_frame(WS_CLOSE, id)
}

/// The next thing that a socket of the guest says.
pub enum GuestEvent {
    Text(String),
    Binary(Vec<u8>),
    /// A message that carries no data.
    Other,
    /// The socket failed.
    Failed,
    /// The socket was closed.
    Closed,
}

/// What a step of the guest's socket sends.
pub open spec fn guest_parts(id: u32, event: GuestEvent) -> (Seq<Seq<u8>>, bool) {
    match event {
        GuestEvent::Text(s) => (
            seq![wire::ws_frame_bytes(id, TEXT, utf8::encode_utf8(s@))],
            false,
        ),
        GuestEvent::Binary(b) => (seq![wire::ws_frame_bytes(id, BINARY, b@)], false),
        GuestEvent::Other => (Seq::empty(), false),
        GuestEvent::Failed => (seq![wire::frame_bytes(WS_CLOSE, id, Seq::empty())], true),
        GuestEvent::Closed => (seq![wire::frame_bytes(WS_CLOSE, id, Seq::empty())], true),
    }
}

/// One step of a socket of the guest.
pub fn guest_step(id: u32, event: &GuestEvent) -> (r: Step)
    ensures
        r.parts() == guest_parts(id, *event),
{
    match event {
        GuestEvent::Text(s) => one(ws_frame(id, TEXT, s.as_str().as_bytes()), false),
        GuestEvent::Binary(b) => one(ws_frame(id, BINARY, b.as_slice()), false),
        GuestEvent::Other => nothing_yet(),
        GuestEvent::Failed => one(end_frame(WS_CLOSE, id), true),
        GuestEvent::Closed => one(end_frame(WS_CLOSE, id), true),
    }
}

/// The next thing that the shell of a web terminal says.
pub enum ShellEvent {
    Output(Vec<u8>),
    Exit(i32),
    /// The shell failed or is gone.
    Closed,
}

/// How the page is told that its shell ended.
pub open spec fn exit_text(code: i32) -> Seq<char> {
    "{\"type\":\"exit\",\"code\":"@ + number::signed_decimal(code as int) + "}"@
}

/// What a step of a shell sends. Binary messages carry the shell's output, text
/// messages carry control.
pub open spec fn shell_parts(id: u32, event: ShellEvent) -> (Seq<Seq<u8>>, bool) {
    let close = wire::frame_bytes(WS_CLOSE, id, Seq::empty());
    match event {
        ShellEvent::Output(bytes) => (seq![wire::ws_frame_bytes(id, BINARY, bytes@)], false),
        ShellEvent::Exit(code) => (
            seq![wire::ws_frame_bytes(id, TEXT, utf8::encode_utf8(exit_text(code))), close],
            true,
        ),
        ShellEvent::Closed => (seq![close], true),
    }
}

/// One step of a shell.
pub fn shell_step(id: u32, event: &ShellEvent) -> (r: Step)
    ensures
        r.parts() == shell_parts(id, *event),
{
    match event {
        ShellEvent::Output(bytes) => one(ws_frame(id, BINARY, bytes.as_slice()), false),
        ShellEvent::Exit(code) => {
            let mut said = "{\"type\":\"exit\",\"code\":".to_owned();
            said.append(signed_text(*code).as_str());
            said.append("}");
            let mut r = one(ws_frame(id, TEXT, said.as_str().as_bytes()), true);
            let close = end_frame(WS_CLOSE, id);
            proof {
                lemma_frames_push(r.frames@, close);
            }
            r.frames.push(close);
            assert(frames(r.frames@) =~= shell_parts(id, *event).0);
            r
        },
        ShellEvent::Closed => one(end_frame(WS_CLOSE, id), true),
    }
}

/// The size that a control message of the page asks for.
pub open spec fn resized(kind: Seq<char>, rows: u16, cols: u16) -> Option<(u16, u16)> {
    if kind == "resize"@ && rows > 0 && cols > 0 {
        Some((rows, cols))
    } else {
        None
    }
}

/// A control message of the page.
pub struct TermControl {
    pub kind: String,
    pub rows: u16,
    pub cols: u16,
}

impl TermControl {
    /// The size that the page asks for.
    pub fn resize(&self) -> (r: Option<(u16, u16)>)
        ensures
            r == resized(self.kind@, self.rows, self.cols),
    {
        if same(self.kind.as_str(), "resize") && self.rows > 0 && self.cols > 0 {
            Some((self.rows, self.cols))
        } else {
            None
        }
    }
}

/// The number that one `key=value` of a query gives to `key`.
pub open spec fn setting(field: Seq<char>, key: Seq<char>) -> Option<u16> {
    match text::split_first(field, '=') {
        Some((k, v)) => if k == key {
            number::u16_value(v)
        } else {
            None
        },
        None => None,
    }
}

/// The number that a query gives to `key`: the last one counts, and what is no
/// number does not.
pub open spec fn query_value(query: Seq<char>, key: Seq<char>) -> Option<u16>
    decreases query.len(),
    via query_shrinks
{
    match text::split_first(query, '&') {
        Some((field, rest)) => match query_value(rest, key) {
            Some(n) => Some(n),
            None => setting(field, key),
        },
        None => setting(query, key),
    }
}

/// What follows a separator is shorter.
#[via_fn]
proof fn query_shrinks(query: Seq<char>, key: Seq<char>) {
    if query.contains('&') {
        text::first_exists(query, '&');
    }
}

/// The number that one `key=value` of a query gives to `key`.
fn field_value(field: &str, key: &str) -> (r: Option<u16>)
    ensures
        r == setting(field@, key@),
{
    match split_once(field, '=') {
        Some((k, v)) => if same(k, key) {
            parse_u16(v)
        } else {
            None
        },
        None => None,
    }
}

/// The number that a query gives to `key`.
fn query_number(query: &str, key: &str) -> (r: Option<u16>)
    ensures
        r == query_value(query@, key@),
{
    let mut rest = query;
    let mut found: Option<u16> = None;
    loop
        invariant
            query_value(query@, key@) == (match query_value(rest@, key@) {
                Some(n) => Some(n),
                None => found,
            }),
        decreases rest@.len(),
    {
        match split_once(rest, '&') {
            Some((field, more)) => {
                proof {
                    text::first_exists(rest@, '&');
                }
                match field_value(field, key) {
                    Some(n) => {
                        found = Some(n);
                    },
                    None => {},
                }
                rest = more;
            },
            None => {
                return match field_value(rest, key) {
                    Some(n) => Some(n),
                    None => found,
                };
            },
        }
    }
}

/// The rows and columns that a terminal's URL asks for: 24 and 80 where it does
/// not say.
pub open spec fn term_size_of(url: Seq<char>) -> (u16, u16) {
    let query = match text::split_first(url, '?') {
        Some((_, query)) => query,
        None => Seq::empty(),
    };
    (
        match query_value(query, "rows"@) {
            Some(n) => n,
            None => 24,
        },
        match query_value(query, "cols"@) {
            Some(n) => n,
            None => 80,
        },
    )
}

/// The rows and columns that a terminal's URL asks for.
pub fn term_size(url: &str) -> (r: (u16, u16))
    ensures
        r == term_size_of(url@),
{
    let query = match split_once(url, '?') {
        Some((_, query)) => query,
        None => "",
    };
    proof {
        reveal_strlit("");
        assert(text::split_first(url@, '?') is None ==> query@ =~= Seq::<char>::empty());
    }
    let rows: u16 = match query_number(query, "rows") {
        Some(n) => n,
        None => 24,
    };
    let cols: u16 = match query_number(query, "cols") {
        Some(n) => n,
        None => 80,
    };
    (rows, cols)
}

/// The frames that a response's body is sent in, up to and with its end.
pub open spec fn body_sequence(id: u32, chunks: Seq<Vec<u8>>) -> Seq<Seq<u8>>
    decreases chunks.len(),
{
    if chunks.len() == 0 {
        body_parts(id, BodyEvent::End).0
    } else {
        body_parts(id, BodyEvent::Chunk(chunks[0])).0 + body_sequence(id, chunks.skip(1))
    }
}

/// All the bytes in a list of pieces.
pub open spec fn joined(chunks: Seq<Vec<u8>>) -> Seq<u8>
    decreases chunks.len(),
{
    if chunks.len() == 0 {
        Seq::empty()
    } else {
        chunks[0]@ + joined(chunks.skip(1))
    }
}

/// All the bytes that frames of a response's body carry.
pub open spec fn carried(list: Seq<Seq<u8>>) -> Seq<u8>
    decreases list.len(),
{
    if list.len() == 0 {
        Seq::empty()
    } else {
        let rest = carried(list.skip(1));
        match wire::unframed(list[0]) {
            Some((t, _, payload)) => if t == RES_BODY {
                payload + rest
            } else {
                rest
            },
            None => rest,
        }
    }
}

/// A response's body reaches the edge whole and in order, however the guest cut
/// it, and the last frame is the one that ends it.
pub proof fn bodies_arrive_whole(id: u32, chunks: Seq<Vec<u8>>)
    ensures
        carried(body_sequence(id, chunks)) == joined(chunks),
        body_sequence(id, chunks).len() > 0,
        body_sequence(id, chunks).last() == wire::frame_bytes(RES_END, id, Seq::empty()),
    decreases chunks.len(),
{
    let list = body_sequence(id, chunks);
    if chunks.len() == 0 {
        wire::frames_read_back(RES_END, id, Seq::empty());
        assert(list.skip(1) =~= Seq::empty());
        assert(carried(list.skip(1)) =~= Seq::empty());
    } else {
        let rest = body_sequence(id, chunks.skip(1));
        bodies_arrive_whole(id, chunks.skip(1));
        if chunks[0]@.len() > 0 {
            wire::frames_read_back(RES_BODY, id, chunks[0]@);
            assert(list.skip(1) =~= rest);
            assert(list.last() == rest.last());
        } else {
            assert(list =~= rest);
            assert(joined(chunks) =~= joined(chunks.skip(1)));
        }
    }
}

/// A visitor of a terminal-only tunnel is sent to the terminal, by one header
/// and without a body.
pub proof fn redirects_lead_to_the_terminal(r: Reply)
    requires
        call_ensures(redirect, (), r),
    ensures
        r.meta.status == 302,
        r.meta.headers@.len() == 1,
        r.meta.headers@[0].0@ == "location"@,
        r.meta.headers@[0].1@ == "/__neko/term"@,
        r.body@.len() == 0,
{
    assert(headers::pairs(r.meta.headers@).len() == 1);
    assert(headers::pairs(r.meta.headers@)[0] == ("location"@, "/__neko/term"@));
}

/// A reply has a header with these texts.
pub open spec fn says(r: Reply, name: Seq<char>, value: Seq<char>) -> bool {
    exists|i: int|
        0 <= i < r.meta.headers@.len() && (#[trigger] r.meta.headers@[i]).0@ == name
            && r.meta.headers@[i].1@ == value
}

/// A file that is there is served whole, to those who ask by `GET` or `HEAD`,
/// with its content type and caching; a page, and nothing but a page, may not
/// be framed.
pub proof fn files_are_served_whole(
    method: &str,
    bytes: &'static [u8],
    kind: &'static str,
    cache: &'static str,
    r: Reply,
)
    requires
        method@ == "GET"@ || method@ == "HEAD"@,
        call_ensures(asset_reply, (method, Some((bytes, kind, cache))), r),
    ensures
        r.meta.status == 200,
        r.body@ == bytes@,
        says(r, "content-type"@, kind@),
        says(r, "cache-control"@, cache@),
        says(r, "content-security-policy"@, "frame-ancestors 'none'"@) <==> (
        "text/html"@).is_prefix_of(kind@),
        r.meta.headers@.len() == (if ("text/html"@).is_prefix_of(kind@) {
            3nat
        } else {
            2nat
        }),
{
    reveal_strlit("content-type");
    reveal_strlit("cache-control");
    reveal_strlit("content-security-policy");
    let list = headers::pairs(r.meta.headers@);
    assert(list.len() == r.meta.headers@.len());
    assert(list[0] == ("content-type"@, kind@));
    assert(list[1] == ("cache-control"@, cache@));
    assert(r.meta.headers@[0].0@ == "content-type"@);
    assert(r.meta.headers@[1].0@ == "cache-control"@);
    assert("content-type"@.len() == 12);
    assert("cache-control"@.len() == 13);
    assert("content-security-policy"@.len() == 23);
    if ("text/html"@).is_prefix_of(kind@) {
        assert(list[2] == ("content-security-policy"@, "frame-ancestors 'none'"@));
        assert(r.meta.headers@[2].0@ == "content-security-policy"@);
    }
}

/// Whatever is not asked for by `GET` or `HEAD` is refused, whether the file is
/// there or not, with the methods that are allowed.
pub proof fn other_methods_are_refused(
    method: &str,
    found: Option<(&'static [u8], &'static str, &'static str)>,
    r: Reply,
)
    requires
        method@ != "GET"@,
        method@ != "HEAD"@,
        call_ensures(asset_reply, (method, found), r),
    ensures
        r.meta.status == 405,
        r.meta.headers@.len() == 1,
        says(r, "allow"@, "GET, HEAD"@),
        r.body@ == utf8::encode_utf8("method not allowed"@),
{
    assert(headers::pairs(r.meta.headers@).len() == 1);
    assert(headers::pairs(r.meta.headers@)[0] == ("allow"@, "GET, HEAD"@));
    assert(r.meta.headers@[0].0@ == "allow"@);
}

/// A file that is not there is answered as such, without a header.
pub proof fn missing_files_are_not_found(method: &str, r: Reply)
    requires
        method@ == "GET"@ || method@ == "HEAD"@,
        call_ensures(asset_reply, (method, None), r),
    ensures
        r.meta.status == 404,
        r.meta.headers@.len() == 0,
        r.body@ == utf8::encode_utf8("not found"@),
{
    assert(headers::pairs(r.meta.headers@).len() == 0);
}

/// A path under the prefix is served with the file of that name, and the prefix
/// itself with the page: whoever asks gets the bytes of the file.
pub proof fn pages_are_served_by_their_path(
    assets: &Dir<'static>,
    method: &str,
    path: &str,
    file: &str,
    name: Seq<char>,
    kind: &'static str,
    cache: &'static str,
    r: Reply,
)
    requires
        method@ == "GET"@ || method@ == "HEAD"@,
        file@ == name,
        call_ensures(term::content_type, (file,), kind),
        call_ensures(term::cache_control, (file,), cache),
        name.len() > 0,
        name[0] != '/',
        path@ == "/__neko/term/"@ + name || (path@ == "/__neko/term"@ || path@ == "/__neko/term/"@)
            && name == "index.html"@,
        call_ensures(serve_term_asset, (assets, method, path), r),
    ensures
        r.meta.status == (if term::files_in(*assets).contains_key(name) {
            200u16
        } else {
            404
        }),
        term::files_in(*assets).contains_key(name) ==> {
            &&& r.body@ == term::files_in(*assets)[name]
            &&& says(r, "content-type"@, kind@)
            &&& says(r, "cache-control"@, cache@)
        },
{
    term::lemma_file_under_prefix(path@, name);
    if term::files_in(*assets).contains_key(name) {
        let list = headers::pairs(r.meta.headers@);
        assert(list.len() == r.meta.headers@.len());
        assert(list[0] == ("content-type"@, kind@));
        assert(list[1] == ("cache-control"@, cache@));
        assert(r.meta.headers@[0].0@ == "content-type"@);
        assert(r.meta.headers@[1].0@ == "cache-control"@);
    }
}

/// An answer of the connector is a frame of the type 4 with the head, one of
/// the type 5 with the whole body unless there is none or only the head was
/// asked for, and one of the type 6 that ends it, all under the id of the
/// request.
pub proof fn answers_are_framed(id: u32, head: &[u8], body: &[u8], method: &str, r: Vec<Vec<u8>>)
    requires
        call_ensures(reply_frames, (id, head, body, method), r),
    ensures
        ({
            let sends_body = body@.len() > 0 && method@ != "HEAD"@;
            &&& r@.len() == (if sends_body {
                3nat
            } else {
                2nat
            })
            &&& wire::unframed(r@[0]@) == Some((4u8, id, head@))
            &&& sends_body ==> wire::unframed(r@[1]@) == Some((5u8, id, body@))
            &&& wire::unframed(r@.last()@) == Some((6u8, id, Seq::<u8>::empty()))
        }),
{
    wire::frames_read_back(RES_HEAD, id, head@);
    wire::frames_read_back(RES_BODY, id, body@);
    wire::frames_read_back(RES_END, id, Seq::empty());
    let list = frames(r@);
    assert(list.len() == r@.len());
    assert(list[0] == r@[0]@);
    assert(list[1] == r@[1]@);
    assert(list[list.len() - 1] == r@.last()@);
}

/// A piece of a body that holds anything is sent on as it is, under the id of
/// its request, and the response goes on.
pub proof fn pieces_are_sent_on(id: u32, chunk: Vec<u8>, r: Step)
    requires
        call_ensures(body_step, (id, &BodyEvent::Chunk(chunk)), r),
    ensures
        !r.done,
        chunk@.len() == 0 ==> r.frames@.len() == 0,
        chunk@.len() > 0 ==> r.frames@.len() == 1 && wire::unframed(r.frames@[0]@) == Some(
            (5u8, id, chunk@),
        ),
{
    wire::frames_read_back(RES_BODY, id, chunk@);
    assert(frames(r.frames@).len() == r.frames@.len());
    if chunk@.len() > 0 {
        assert(frames(r.frames@)[0] == r.frames@[0]@);
    }
}

/// The end of a body is told to the edge and ends the response; a request that
/// was given up ends without a word; what is no data changes nothing.
pub proof fn bodies_end_once(id: u32, end: Step, aborted: Step, other: Step)
    requires
        call_ensures(body_step, (id, &BodyEvent::End), end),
        call_ensures(body_step, (id, &BodyEvent::Aborted), aborted),
        call_ensures(body_step, (id, &BodyEvent::Other), other),
    ensures
        end.done && end.frames@.len() == 1,
        wire::unframed(end.frames@[0]@) == Some((6u8, id, Seq::<u8>::empty())),
        aborted.done && aborted.frames@.len() == 0,
        !other.done && other.frames@.len() == 0,
{
    wire::frames_read_back(RES_END, id, Seq::empty());
    assert(frames(end.frames@).len() == end.frames@.len());
    assert(frames(end.frames@)[0] == end.frames@[0]@);
    assert(frames(aborted.frames@).len() == aborted.frames@.len());
    assert(frames(other.frames@).len() == other.frames@.len());
}

/// A failure is told under the id of its request, in a frame of the type 7 that
/// says why; a response starts in a frame of the type 4 with its head; a socket
/// ends in an empty frame of the type 10.
pub proof fn notices_are_framed(
    id: u32,
    message: &str,
    head: &[u8],
    failure: Vec<u8>,
    start: Vec<u8>,
    close: Vec<u8>,
)
    requires
        call_ensures(failed, (id, message), failure),
        call_ensures(response_head, (id, head), start),
        call_ensures(socket_closed, (id,), close),
    ensures
        wire::unframed(failure@) == Some((7u8, id, utf8::encode_utf8(message@))),
        wire::unframed(start@) == Some((4u8, id, head@)),
        wire::unframed(close@) == Some((10u8, id, Seq::<u8>::empty())),
{
    wire::frames_read_back(ABORT, id, utf8::encode_utf8(message@));
    wire::frames_read_back(RES_HEAD, id, head@);
    wire::frames_read_back(WS_CLOSE, id, Seq::empty());
}

/// A step sends one frame.
spec fn sends(r: Step, t: u8, id: u32, payload: Seq<u8>) -> bool {
    r.frames@.len() == 1 && wire::unframed(r.frames@[0]@) == Some((t, id, payload))
}

/// What one frame of a step says.
proof fn lemma_sends(r: Step, t: u8, id: u32, payload: Seq<u8>)
    requires
        r.parts().0 == seq![wire::frame_bytes(t, id, payload)],
    ensures
        sends(r, t, id, payload),
{
    wire::frames_read_back(t, id, payload);
    assert(frames(r.frames@).len() == r.frames@.len());
    assert(frames(r.frames@)[0] == r.frames@[0]@);
}

/// A message of the guest's socket reaches the visitor as it is, a text with
/// the kind 1 and bytes with the kind 0, and the socket stays open.
pub proof fn guest_messages_are_sent_on(id: u32, s: String, b: Vec<u8>, text: Step, binary: Step)
    requires
        call_ensures(guest_step, (id, &GuestEvent::Text(s)), text),
        call_ensures(guest_step, (id, &GuestEvent::Binary(b)), binary),
    ensures
        !text.done && text.frames@.len() == 1,
        wire::unframed(text.frames@[0]@) == Some((9u8, id, seq![1u8] + utf8::encode_utf8(s@))),
        !binary.done && binary.frames@.len() == 1,
        wire::unframed(binary.frames@[0]@) == Some((9u8, id, seq![0u8] + b@)),
{
    lemma_sends(text, 9, id, seq![1u8] + utf8::encode_utf8(s@));
    lemma_sends(binary, 9, id, seq![0u8] + b@);
}

/// A socket of the guest that fails or is closed is closed for the visitor too,
/// by one empty frame of the type 10; what carries no data changes nothing.
pub proof fn guest_sockets_close_once(id: u32, failed: Step, closed: Step, other: Step)
    requires
        call_ensures(guest_step, (id, &GuestEvent::Failed), failed),
        call_ensures(guest_step, (id, &GuestEvent::Closed), closed),
        call_ensures(guest_step, (id, &GuestEvent::Other), other),
    ensures
        failed.done && failed.frames@.len() == 1,
        wire::unframed(failed.frames@[0]@) == Some((10u8, id, Seq::<u8>::empty())),
        closed.done && closed.frames@.len() == 1,
        wire::unframed(closed.frames@[0]@) == Some((10u8, id, Seq::<u8>::empty())),
        !other.done && other.frames@.len() == 0,
{
    lemma_sends(failed, 10, id, Seq::empty());
    lemma_sends(closed, 10, id, Seq::empty());
    assert(frames(other.frames@).len() == other.frames@.len());
}

/// The page is always told how its shell ended, and then its socket is closed:
/// for every exit code there are two frames under the socket's id, a text
/// `{"type":"exit","code":N}` in which N reads back as the code, and a close.
pub proof fn exits_are_told_before_the_close(id: u32, code: i32, r: Step)
    requires
        call_ensures(shell_step, (id, &ShellEvent::Exit(code)), r),
    ensures
        r.done,
        r.frames@.len() == 2,
        exists|digits: Seq<char>|
            {
                &&& wire::unframed(r.frames@[0]@) == Some(
                    (
                        9u8,
                        id,
                        seq![1u8] + #[trigger] utf8::encode_utf8(
                            "{\"type\":\"exit\",\"code\":"@ + digits + "}"@,
                        ),
                    ),
                )
                &&& code >= 0 ==> number::unsigned_value(digits) == Some(code as nat)
                &&& code < 0 ==> digits.len() > 0 && digits[0] == '-' && number::unsigned_value(
                    digits.drop_first(),
                ) == Some((-code) as nat)
            },
        wire::unframed(r.frames@[1]@) == Some((10u8, id, Seq::<u8>::empty())),
{
    let digits = number::signed_decimal(code as int);
    let said = "{\"type\":\"exit\",\"code\":"@ + digits + "}"@;
    number::signed_numbers_read_back(code as int);
    wire::frames_read_back(9, id, seq![1u8] + utf8::encode_utf8(said));
    wire::frames_read_back(10, id, Seq::empty());
    assert(frames(r.frames@).len() == r.frames@.len());
    assert(frames(r.frames@)[0] == r.frames@[0]@);
    assert(frames(r.frames@)[1] == r.frames@[1]@);
}

/// The output of a shell reaches the page as it is, as bytes, and the shell
/// goes on; a shell that is gone closes the socket without another word.
pub proof fn shells_are_heard_until_they_close(id: u32, bytes: Vec<u8>, output: Step, closed: Step)
    requires
        call_ensures(shell_step, (id, &ShellEvent::Output(bytes)), output),
        call_ensures(shell_step, (id, &ShellEvent::Closed), closed),
    ensures
        !output.done && output.frames@.len() == 1,
        wire::unframed(output.frames@[0]@) == Some((9u8, id, seq![0u8] + bytes@)),
        closed.done && closed.frames@.len() == 1,
        wire::unframed(closed.frames@[0]@) == Some((10u8, id, Seq::<u8>::empty())),
{
    lemma_sends(output, 9, id, seq![0u8] + bytes@);
    lemma_sends(closed, 10, id, Seq::empty());
}

/// The page resizes its shell to any size of at least one row and one column,
/// and to just that size; nothing else that it says does.
pub proof fn sizes_are_taken_as_asked(control: &TermControl, r: Option<(u16, u16)>)
    requires
        call_ensures(TermControl::resize, (control,), r),
    ensures
        r is Some <==> control.kind@ == "resize"@ && control.rows >= 1 && control.cols >= 1,
        r matches Some((rows, cols)) ==> rows == control.rows && cols == control.cols,
{
}

/// What a text splits into when more is put behind it.
proof fn lemma_split_of_longer(s: Seq<char>, more: Seq<char>, c: char)
    requires
        s.contains(c),
    ensures
        text::split_first(s, c) is Some,
        text::split_first(s + more, c) == Some(
            (text::split_first(s, c)->Some_0.0, text::split_first(s, c)->Some_0.1 + more),
        ),
        text::split_first(s, c)->Some_0.1.len() < s.len(),
{
    text::first_exists(s, c);
    let i = choose|i: int| text::first_at(s, c, i);
    let a = s.take(i);
    let b = s.skip(i + 1);
    assert(s =~= a + seq![c] + b);
    assert(s + more =~= a + seq![c] + (b + more));
    assert forall|j: int| 0 <= j < a.len() implies a[j] != c by {
        assert(s[j] != c);
    }
    text::split_at_separator(a, b, c);
    text::split_at_separator(a, b + more, c);
}

/// A field that is put behind a query counts, where it says something.
proof fn lemma_query_grows(query: Seq<char>, field: Seq<char>, key: Seq<char>)
    requires
        !field.contains('&'),
    ensures
        query_value(query + seq!['&'] + field, key) == (match setting(field, key) {
            Some(n) => Some(n),
            None => query_value(query, key),
        }),
    decreases query.len(),
{
    let longer = query + seq!['&'] + field;
    if query.contains('&') {
        lemma_split_of_longer(query, seq!['&'] + field, '&');
        let rest = text::split_first(query, '&')->Some_0.1;
        assert(longer =~= query + (seq!['&'] + field));
        assert(rest + (seq!['&'] + field) =~= rest + seq!['&'] + field);
        lemma_query_grows(rest, field, key);
    } else {
        assert forall|j: int| 0 <= j < query.len() implies query[j] != '&' by {
            assert(query.contains(query[j]));
        }
        text::split_at_separator(query, field, '&');
        assert(query_value(query, key) == setting(query, key));
        assert(query_value(field, key) == setting(field, key));
        assert(query_value(longer, key) == (match query_value(field, key) {
            Some(n) => Some(n),
            None => setting(query, key),
        }));
    }
}

/// A terminal whose URL says nothing of its size has 24 rows and 80 columns.
pub proof fn terminals_have_a_usual_size(url: &str, r: (u16, u16))
    requires
        !url@.contains('?'),
        call_ensures(term_size, (url,), r),
    ensures
        r == (24u16, 80u16),
{
    assert(!Seq::<char>::empty().contains('&'));
    assert(!Seq::<char>::empty().contains('='));
}

/// What one field of a query says.
proof fn lemma_field_says(field: Seq<char>, key: Seq<char>, value: Seq<char>, asked: Seq<char>)
    requires
        !key.contains('='),
        field == key + seq!['='] + value,
    ensures
        setting(field, asked) == (if key == asked {
            number::u16_value(value)
        } else {
            None
        }),
{
    assert forall|j: int| 0 <= j < key.len() implies key[j] != '=' by {
        assert(key.contains(key[j]));
    }
    text::split_at_separator(key, value, '=');
}

/// A first field `rows=N` or `cols=N` sets the one number and leaves the other
/// at its usual value; a field with any other key, or whose value is no number,
/// sets nothing.
pub proof fn the_first_field_counts(
    url: &str,
    path: Seq<char>,
    key: Seq<char>,
    value: &str,
    n: Option<u16>,
    r: (u16, u16),
)
    requires
        !path.contains('?'),
        !key.contains('='),
        !key.contains('&'),
        !value@.contains('&'),
        url@ == path + seq!['?'] + (key + seq!['='] + value@),
        call_ensures(number::parse_u16, (value,), n),
        call_ensures(term_size, (url,), r),
    ensures
        r.0 == (if key == "rows"@ && n is Some {
            n->Some_0
        } else {
            24
        }),
        r.1 == (if key == "cols"@ && n is Some {
            n->Some_0
        } else {
            80
        }),
{
    reveal_strlit("rows");
    reveal_strlit("cols");
    assert("rows"@[0] != "cols"@[0]);
    let field = key + seq!['='] + value@;
    assert forall|j: int| 0 <= j < path.len() implies path[j] != '?' by {
        assert(path.contains(path[j]));
    }
    text::split_at_separator(path, field, '?');
    lemma_no_ampersand(key, value@);
    lemma_field_says(field, key, value@, "rows"@);
    lemma_field_says(field, key, value@, "cols"@);
}

/// A field whose parts hold no ampersand holds none.
proof fn lemma_no_ampersand(key: Seq<char>, value: Seq<char>)
    requires
        !key.contains('&'),
        !value.contains('&'),
    ensures
        !(key + seq!['='] + value).contains('&'),
{
    let field = key + seq!['='] + value;
    if field.contains('&') {
        let i = choose|i: int| 0 <= i < field.len() && field[i] == '&';
        if i < key.len() {
            assert(key[i] == '&');
        } else if i > key.len() {
            assert(value[i - key.len() - 1] == '&');
        }
    }
}

/// A further field `rows=N` or `cols=N` replaces the one number, whatever was
/// said before, and leaves the other; a field with any other key, or whose
/// value is no number, changes neither.
pub proof fn later_fields_count_more(
    url: &str,
    longer: &str,
    key: Seq<char>,
    value: &str,
    n: Option<u16>,
    r: (u16, u16),
    r_longer: (u16, u16),
)
    requires
        url@.contains('?'),
        !key.contains('='),
        !key.contains('&'),
        !value@.contains('&'),
        longer@ == url@ + (seq!['&'] + (key + seq!['='] + value@)),
        call_ensures(number::parse_u16, (value,), n),
        call_ensures(term_size, (url,), r),
        call_ensures(term_size, (longer,), r_longer),
    ensures
        r_longer.0 == (if key == "rows"@ && n is Some {
            n->Some_0
        } else {
            r.0
        }),
        r_longer.1 == (if key == "cols"@ && n is Some {
            n->Some_0
        } else {
            r.1
        }),
{
    reveal_strlit("rows");
    reveal_strlit("cols");
    assert("rows"@[0] != "cols"@[0]);
    let field = key + seq!['='] + value@;
    lemma_split_of_longer(url@, seq!['&'] + field, '?');
    let query = text::split_first(url@, '?')->Some_0.1;
    assert(query + (seq!['&'] + field) =~= query + seq!['&'] + field);
    lemma_no_ampersand(key, value@);
    lemma_query_grows(query, field, "rows"@);
    lemma_query_grows(query, field, "cols"@);
    lemma_field_says(field, key, value@, "rows"@);
    lemma_field_says(field, key, value@, "cols"@);
}

/// A field without an equals sign says nothing.
pub proof fn bare_fields_say_nothing(
    url: &str,
    longer: &str,
    field: Seq<char>,
    r: (u16, u16),
    r_longer: (u16, u16),
)
    requires
        url@.contains('?'),
        !field.contains('='),
        !field.contains('&'),
        longer@ == url@ + (seq!['&'] + field),
        call_ensures(term_size, (url,), r),
        call_ensures(term_size, (longer,), r_longer),
    ensures
        r == r_longer,
{
    lemma_split_of_longer(url@, seq!['&'] + field, '?');
    let query = text::split_first(url@, '?')->Some_0.1;
    assert(query + (seq!['&'] + field) =~= query + seq!['&'] + field);
    lemma_query_grows(query, field, "rows"@);
    lemma_query_grows(query, field, "cols"@);
}

} // verus!
