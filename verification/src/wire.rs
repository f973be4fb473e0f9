//! The frames that the connector and the edge exchange over one WebSocket:
//! `type(1) + id(4, big-endian) + payload`, multiplexed by request id.

use vstd::prelude::*;
use vstd::slice::slice_subrange;
use vstd::utf8;

verus! {

broadcast use vstd::string::group_string_axioms;

pub const REQ_HEAD: u8 = 1;

pub const REQ_BODY: u8 = 2;

pub const REQ_END: u8 = 3;

pub const RES_HEAD: u8 = 4;

pub const RES_BODY: u8 = 5;

pub const RES_END: u8 = 6;

pub const ABORT: u8 = 7;

pub const WS_OPEN: u8 = 8;

/// The payload is one kind byte (1 text, 0 binary), then the message data.
pub const WS_DATA: u8 = 9;

pub const WS_CLOSE: u8 = 10;

/// The kind byte of a text message.
pub const TEXT: u8 = 1;

/// The kind byte of a binary message.
pub const BINARY: u8 = 0;

/// A number as four bytes, the most significant first.
pub open spec fn big_endian(id: u32) -> Seq<u8> {
    seq![
        (id / 0x100_0000) as u8,
        (id / 0x1_0000 % 0x100) as u8,
        (id / 0x100 % 0x100) as u8,
        (id % 0x100) as u8,
    ]
}

/// The number that four bytes stand for, the most significant first.
pub open spec fn from_big_endian(a: u8, b: u8, c: u8, d: u8) -> u32 {
    (a * 0x100_0000 + b * 0x1_0000 + c * 0x100 + d) as u32
}

/// A frame.
pub open spec fn frame_bytes(t: u8, id: u32, payload: Seq<u8>) -> Seq<u8> {
    seq![t] + big_endian(id) + payload
}

/// A frame that carries one WebSocket message.
pub open spec fn ws_frame_bytes(id: u32, kind: u8, data: Seq<u8>) -> Seq<u8> {
    frame_bytes(WS_DATA, id, seq![kind] + data)
}

/// The type, the id and the payload of a frame; nothing of one that is too
/// short.
pub open spec fn unframed(data: Seq<u8>) -> Option<(u8, u32, Seq<u8>)> {
    if data.len() < 5 {
        None
    } else {
        Some((data[0], from_big_endian(data[1], data[2], data[3], data[4]), data.skip(5)))
    }
}

/// Makes a frame.
pub fn frame(t: u8, id: u32, payload: &[u8]) -> (r: Vec<u8>)
    ensures
        r@ == frame_bytes(t, id, payload@),
{
    let mut v: Vec<u8> = Vec::new();
    v.push(t);
    v.push((id / 0x100_0000) as u8);
    v.push((id / 0x1_0000 % 0x100) as u8);
    v.push((id / 0x100 % 0x100) as u8);
    v.push((id % 0x100) as u8);
    v.extend_from_slice(payload);
    assert(v@ =~= frame_bytes(t, id, payload@));
    v
}

/// Makes a frame that carries one WebSocket message.
pub fn ws_frame(id: u32, kind: u8, data: &[u8]) -> (r: Vec<u8>)
    ensures
        r@ == ws_frame_bytes(id, kind, data@),
{
    let mut payload: Vec<u8> = Vec::new();
    payload.push(kind);
    payload.extend_from_slice(data);
    assert(payload@ =~= seq![kind] + data@);
    frame(WS_DATA, id, payload.as_slice())
}

/// A frame from the edge.
pub enum Incoming<'a> {
    RequestHead { id: u32, payload: &'a [u8] },
    RequestBody { id: u32, chunk: &'a [u8] },
    RequestEnd { id: u32 },
    Abort { id: u32 },
    SocketOpen { id: u32, payload: &'a [u8] },
    SocketData { id: u32, kind: u8, data: &'a [u8] },
    SocketClose { id: u32 },
    /// A frame that is too short, of another type, or a message without a kind.
    Other,
}

/// `r` is what `data` says.
pub open spec fn reads_as(data: Seq<u8>, r: Incoming) -> bool {
    match unframed(data) {
        None => r is Other,
        Some((t, n, rest)) => if t == REQ_HEAD {
            r matches Incoming::RequestHead { id, payload } && id == n && payload@ == rest
        } else if t == REQ_BODY {
            r matches Incoming::RequestBody { id, chunk } && id == n && chunk@ == rest
        } else if t == REQ_END {
            r matches Incoming::RequestEnd { id } && id == n
        } else if t == ABORT {
            r matches Incoming::Abort { id } && id == n
        } else if t == WS_OPEN {
            r matches Incoming::SocketOpen { id, payload } && id == n && payload@ == rest
        } else if t == WS_DATA && rest.len() > 0 {
            r matches Incoming::SocketData { id, kind, data } && id == n && kind == rest[0] && data@
                == rest.skip(1)
        } else if t == WS_CLOSE {
            r matches Incoming::SocketClose { id } && id == n
        } else {
            r is Other
        },
    }
}

/// Reads a frame from the edge.
pub fn incoming<'a>(data: &'a [u8]) -> (r: Incoming<'a>)
    ensures
        reads_as(data@, r),
{
    if data.len() < 5 {
        return Incoming::Other;
    }
    let t = data[0];
    let id: u32 = data[1] as u32 * 0x100_0000 + data[2] as u32 * 0x1_0000 + data[3] as u32 * 0x100
        + data[4] as u32;
    let payload = slice_subrange(data, 5, data.len());
    assert(payload@ =~= data@.skip(5));
    if t == REQ_HEAD {
        Incoming::RequestHead { id, payload }
    } else if t == REQ_BODY {
        Incoming::RequestBody { id, chunk: payload }
    } else if t == REQ_END {
        Incoming::RequestEnd { id }
    } else if t == ABORT {
        Incoming::Abort { id }
    } else if t == WS_OPEN {
        Incoming::SocketOpen { id, payload }
    } else if t == WS_DATA {
        if payload.len() == 0 {
            Incoming::Other
        } else {
            let kind = payload[0];
            let rest = slice_subrange(payload, 1, payload.len());
            assert(rest@ =~= payload@.skip(1));
            Incoming::SocketData { id, kind, data: rest }
        }
    } else if t == WS_CLOSE {
        Incoming::SocketClose { id }
    } else {
        Incoming::Other
    }
}

/// A message for a WebSocket of the guest.
pub enum WsToGuest {
    Text(String),
    Binary(Vec<u8>),
}

/// What the standard library makes of bytes that may not be UTF-8.
pub uninterp spec fn lossy_text(bytes: Seq<u8>) -> Seq<char>;

/// `String::from_utf8_lossy`: the text that the bytes encode. Bytes that are
/// not UTF-8 are replaced; how is left unsaid.
#[verifier::external_body]
pub(crate) fn utf8_lossy(bytes: &[u8]) -> (r: String)
    ensures
        r@ == lossy_text(bytes@),
        utf8::valid_utf8(bytes@) ==> r@ == utf8::decode_utf8(bytes@),
{
    String::from_utf8_lossy(bytes).into_owned()
}

/// `r` is the message that a kind byte and its data stand for.
pub open spec fn stands_for(kind: u8, data: Seq<u8>, r: WsToGuest) -> bool {
    match r {
        WsToGuest::Text(s) => {
            &&& kind == TEXT
            &&& s@ == lossy_text(data)
            &&& utf8::valid_utf8(data) ==> s@ == utf8::decode_utf8(data)
        },
        WsToGuest::Binary(b) => kind != TEXT && b@ == data,
    }
}

/// The message that a kind byte and its data stand for.
pub fn guest_message(kind: u8, data: &[u8]) -> (r: WsToGuest)
    ensures
        stands_for(kind, data@, r),
{
    if kind == TEXT {
        WsToGuest::Text(utf8_lossy(data))
    } else {
        let mut b: Vec<u8> = Vec::new();
        b.extend_from_slice(data);
        assert(b@ =~= data@);
        WsToGuest::Binary(b)
    }
}

/// A number survives being written as four bytes.
pub proof fn ids_survive(id: u32)
    ensures
        ({
            let b = big_endian(id);
            from_big_endian(b[0], b[1], b[2], b[3]) == id
        }),
{
    let a = (id / 0x100_0000) as u8;
    let b = (id / 0x1_0000 % 0x100) as u8;
    let c = (id / 0x100 % 0x100) as u8;
    let d = (id % 0x100) as u8;
    assert(a == id / 0x100_0000);
    assert(a * 0x100_0000 + b * 0x1_0000 + c * 0x100 + d == id);
}

/// Reading a frame gives back the type, the id and the payload that it was
/// made from.
pub proof fn frames_read_back(t: u8, id: u32, payload: Seq<u8>)
    ensures
        unframed(frame_bytes(t, id, payload)) == Some((t, id, payload)),
{
    ids_survive(id);
    assert(frame_bytes(t, id, payload).skip(5) =~= payload);
}

/// The bytes of the number that four bytes stand for are those bytes.
proof fn lemma_bytes_survive(a: u8, b: u8, c: u8, d: u8)
    ensures
        big_endian(from_big_endian(a, b, c, d)) =~= seq![a, b, c, d],
{
    let id: int = a * 0x100_0000 + b * 0x1_0000 + c * 0x100 + d;
    assert(from_big_endian(a, b, c, d) == id);
    assert(id % 0x100 == d);
    assert(id / 0x100 == a * 0x1_0000 + b * 0x100 + c);
    assert(id / 0x100 % 0x100 == c);
    assert(id / 0x1_0000 == a * 0x100 + b);
    assert(id / 0x1_0000 % 0x100 == b);
    assert(id / 0x100_0000 == a);
}

/// A frame is made of nothing else: what is read from it makes the same frame.
pub proof fn read_frames_are_whole(data: Seq<u8>)
    requires
        data.len() >= 5,
    ensures
        ({
            let (t, id, payload) = unframed(data)->Some_0;
            frame_bytes(t, id, payload) == data
        }),
{
    let (t, id, payload) = unframed(data)->Some_0;
    lemma_bytes_survive(data[1], data[2], data[3], data[4]);
    assert(big_endian(id) =~= data.subrange(1, 5));
    assert(frame_bytes(t, id, payload) =~= data);
}

/// A WebSocket message crosses the wire unchanged, text as text and binary as
/// binary.
pub proof fn messages_cross_unchanged(id: u32, kind: u8, data: Seq<u8>, r: Incoming)
    requires
        reads_as(ws_frame_bytes(id, kind, data), r),
    ensures
        r matches Incoming::SocketData { id: n, kind: k, data: d } && n == id && k == kind && d@
            == data,
{
    frames_read_back(WS_DATA, id, seq![kind] + data);
    assert((seq![kind] + data).skip(1) =~= data);
}

/// A text that was sent arrives as that text.
pub proof fn texts_cross_unchanged(s: Seq<char>, r: WsToGuest)
    requires
        stands_for(TEXT, utf8::encode_utf8(s), r),
    ensures
        r matches WsToGuest::Text(t) && t@ == s,
{
    utf8::encode_utf8_valid_utf8(s);
    utf8::encode_utf8_decode_utf8(s);
}

/// Bytes that were sent arrive as those bytes.
pub proof fn bytes_cross_unchanged(data: Seq<u8>, r: WsToGuest)
    requires
        stands_for(BINARY, data, r),
    ensures
        r matches WsToGuest::Binary(b) && b@ == data,
{
}

/// A frame is its type, its id in four bytes from the most significant one on,
/// and its payload.
pub proof fn frames_are_laid_out(t: u8, id: u32, payload: &[u8], r: Vec<u8>)
    requires
        call_ensures(frame, (t, id, payload), r),
    ensures
        r@.len() == 5 + payload@.len(),
        r@[0] == t,
        id == r@[1] * 0x100_0000 + r@[2] * 0x1_0000 + r@[3] * 0x100 + r@[4],
        r@.skip(5) == payload@,
{
    ids_survive(id);
    assert(r@.skip(5) =~= payload@);
}

/// A message travels in a frame of the type 9, with its kind before its data.
pub proof fn messages_are_laid_out(id: u32, kind: u8, data: &[u8], r: Vec<u8>)
    requires
        call_ensures(ws_frame, (id, kind, data), r),
    ensures
        unframed(r@) == Some((9u8, id, seq![kind] + data@)),
{
    frames_read_back(WS_DATA, id, seq![kind] + data@);
}

/// What the edge sends is read by its type: 1, 2 and 3 are the head, the body
/// and the end of a request, 7 calls it off, 8, 9 and 10 are the opening, a
/// message and the closing of a socket. Nothing else is read as anything.
pub proof fn frames_are_read_by_their_type(
    t: u8,
    id: u32,
    payload: Seq<u8>,
    data: &[u8],
    r: Incoming,
)
    requires
        data@ == frame_bytes(t, id, payload),
        call_ensures(incoming, (data,), r),
    ensures
        t == 1 ==> (r matches Incoming::RequestHead { id: n, payload: p } && n == id && p@
            == payload),
        t == 2 ==> (r matches Incoming::RequestBody { id: n, chunk: p } && n == id && p@ == payload),
        t == 3 ==> (r matches Incoming::RequestEnd { id: n } && n == id),
        t == 7 ==> (r matches Incoming::Abort { id: n } && n == id),
        t == 8 ==> (r matches Incoming::SocketOpen { id: n, payload: p } && n == id && p@
            == payload),
        t == 9 && payload.len() > 0 ==> (r matches Incoming::SocketData { id: n, kind, data: d }
            && n == id && kind == payload[0] && d@ == payload.skip(1)),
        t == 10 ==> (r matches Incoming::SocketClose { id: n } && n == id),
        r is Other <==> t == 0 || 4 <= t <= 6 || t > 10 || t == 9 && payload.len() == 0,
{
    frames_read_back(t, id, payload);
}

/// What is too short for a type and an id is not read as anything.
pub proof fn short_frames_are_not_read(data: &[u8], r: Incoming)
    requires
        data@.len() < 5,
        call_ensures(incoming, (data,), r),
    ensures
        r is Other,
{
}

/// The kind 1 marks a text and any other kind marks bytes: a text arrives as
/// the text that was sent, and bytes as the bytes that were sent.
pub proof fn kinds_tell_texts_from_bytes(kind: u8, data: &[u8], s: Seq<char>, r: WsToGuest)
    requires
        call_ensures(guest_message, (kind, data), r),
    ensures
        r is Text <==> kind == 1,
        kind != 1 ==> (r matches WsToGuest::Binary(b) && b@ == data@),
        kind == 1 && data@ == utf8::encode_utf8(s) ==> (r matches WsToGuest::Text(t) && t@ == s),
{
    if kind == 1 && data@ == utf8::encode_utf8(s) {
        texts_cross_unchanged(s, r);
    }
}

} // verus!
