//! The connector's own state: which requests and sockets are open, and where a
//! visitor's request goes.

use crate::term;
use crate::term::{PREFIX, WS_PATH};
use crate::text;
use crate::text::{head_of, same, starts_with};
use crate::wire;
use crate::wire::{guest_message, incoming, Incoming, WsToGuest};
use std::collections::HashMap;
use vstd::prelude::*;

verus! {

broadcast use {vstd::string::group_string_axioms, vstd::std_specs::hash::group_hash_axioms};

/// The web terminal riding a tunnel. With `exclusive` (no app port is
/// tunneled), every non-terminal path redirects to the terminal.
pub struct TermBridge<T> {
    /// Where a fresh shell is asked for.
    pub shells: T,
    pub exclusive: bool,
}

/// Where a tunnel leads: a local port, or a port of the sandbox with what dials
/// it.
#[derive(Clone)]
pub enum Backend<D> {
    Local(u16),
    Sandbox(D, u16),
}

impl<D> Backend<D> {
    /// The port that the backend listens on.
    pub open spec fn port_of(self) -> u16 {
        match self {
            Backend::Local(p) => p,
            Backend::Sandbox(_, p) => p,
        }
    }

    /// The port that the backend listens on.
    pub fn port(&self) -> (r: u16)
        ensures
            r == self.port_of(),
    {
        match self {
            Backend::Local(p) => *p,
            Backend::Sandbox(_, p) => *p,
        }
    }
}

/// Where a visitor's request goes.
#[derive(Debug, Clone, Copy, PartialEq, Eq, Structural)]
pub enum Route {
    /// The terminal page serves it.
    Asset,
    /// It is sent to the terminal page.
    Redirect,
    /// The backend gets it.
    Forward,
}

/// Where a visitor's WebSocket goes.
#[derive(Debug, Clone, Copy, PartialEq, Eq, Structural)]
pub enum SocketRoute {
    /// A fresh shell in the sandbox.
    Terminal,
    /// The backend.
    Guest,
}

/// The path of a URL: what stands before its query.
pub open spec fn path_of(url: Seq<char>) -> Seq<char> {
    text::before_first(url, '?')
}

/// A path that the terminal page serves.
pub open spec fn is_page_path(path: Seq<char>) -> bool {
    path == PREFIX@ || ("/__neko/term/"@).is_prefix_of(path)
}

/// Where a request for `url` goes on a tunnel, with a terminal that is or is
/// not exclusive, or without one.
pub open spec fn route_of(exclusive: Option<bool>, url: Seq<char>) -> Route {
    match exclusive {
        None => Route::Forward,
        Some(alone) => if is_page_path(path_of(url)) {
            Route::Asset
        } else if alone {
            Route::Redirect
        } else {
            Route::Forward
        },
    }
}

/// Where a WebSocket for `url` goes.
pub open spec fn socket_route_of(terminal: bool, url: Seq<char>) -> SocketRoute {
    if terminal && path_of(url) == WS_PATH@ {
        SocketRoute::Terminal
    } else {
        SocketRoute::Guest
    }
}

/// The terminal that rides a tunnel: none on one that any visitor can load.
pub open spec fn riding<T>(private: bool, term: Option<TermBridge<T>>) -> Option<TermBridge<T>> {
    if private {
        term
    } else {
        None
    }
}

/// Whether a tunnel serves nothing but its terminal; nothing where it has none.
pub open spec fn exclusive_of<T>(term: Option<TermBridge<T>>) -> Option<bool> {
    match term {
        Some(bridge) => Some(bridge.exclusive),
        None => None,
    }
}

/// The path of a URL.
pub fn path<'a>(url: &'a str) -> (r: &'a str)
    ensures
        r@ == path_of(url@),
{
    head_of(url, '?')
}

/// The requests and sockets that are open on one tunnel, by their ids. `B`
/// takes the body of a request, `A` calls it off, `S` takes the messages for a
/// socket, and `T` asks for a shell.
pub struct Connector<B, A, S, T> {
    bodies: HashMap<u32, B>,
    aborts: HashMap<u32, A>,
    sockets: HashMap<u32, S>,
    term: Option<TermBridge<T>>,
}

impl<B, A, S, T> Connector<B, A, S, T> {
    /// The requests whose body is still coming.
    pub closed spec fn bodies(self) -> Map<u32, B> {
        self.bodies@
    }

    /// The requests that can be called off.
    pub closed spec fn aborts(self) -> Map<u32, A> {
        self.aborts@
    }

    /// The sockets that are open.
    pub closed spec fn sockets(self) -> Map<u32, S> {
        self.sockets@
    }

    /// The terminal that rides the tunnel.
    pub closed spec fn term(self) -> Option<TermBridge<T>> {
        self.term
    }

    /// A connector with nothing open. The web terminal is a shell into the
    /// sandbox; it never rides a tunnel that any visitor can load.
    pub fn new(private: bool, term: Option<TermBridge<T>>) -> (r: Self)
        ensures
            r.bodies() == Map::<u32, B>::empty(),
            r.aborts() == Map::<u32, A>::empty(),
            r.sockets() == Map::<u32, S>::empty(),
            r.term() == riding(private, term),
    {
        let term = if private {
            term
        } else {
            None
        };
        Connector { bodies: HashMap::new(), aborts: HashMap::new(), sockets: HashMap::new(), term }
    }

    /// Where a request for `url` goes.
    pub fn route(&self, url: &str) -> (r: Route)
        ensures
            r == route_of(exclusive_of(self.term()), url@),
    {
        match &self.term {
            None => Route::Forward,
            Some(bridge) => {
                let path = path(url);
                if same(path, PREFIX) || starts_with(path, "/__neko/term/") {
                    Route::Asset
                } else if bridge.exclusive {
                    Route::Redirect
                } else {
                    Route::Forward
                }
            },
        }
    }

    /// A request begins. One that goes to the backend is open from now on.
    pub fn begin_request(&mut self, id: u32, url: &str, body: B, abort: A) -> (r: Route)
        ensures
            r == route_of(exclusive_of(old(self).term()), url@),
            final(self).term() == old(self).term(),
            final(self).sockets() == old(self).sockets(),
            r is Forward ==> final(self).bodies() == old(self).bodies().insert(id, body),
            r is Forward ==> final(self).aborts() == old(self).aborts().insert(id, abort),
            !(r is Forward) ==> final(self).bodies() == old(self).bodies(),
            !(r is Forward) ==> final(self).aborts() == old(self).aborts(),
    {
        let route = self.route(url);
        if let Route::Forward = route {
            self.bodies.insert(id, body);
            self.aborts.insert(id, abort);
        }
        route
    }

    /// Where the next piece of a request's body goes.
    pub fn body(&self, id: u32) -> (r: Option<&B>)
        ensures
            match r {
                Some(body) => self.bodies().contains_pair(id, *body),
                None => !self.bodies().contains_key(id),
            },
    {
        self.bodies.get(&id)
    }

    /// The body of a request is complete.
    pub fn end_body(&mut self, id: u32)
        ensures
            final(self).bodies() == old(self).bodies().remove(id),
            final(self).aborts() == old(self).aborts(),
            final(self).sockets() == old(self).sockets(),
            final(self).term() == old(self).term(),
    {
        self.bodies.remove(&id);
    }

    /// The visitor gave a request up: what calls it off is handed out.
    pub fn abort(&mut self, id: u32) -> (r: Option<A>)
        ensures
            match r {
                Some(abort) => old(self).aborts().contains_pair(id, abort),
                None => !old(self).aborts().contains_key(id),
            },
            final(self).bodies() == old(self).bodies().remove(id),
            final(self).aborts() == old(self).aborts().remove(id),
            final(self).sockets() == old(self).sockets(),
            final(self).term() == old(self).term(),
    {
        self.bodies.remove(&id);
        self.aborts.remove(&id)
    }

    /// A request was answered: it cannot be called off any more.
    pub fn end_request(&mut self, id: u32)
        ensures
            final(self).bodies() == old(self).bodies(),
            final(self).aborts() == old(self).aborts().remove(id),
            final(self).sockets() == old(self).sockets(),
            final(self).term() == old(self).term(),
    {
        self.aborts.remove(&id);
    }

    /// A socket opens.
    pub fn open_socket(&mut self, id: u32, url: &str, socket: S) -> (r: SocketRoute)
        ensures
            r == socket_route_of(old(self).term() is Some, url@),
            final(self).bodies() == old(self).bodies(),
            final(self).aborts() == old(self).aborts(),
            final(self).sockets() == old(self).sockets().insert(id, socket),
            final(self).term() == old(self).term(),
    {
        self.sockets.insert(id, socket);
        match &self.term {
            Some(_) => if same(path(url), WS_PATH) {
                SocketRoute::Terminal
            } else {
                SocketRoute::Guest
            },
            None => SocketRoute::Guest,
        }
    }

    /// Where a message for a socket goes.
    pub fn socket(&self, id: u32) -> (r: Option<&S>)
        ensures
            match r {
                Some(socket) => self.sockets().contains_pair(id, *socket),
                None => !self.sockets().contains_key(id),
            },
    {
        self.sockets.get(&id)
    }

    /// A socket is closed, by either side.
    pub fn close_socket(&mut self, id: u32)
        ensures
            final(self).bodies() == old(self).bodies(),
            final(self).aborts() == old(self).aborts(),
            final(self).sockets() == old(self).sockets().remove(id),
            final(self).term() == old(self).term(),
    {
        self.sockets.remove(&id);
    }

    /// Where a fresh shell is asked for.
    pub fn shells(&self) -> (r: Option<&T>)
        ensures
            match r {
                Some(shells) => self.term() matches Some(bridge) && bridge.shells == *shells,
                None => self.term() is None,
            },
    {
        match &self.term {
            Some(bridge) => Some(&bridge.shells),
            None => None,
        }
    }
}

/// What a frame from the edge asks for.
pub enum Action<'a, A> {
    /// A request begins, with its head as JSON.
    Begin { id: u32, head: &'a [u8] },
    /// A piece of the body of an open request.
    Body { id: u32, chunk: &'a [u8] },
    /// A request is called off.
    CallOff(A),
    /// A socket opens, with its head as JSON.
    Open { id: u32, head: &'a [u8] },
    /// A message for an open socket.
    Message { id: u32, message: WsToGuest },
    /// Nothing more.
    Nothing,
}

/// Nothing is open in `after` but what is open in `before`.
pub open spec fn same_state<B, A, S, T>(
    before: Connector<B, A, S, T>,
    after: Connector<B, A, S, T>,
) -> bool {
    &&& after.bodies() == before.bodies()
    &&& after.aborts() == before.aborts()
    &&& after.sockets() == before.sockets()
    &&& after.term() == before.term()
}

/// `r` is what a frame asks for, and `after` is what it leaves open.
pub open spec fn receives<B, A, S, T>(
    before: Connector<B, A, S, T>,
    data: Seq<u8>,
    r: Action<A>,
    after: Connector<B, A, S, T>,
) -> bool {
    match wire::unframed(data) {
        None => r is Nothing && same_state(before, after),
        Some((t, n, rest)) => if t == wire::REQ_HEAD {
            &&& r matches Action::Begin { id, head } && id == n && head@ == rest
            &&& same_state(before, after)
        } else if t == wire::REQ_BODY {
            &&& if before.bodies().contains_key(n) {
                r matches Action::Body { id, chunk } && id == n && chunk@ == rest
            } else {
                r is Nothing
            }
            &&& same_state(before, after)
        } else if t == wire::REQ_END {
            &&& r is Nothing
            &&& after.bodies() == before.bodies().remove(n)
            &&& after.aborts() == before.aborts()
            &&& after.sockets() == before.sockets()
            &&& after.term() == before.term()
        } else if t == wire::ABORT {
            &&& if before.aborts().contains_key(n) {
                r == Action::CallOff(before.aborts()[n])
            } else {
                r is Nothing
            }
            &&& after.bodies() == before.bodies().remove(n)
            &&& after.aborts() == before.aborts().remove(n)
            &&& after.sockets() == before.sockets()
            &&& after.term() == before.term()
        } else if t == wire::WS_OPEN {
            &&& r matches Action::Open { id, head } && id == n && head@ == rest
            &&& same_state(before, after)
        } else if t == wire::WS_DATA {
            &&& if rest.len() > 0 && before.sockets().contains_key(n) {
                r matches Action::Message { id, message } && id == n && wire::stands_for(
                    rest[0],
                    rest.skip(1),
                    message,
                )
            } else {
                r is Nothing
            }
            &&& same_state(before, after)
        } else if t == wire::WS_CLOSE {
            &&& r is Nothing
            &&& after.bodies() == before.bodies()
            &&& after.aborts() == before.aborts()
            &&& after.sockets() == before.sockets().remove(n)
            &&& after.term() == before.term()
        } else {
            r is Nothing && same_state(before, after)
        },
    }
}

impl<B, A, S, T> Connector<B, A, S, T> {
    /// Takes a frame from the edge.
    pub fn receive<'a>(&mut self, data: &'a [u8]) -> (r: Action<'a, A>)
        ensures
            receives(*old(self), data@, r, *final(self)),
    {
        match incoming(data) {
            Incoming::RequestHead { id, payload } => Action::Begin { id, head: payload },
            Incoming::RequestBody { id, chunk } => if self.body(id).is_some() {
                Action::Body { id, chunk }
            } else {
                Action::Nothing
            },
            Incoming::RequestEnd { id } => {
                self.end_body(id);
                Action::Nothing
            },
            Incoming::Abort { id } => match self.abort(id) {
                Some(abort) => Action::CallOff(abort),
                None => Action::Nothing,
            },
            Incoming::SocketOpen { id, payload } => Action::Open { id, head: payload },
            Incoming::SocketData { id, kind, data } => if self.socket(id).is_some() {
                Action::Message { id, message: guest_message(kind, data) }
            } else {
                Action::Nothing
            },
            Incoming::SocketClose { id } => {
                self.close_socket(id);
                Action::Nothing
            },
            Incoming::Other => Action::Nothing,
        }
    }
}

/// The requests and sockets that share a tunnel do not disturb each other: a
/// frame changes nothing of what is open under any other id.
pub proof fn frames_touch_their_own_id_only<B, A, S, T>(
    before: Connector<B, A, S, T>,
    data: Seq<u8>,
    r: Action<A>,
    after: Connector<B, A, S, T>,
    other: u32,
)
    requires
        receives(before, data, r, after),
        wire::unframed(data) matches Some((t, id, rest)) ==> id != other,
    ensures
        after.bodies().contains_key(other) == before.bodies().contains_key(other),
        after.aborts().contains_key(other) == before.aborts().contains_key(other),
        after.sockets().contains_key(other) == before.sockets().contains_key(other),
        after.bodies().contains_key(other) ==> after.bodies()[other] == before.bodies()[other],
        after.aborts().contains_key(other) ==> after.aborts()[other] == before.aborts()[other],
        after.sockets().contains_key(other) ==> after.sockets()[other] == before.sockets()[other],
{
}

/// A request that was aborted takes no more of its body, and is called off only
/// once.
pub proof fn aborted_requests_are_gone<B, A, S, T>(
    before: Connector<B, A, S, T>,
    id: u32,
    payload: Seq<u8>,
    r: Action<A>,
    between: Connector<B, A, S, T>,
    t: u8,
    later: Seq<u8>,
    next: Action<A>,
    after: Connector<B, A, S, T>,
)
    requires
        receives(before, wire::frame_bytes(wire::ABORT, id, payload), r, between),
        t == wire::REQ_BODY || t == wire::ABORT,
        receives(between, wire::frame_bytes(t, id, later), next, after),
    ensures
        next is Nothing,
        same_state(between, after),
{
    wire::frames_read_back(wire::ABORT, id, payload);
    wire::frames_read_back(t, id, later);
    assert(between.bodies().remove(id) =~= between.bodies());
    assert(between.aborts().remove(id) =~= between.aborts());
}

/// A socket that was closed takes no more messages.
pub proof fn closed_sockets_are_gone<B, A, S, T>(
    before: Connector<B, A, S, T>,
    id: u32,
    payload: Seq<u8>,
    r: Action<A>,
    between: Connector<B, A, S, T>,
    kind: u8,
    data: Seq<u8>,
    next: Action<A>,
    after: Connector<B, A, S, T>,
)
    requires
        receives(before, wire::frame_bytes(wire::WS_CLOSE, id, payload), r, between),
        receives(between, wire::ws_frame_bytes(id, kind, data), next, after),
    ensures
        next is Nothing,
        same_state(between, after),
{
    wire::frames_read_back(wire::WS_CLOSE, id, payload);
    wire::frames_read_back(wire::WS_DATA, id, seq![kind] + data);
}

/// The terminal never rides a tunnel that any visitor can load: there, every
/// request and every socket goes to the backend, whatever terminal was asked
/// for.
pub proof fn public_tunnels_have_no_terminal<T>(term: Option<TermBridge<T>>, url: Seq<char>)
    ensures
        route_of(exclusive_of(riding(false, term)), url) is Forward,
        socket_route_of(riding(false, term) is Some, url) is Guest,
{
}

/// A tunnel for the terminal alone hands no request to the backend: the page
/// serves its own paths, and every other one is sent to the page.
pub proof fn terminal_tunnels_reach_nothing_else(url: Seq<char>)
    ensures
        !(route_of(Some(true), url) is Forward),
        route_of(Some(true), url) is Asset <==> is_page_path(path_of(url)),
{
}

/// A terminal leaves the app's own paths alone: outside its prefix, a tunnel
/// that also serves an app hands every request and socket to the backend.
pub proof fn apps_keep_their_paths(url: Seq<char>)
    requires
        !PREFIX@.is_prefix_of(path_of(url)),
    ensures
        route_of(Some(false), url) is Forward,
        socket_route_of(true, url) is Guest,
{
    reveal_strlit("/__neko/term");
    reveal_strlit("/__neko/term/");
    reveal_strlit("/__neko/term/ws");
    let path = path_of(url);
    if ("/__neko/term/"@).is_prefix_of(path) {
        assert forall|i: int| 0 <= i < PREFIX@.len() implies PREFIX@[i] == #[trigger] path[i] by {
            assert(("/__neko/term/"@)[i] == path.take("/__neko/term/"@.len() as int)[i]);
        }
        assert(path.take(PREFIX@.len() as int) =~= PREFIX@);
    }
    if path == WS_PATH@ {
        assert(path.take(PREFIX@.len() as int) =~= PREFIX@);
    }
}

/// What the terminal page serves lies under its prefix, where the page's files
/// are looked up.
pub proof fn page_paths_name_files(path: Seq<char>)
    requires
        is_page_path(path),
    ensures
        term::file_for(path) is Some,
{
    reveal_strlit("/__neko/term");
    reveal_strlit("/__neko/term/");
    if path == PREFIX@ {
        assert(path.take(PREFIX@.len() as int) =~= PREFIX@);
    } else {
        assert forall|i: int| 0 <= i < PREFIX@.len() implies PREFIX@[i] == #[trigger] path[i] by {
            assert(("/__neko/term/"@)[i] == path.take("/__neko/term/"@.len() as int)[i]);
        }
        assert(path.take(PREFIX@.len() as int) =~= PREFIX@);
    }
}

/// The path of a URL ends before its first question mark.
proof fn lemma_path_before_query(path: Seq<char>, query: Seq<char>)
    requires
        !path.contains('?'),
    ensures
        path_of(path) == path,
        path_of(path + seq!['?'] + query) == path,
{
    assert forall|i: int| 0 <= i < path.len() implies path[i] != '?' by {
        assert(path.contains(path[i]));
    }
    text::split_at_separator(path, query, '?');
}

/// A query does not change where a request or a socket goes.
pub proof fn queries_do_not_steer<B, A, S, T>(
    c: &Connector<B, A, S, T>,
    url: &str,
    asked: &str,
    query: Seq<char>,
    r: Route,
    r_asked: Route,
)
    requires
        !url@.contains('?'),
        asked@ == url@ + seq!['?'] + query,
        call_ensures(Connector::<B, A, S, T>::route, (c, url), r),
        call_ensures(Connector::<B, A, S, T>::route, (c, asked), r_asked),
    ensures
        r == r_asked,
{
    lemma_path_before_query(url@, query);
}

/// Without a terminal every request goes to the backend. With one, the paths of
/// the terminal page are served by it: the prefix itself, and what stands below
/// it. Every other request goes to the backend where the tunnel serves an app
/// too, and is sent to the page where it does not.
pub proof fn requests_go_where_their_path_says<B, A, S, T>(
    c: &Connector<B, A, S, T>,
    url: &str,
    r: Route,
)
    requires
        !url@.contains('?'),
        call_ensures(Connector::<B, A, S, T>::route, (c, url), r),
    ensures
        c.term() is None ==> r is Forward,
        c.term() matches Some(bridge) ==> {
            let page = url@ == "/__neko/term"@ || ("/__neko/term/"@).is_prefix_of(url@);
            &&& r is Asset <==> page
            &&& r is Redirect <==> !page && bridge.exclusive
            &&& r is Forward <==> !page && !bridge.exclusive
        },
{
    lemma_path_before_query(url@, Seq::empty());
}

/// A socket is a terminal exactly where a terminal rides the tunnel and the
/// socket was opened on the page's own path.
pub proof fn sockets_go_where_their_path_says(terminal: bool, path: Seq<char>, query: Seq<char>)
    requires
        !path.contains('?'),
    ensures
        socket_route_of(terminal, path) is Terminal <==> terminal && path == "/__neko/term/ws"@,
        socket_route_of(terminal, path + seq!['?'] + query) == socket_route_of(terminal, path),
{
    lemma_path_before_query(path, query);
}

/// The terminal rides a private tunnel as it was asked for, and no other one.
pub proof fn terminals_ride_private_tunnels<B, A, S, T>(
    private: bool,
    term: Option<TermBridge<T>>,
    c: Connector<B, A, S, T>,
)
    requires
        call_ensures(Connector::<B, A, S, T>::new, (private, term), c),
    ensures
        private ==> c.term() == term,
        !private ==> c.term() is None,
        forall|id: u32| !(#[trigger] c.bodies().contains_key(id)),
        forall|id: u32| !(#[trigger] c.aborts().contains_key(id)),
        forall|id: u32| !(#[trigger] c.sockets().contains_key(id)),
{
}

/// A frame of the type 1 begins a request and one of the type 8 opens a socket,
/// each with its head; neither changes what is open by itself.
pub proof fn heads_are_handed_on<B, A, S, T>(
    before: Connector<B, A, S, T>,
    id: u32,
    head: Seq<u8>,
    r: Action<A>,
    after: Connector<B, A, S, T>,
    s: Action<A>,
    later: Connector<B, A, S, T>,
)
    requires
        receives(before, wire::frame_bytes(1, id, head), r, after),
        receives(before, wire::frame_bytes(8, id, head), s, later),
    ensures
        r matches Action::Begin { id: n, head: h } && n == id && h@ == head,
        s matches Action::Open { id: n, head: h } && n == id && h@ == head,
        after.bodies() == before.bodies() && after.aborts() == before.aborts(),
        after.sockets() == before.sockets() && after.term() == before.term(),
        later.bodies() == before.bodies() && later.aborts() == before.aborts(),
        later.sockets() == before.sockets() && later.term() == before.term(),
{
    wire::frames_read_back(1, id, head);
    wire::frames_read_back(8, id, head);
}

/// A piece of the body of an open request is handed on whole, however often and
/// whatever it holds; a piece for any other request is dropped.
pub proof fn bodies_are_handed_on<B, A, S, T>(
    before: Connector<B, A, S, T>,
    id: u32,
    chunk: Seq<u8>,
    r: Action<A>,
    after: Connector<B, A, S, T>,
)
    requires
        receives(before, wire::frame_bytes(2, id, chunk), r, after),
    ensures
        before.bodies().contains_key(id) ==> (r matches Action::Body { id: n, chunk: c } && n == id
            && c@ == chunk),
        !before.bodies().contains_key(id) ==> r is Nothing,
        after.bodies() == before.bodies() && after.aborts() == before.aborts(),
        after.sockets() == before.sockets() && after.term() == before.term(),
{
    wire::frames_read_back(2, id, chunk);
}

/// The end of a body leaves its request open to be called off, and nothing of
/// its body open.
pub proof fn ended_bodies_can_be_called_off<B, A, S, T>(
    before: Connector<B, A, S, T>,
    id: u32,
    payload: Seq<u8>,
    r: Action<A>,
    after: Connector<B, A, S, T>,
)
    requires
        receives(before, wire::frame_bytes(3, id, payload), r, after),
    ensures
        r is Nothing,
        !after.bodies().contains_key(id),
        after.aborts() == before.aborts(),
        after.sockets() == before.sockets(),
        after.term() == before.term(),
        forall|other: u32|
            other != id ==> (#[trigger] after.bodies().contains_key(other)
                == before.bodies().contains_key(other)),
{
    wire::frames_read_back(3, id, payload);
}

/// Calling off a request that is open hands out what calls it off.
pub proof fn aborts_call_their_request_off<B, A, S, T>(
    before: Connector<B, A, S, T>,
    id: u32,
    payload: Seq<u8>,
    r: Action<A>,
    after: Connector<B, A, S, T>,
)
    requires
        receives(before, wire::frame_bytes(7, id, payload), r, after),
    ensures
        before.aborts().contains_key(id) ==> (r matches Action::CallOff(a) && a
            == before.aborts()[id]),
        !before.aborts().contains_key(id) ==> r is Nothing,
        !after.bodies().contains_key(id),
        !after.aborts().contains_key(id),
        after.sockets() == before.sockets(),
{
    wire::frames_read_back(7, id, payload);
}

/// A message for an open socket is handed on, a text as its text and bytes as
/// its bytes; a message for any other socket is dropped.
pub proof fn messages_are_handed_on<B, A, S, T>(
    before: Connector<B, A, S, T>,
    id: u32,
    kind: u8,
    data: Seq<u8>,
    s: Seq<char>,
    r: Action<A>,
    after: Connector<B, A, S, T>,
)
    requires
        receives(before, wire::frame_bytes(9, id, seq![kind] + data), r, after),
    ensures
        !before.sockets().contains_key(id) ==> r is Nothing,
        before.sockets().contains_key(id) ==> (r matches Action::Message { id: n, message } && n
            == id && if kind == 1 {
            message matches WsToGuest::Text(t) && (data == vstd::utf8::encode_utf8(s) ==> t@ == s)
        } else {
            message matches WsToGuest::Binary(b) && b@ == data
        }),
        after.bodies() == before.bodies() && after.aborts() == before.aborts(),
        after.sockets() == before.sockets() && after.term() == before.term(),
{
    wire::frames_read_back(9, id, seq![kind] + data);
    assert((seq![kind] + data).skip(1) =~= data);
    if r is Message && kind == 1 && data == vstd::utf8::encode_utf8(s) {
        wire::texts_cross_unchanged(s, r->message);
    }
}

/// Closing a socket leaves every request and every other socket as it was.
pub proof fn closes_close_their_socket<B, A, S, T>(
    before: Connector<B, A, S, T>,
    id: u32,
    payload: Seq<u8>,
    r: Action<A>,
    after: Connector<B, A, S, T>,
)
    requires
        receives(before, wire::frame_bytes(10, id, payload), r, after),
    ensures
        r is Nothing,
        !after.sockets().contains_key(id),
        after.bodies() == before.bodies() && after.aborts() == before.aborts(),
        forall|other: u32|
            other != id ==> (#[trigger] after.sockets().contains_key(other)
                == before.sockets().contains_key(other)),
{
    wire::frames_read_back(10, id, payload);
}

/// A frame that means nothing does nothing: one that is too short, and one of a
/// type that the edge does not send.
pub proof fn other_frames_do_nothing<B, A, S, T>(
    before: Connector<B, A, S, T>,
    data: Seq<u8>,
    r: Action<A>,
    after: Connector<B, A, S, T>,
)
    requires
        receives(before, data, r, after),
        data.len() < 5 || data[0] == 0 || 4 <= data[0] <= 6 || data[0] > 10,
    ensures
        r is Nothing,
        after.bodies() == before.bodies() && after.aborts() == before.aborts(),
        after.sockets() == before.sockets() && after.term() == before.term(),
{
}

/// A backend answers for the port that it was made with.
pub proof fn backends_keep_their_port<D>(d: D, port: u16, local: u16, sandbox: u16)
    requires
        call_ensures(Backend::<D>::port, (&Backend::Local(port),), local),
        call_ensures(Backend::<D>::port, (&Backend::Sandbox(d, port),), sandbox),
    ensures
        local == port,
        sandbox == port,
{
}

/// A request that goes to the backend is open from then on, under its own id,
/// to be given a body and to be called off; one that does not leaves nothing
/// open.
pub proof fn forwarded_requests_are_open<B, A, S, T>(
    c: &mut Connector<B, A, S, T>,
    id: u32,
    url: &str,
    body: B,
    abort: A,
    route: Route,
    r: Route,
    other: u32,
)
    requires
        call_ensures(Connector::<B, A, S, T>::route, (&*old(c), url), route),
        call_ensures(Connector::<B, A, S, T>::begin_request, (c, id, url, body, abort), r),
    ensures
        r == route,
        r is Forward ==> {
            &&& final(c).bodies().contains_key(id) && final(c).bodies()[id] == body
            &&& final(c).aborts().contains_key(id) && final(c).aborts()[id] == abort
        },
        !(r is Forward) ==> final(c).bodies() == old(c).bodies() && final(c).aborts()
            == old(c).aborts(),
        other != id ==> {
            &&& final(c).bodies().contains_key(other) == old(c).bodies().contains_key(other)
            &&& final(c).aborts().contains_key(other) == old(c).aborts().contains_key(other)
            &&& old(c).bodies().contains_key(other) ==> final(c).bodies()[other]
                == old(c).bodies()[other]
            &&& old(c).aborts().contains_key(other) ==> final(c).aborts()[other]
                == old(c).aborts()[other]
        },
        final(c).sockets() == old(c).sockets(),
        final(c).term() == old(c).term(),
{
}

/// A request that was called off is gone: calling it off hands out what does
/// so, once, and its body is no longer taken.
pub proof fn requests_are_called_off_once<B, A, S, T>(
    c: &mut Connector<B, A, S, T>,
    later: &mut Connector<B, A, S, T>,
    id: u32,
    first: Option<A>,
    second: Option<A>,
    body: Option<&B>,
)
    requires
        call_ensures(Connector::<B, A, S, T>::abort, (c, id), first),
        *later == *final(c),
        call_ensures(Connector::<B, A, S, T>::body, (&*old(later), id), body),
        call_ensures(Connector::<B, A, S, T>::abort, (later, id), second),
    ensures
        first is Some <==> old(c).aborts().contains_key(id),
        first matches Some(a) ==> a == old(c).aborts()[id],
        second is None,
        body is None,
        final(c).sockets() == old(c).sockets(),
        final(c).term() == old(c).term(),
{
}

/// The end of its body leaves a request open to be called off, and its answer
/// leaves its body open to be finished.
pub proof fn bodies_and_answers_end_apart<B, A, S, T>(
    c: &mut Connector<B, A, S, T>,
    d: &mut Connector<B, A, S, T>,
    id: u32,
)
    requires
        call_ensures(Connector::<B, A, S, T>::end_body, (c, id), ()),
        call_ensures(Connector::<B, A, S, T>::end_request, (d, id), ()),
    ensures
        final(c).bodies() == old(c).bodies().remove(id),
        final(c).aborts() == old(c).aborts(),
        final(c).sockets() == old(c).sockets(),
        final(d).aborts() == old(d).aborts().remove(id),
        final(d).bodies() == old(d).bodies(),
        final(d).sockets() == old(d).sockets(),
{
}

/// A socket that was opened takes messages until it is closed, and is a
/// terminal exactly where one rides the tunnel and the path is the terminal's.
pub proof fn sockets_are_open_until_closed<B, A, S, T>(
    c: &mut Connector<B, A, S, T>,
    later: &mut Connector<B, A, S, T>,
    id: u32,
    url: &str,
    socket: S,
    r: SocketRoute,
    found: Option<&S>,
    gone: Option<&S>,
)
    requires
        !url@.contains('?'),
        call_ensures(Connector::<B, A, S, T>::open_socket, (c, id, url, socket), r),
        call_ensures(Connector::<B, A, S, T>::socket, (&*final(c), id), found),
        *later == *final(c),
        call_ensures(Connector::<B, A, S, T>::close_socket, (later, id), ()),
        call_ensures(Connector::<B, A, S, T>::socket, (&*final(later), id), gone),
    ensures
        r is Terminal <==> old(c).term() is Some && url@ == "/__neko/term/ws"@,
        found matches Some(s) && *s == socket,
        gone is None,
        final(later).bodies() == old(c).bodies(),
        final(later).aborts() == old(c).aborts(),
        final(later).sockets() == old(c).sockets().remove(id),
{
    lemma_path_before_query(url@, Seq::empty());
    assert(final(later).sockets() =~= old(c).sockets().remove(id));
}

/// Shells are asked for where the terminal of the tunnel says.
pub proof fn shells_come_from_the_terminal<B, A, S, T>(
    c: &Connector<B, A, S, T>,
    r: Option<&T>,
)
    requires
        call_ensures(Connector::<B, A, S, T>::shells, (c,), r),
    ensures
        r is Some <==> c.term() is Some,
        r matches Some(shells) ==> *shells == c.term()->Some_0.shells,
{
}

/// What a frame asks for is told apart by its type, for every frame that is
/// received: a request's head, a piece of a body, a call-off, a socket's head
/// and a message are handed on whole, to what is open under their id alone.
pub proof fn received_frames_are_handed_on<B, A, S, T>(
    c: &mut Connector<B, A, S, T>,
    data: &[u8],
    t: u8,
    id: u32,
    payload: Seq<u8>,
    r: Action<A>,
)
    requires
        data@ == wire::frame_bytes(t, id, payload),
        call_ensures(Connector::<B, A, S, T>::receive, (c, data), r),
    ensures
        r is Begin <==> t == 1,
        r is Body <==> t == 2 && old(c).bodies().contains_key(id),
        r is CallOff <==> t == 7 && old(c).aborts().contains_key(id),
        r is Open <==> t == 8,
        r is Message <==> t == 9 && payload.len() > 0 && old(c).sockets().contains_key(id),
        r matches Action::Begin { id: n, head } ==> n == id && head@ == payload,
        r matches Action::Body { id: n, chunk } ==> n == id && chunk@ == payload,
        r matches Action::CallOff(a) ==> a == old(c).aborts()[id],
        r matches Action::Open { id: n, head } ==> n == id && head@ == payload,
        r matches Action::Message { id: n, message } ==> n == id && (message is Text <==> payload[0]
            == 1) && (message matches WsToGuest::Binary(b) ==> b@ == payload.skip(1)),
        t != 3 && t != 7 ==> final(c).bodies() == old(c).bodies(),
        t == 3 || t == 7 ==> final(c).bodies() == old(c).bodies().remove(id),
        t != 7 ==> final(c).aborts() == old(c).aborts(),
        t == 7 ==> final(c).aborts() == old(c).aborts().remove(id),
        t != 10 ==> final(c).sockets() == old(c).sockets(),
        t == 10 ==> final(c).sockets() == old(c).sockets().remove(id),
        final(c).term() == old(c).term(),
{
    wire::frames_read_back(t, id, payload);
}

/// What is open is found under its id, as it was opened, and nothing else is.
pub proof fn open_requests_are_found<B, A, S, T>(
    c: &Connector<B, A, S, T>,
    id: u32,
    body: Option<&B>,
    socket: Option<&S>,
)
    requires
        call_ensures(Connector::<B, A, S, T>::body, (c, id), body),
        call_ensures(Connector::<B, A, S, T>::socket, (c, id), socket),
    ensures
        body is Some <==> c.bodies().contains_key(id),
        body matches Some(b) ==> *b == c.bodies()[id],
        socket is Some <==> c.sockets().contains_key(id),
        socket matches Some(s) ==> *s == c.sockets()[id],
{
}

} // verus!
