use neko::connector::{path, Action, Backend, Connector, Route, SocketRoute, TermBridge};
use neko::wire::{frame, ws_frame, WsToGuest};

type Plain = Connector<&'static str, u8, char, &'static str>;

fn with_terminal(private: bool, exclusive: bool) -> Plain {
    Connector::new(
        private,
        Some(TermBridge {
            shells: "shells",
            exclusive,
        }),
    )
}

#[test]
fn a_plain_tunnel_forwards_everything() {
    let c: Plain = Connector::new(true, None);
    for url in ["/", "/__neko/term", "/__neko/term/ws?rows=1"] {
        assert_eq!(c.route(url), Route::Forward, "{url}");
    }
    assert!(c.shells().is_none());
}

#[test]
fn a_terminal_beside_an_app_takes_its_own_paths() {
    let c = with_terminal(true, false);
    for url in [
        "/__neko/term",
        "/__neko/term?x",
        "/__neko/term/",
        "/__neko/term/vendor/a.js",
        "/__neko/term/ws",
    ] {
        assert_eq!(c.route(url), Route::Asset, "{url}");
    }
    for url in ["/", "/__neko/terminal", "?/__neko/term", ""] {
        assert_eq!(c.route(url), Route::Forward, "{url}");
    }
    assert_eq!(c.shells(), Some(&"shells"));
}

#[test]
fn a_terminal_on_its_own_takes_everything() {
    let c = with_terminal(true, true);
    assert_eq!(c.route("/"), Route::Redirect);
    assert_eq!(c.route("/__neko/terminal"), Route::Redirect);
    assert_eq!(c.route("/__neko/term/x"), Route::Asset);
    assert_eq!(c.route("/__neko/term/ws?rows=2"), Route::Asset);
}

#[test]
fn a_public_tunnel_has_no_terminal() {
    let mut c = with_terminal(false, true);
    assert_eq!(c.route("/__neko/term"), Route::Forward);
    assert_eq!(c.route("/"), Route::Forward);
    assert_eq!(
        c.open_socket(1, "/__neko/term/ws", 's'),
        SocketRoute::Guest
    );
    assert!(c.shells().is_none());
}

#[test]
fn requests_are_kept_by_their_ids() {
    let mut c: Plain = Connector::new(false, None);
    assert_eq!(c.begin_request(1, "/a", "one", 11), Route::Forward);
    assert_eq!(c.begin_request(2, "/b", "two", 22), Route::Forward);
    assert_eq!(c.body(1), Some(&"one"));
    assert_eq!(c.body(2), Some(&"two"));
    assert_eq!(c.body(3), None);
    c.end_body(1);
    assert_eq!(c.body(1), None);
    assert_eq!(c.abort(1), Some(11));
    assert_eq!(c.abort(1), None);
    assert_eq!(c.body(2), Some(&"two"));
    c.end_request(2);
    assert_eq!(c.body(2), Some(&"two"));
    assert_eq!(c.abort(2), None);
    assert_eq!(c.body(2), None);
}

#[test]
fn only_forwarded_requests_stay_open() {
    let mut c = with_terminal(true, true);
    assert_eq!(c.begin_request(1, "/", "one", 11), Route::Redirect);
    assert_eq!(c.begin_request(2, "/__neko/term", "two", 22), Route::Asset);
    assert_eq!(c.body(1), None);
    assert_eq!(c.abort(2), None);
}

#[test]
fn an_aborted_request_is_gone() {
    let mut c: Plain = Connector::new(false, None);
    c.begin_request(1, "/a", "one", 11);
    assert_eq!(c.abort(1), Some(11));
    assert_eq!(c.body(1), None);
}

#[test]
fn sockets_are_kept_by_their_ids() {
    let mut c = with_terminal(true, false);
    assert_eq!(
        c.open_socket(1, "/__neko/term/ws?rows=1", 'a'),
        SocketRoute::Terminal
    );
    assert_eq!(c.open_socket(2, "/__neko/term", 'b'), SocketRoute::Guest);
    assert_eq!(c.socket(1), Some(&'a'));
    c.close_socket(1);
    assert_eq!(c.socket(1), None);
    assert_eq!(c.socket(2), Some(&'b'));
}

#[test]
fn backends_know_their_port() {
    assert_eq!(Backend::<()>::Local(80).port(), 80);
    assert_eq!(Backend::Sandbox("dial", 8000).port(), 8000);
}

#[test]
fn a_path_ends_at_its_query() {
    assert_eq!(path("/a/b?c?d"), "/a/b");
    assert_eq!(path("/a"), "/a");
    assert_eq!(path(""), "");
}

#[test]
fn frames_are_turned_into_actions() {
    let mut c: Plain = Connector::new(false, None);
    assert!(matches!(
        c.receive(&frame(1, 7, b"{}")),
        Action::Begin { id: 7, head: b"{}" }
    ));
    assert!(matches!(c.receive(&frame(2, 7, b"x")), Action::Nothing));
    c.begin_request(7, "/", "body", 70);
    c.begin_request(8, "/", "other", 80);
    assert!(matches!(
        c.receive(&frame(2, 7, b"x")),
        Action::Body { id: 7, chunk: b"x" }
    ));
    assert!(matches!(c.receive(&frame(3, 7, b"")), Action::Nothing));
    assert_eq!(c.body(7), None);
    assert_eq!(c.body(8), Some(&"other"));
    assert!(matches!(c.receive(&frame(7, 7, b"")), Action::CallOff(70)));
    assert!(matches!(c.receive(&frame(7, 7, b"")), Action::Nothing));
    assert!(matches!(c.receive(&frame(7, 8, b"")), Action::CallOff(80)));
    assert!(matches!(c.receive(&frame(2, 8, b"x")), Action::Nothing));
    assert!(matches!(c.receive(b"\x02\x00"), Action::Nothing));
    assert!(matches!(c.receive(&frame(5, 7, b"")), Action::Nothing));
}

#[test]
fn messages_reach_open_sockets_only() {
    let mut c: Plain = Connector::new(false, None);
    assert!(matches!(
        c.receive(&frame(8, 3, b"{}")),
        Action::Open { id: 3, head: b"{}" }
    ));
    assert!(matches!(c.receive(&ws_frame(3, 1, b"hi")), Action::Nothing));
    c.open_socket(3, "/", 's');
    assert!(matches!(
        c.receive(&ws_frame(3, 1, b"hi")),
        Action::Message { id: 3, message: WsToGuest::Text(s) } if s == "hi"
    ));
    assert!(matches!(
        c.receive(&ws_frame(3, 0, b"hi")),
        Action::Message { id: 3, message: WsToGuest::Binary(b) } if b == b"hi"
    ));
    assert!(matches!(c.receive(&frame(9, 3, b"")), Action::Nothing));
    assert!(matches!(c.receive(&frame(10, 3, b"")), Action::Nothing));
    assert_eq!(c.socket(3), None);
    assert!(matches!(c.receive(&ws_frame(3, 0, b"hi")), Action::Nothing));
}
