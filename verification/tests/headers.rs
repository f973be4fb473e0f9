use neko::headers::{
    guest_headers, guest_socket_headers, is_hop_by_hop, response_headers, skip_ws_header, Headers,
};

fn headers(list: &[(&str, &str)]) -> Headers {
    list.iter()
        .map(|(k, v)| (k.to_string(), v.to_string()))
        .collect()
}

#[test]
fn hop_headers_are_known_in_any_case() {
    for name in [
        "connection",
        "Keep-Alive",
        "PROXY-CONNECTION",
        "transfer-encoding",
        "Content-Length",
    ] {
        assert!(is_hop_by_hop(name), "{name}");
        assert!(skip_ws_header(name), "{name}");
    }
    for name in ["host", "content-type", "connections", ""] {
        assert!(!is_hop_by_hop(name), "{name}");
    }
}

#[test]
fn handshake_headers_stay_behind_but_subprotocols_cross() {
    for name in [
        "Host",
        "upgrade",
        "Sec-WebSocket-Key",
        "sec-websocket-version",
        "sec-websocket-accept",
        "sec-websocket-extensions",
    ] {
        assert!(skip_ws_header(name), "{name}");
    }
    assert!(!skip_ws_header("Sec-WebSocket-Protocol"));
    assert!(!skip_ws_header("cookie"));
}

#[test]
fn the_guest_sees_its_own_host() {
    let asked = headers(&[
        ("Host", "web.neko.computer"),
        ("accept", "*/*"),
        ("Connection", "close"),
        ("cookie", "a=b"),
    ]);
    assert_eq!(
        guest_headers(&asked, 8000),
        headers(&[("accept", "*/*"), ("cookie", "a=b"), ("host", "localhost:8000")])
    );
    assert_eq!(
        guest_headers(&Vec::new(), 0),
        headers(&[("host", "localhost:0")])
    );
}

#[test]
fn sockets_take_only_headers_that_are_headers() {
    let asked = headers(&[
        ("Sec-WebSocket-Protocol", "vite-hmr"),
        ("Sec-WebSocket-Key", "k"),
        ("bad name", "x"),
        ("", "x"),
        ("x-bad", "a\nb"),
        ("x-tab", "a\tb"),
        ("x-delete", "a\u{7f}b"),
        ("x-é", "x"),
        ("x-word", "né"),
    ]);
    assert_eq!(
        guest_socket_headers(&asked),
        headers(&[
            ("Sec-WebSocket-Protocol", "vite-hmr"),
            ("x-tab", "a\tb"),
            ("x-word", "né"),
        ])
    );
}

#[test]
fn every_mark_of_a_token_may_name_a_header() {
    for c in (0u8..128).map(char::from) {
        let ok = c.is_ascii_alphanumeric() || "!#$%&'*+-.^_`|~".contains(c);
        let kept = guest_socket_headers(&headers(&[(&c.to_string(), "x")])).len() == 1;
        assert_eq!(kept, ok, "{c:?}");
        let ok = c == '\t' || (c >= ' ' && c != '\u{7f}');
        let kept = guest_socket_headers(&headers(&[("x", &c.to_string())])).len() == 1;
        assert_eq!(kept, ok, "{c:?}");
    }
    let long = "a".repeat(65535);
    assert_eq!(guest_socket_headers(&headers(&[(&long, "x")])).len(), 1);
    let longer = "a".repeat(65536);
    assert!(guest_socket_headers(&headers(&[(&longer, "x")])).is_empty());
}

#[test]
fn replies_lose_hop_headers_and_keep_the_last_of_a_name() {
    let said = vec![
        ("set-cookie".to_string(), Some("a=1".to_string())),
        ("content-length".to_string(), Some("3".to_string())),
        ("x-odd".to_string(), None),
        ("etag".to_string(), Some("t".to_string())),
        ("set-cookie".to_string(), Some("b=2".to_string())),
    ];
    let mut kept = response_headers(&said);
    kept.sort();
    assert_eq!(kept, headers(&[("etag", "t"), ("set-cookie", "b=2")]));
}
