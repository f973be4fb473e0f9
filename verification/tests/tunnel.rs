use neko::tunnel::{
    bearer, connect_url, guest_url, loopback_step, nothing_listens, refusal, refused, LoopbackStep,
};

#[test]
fn the_edge_is_told_what_is_asked_for() {
    let base = "wss://web.neko.computer/__neko/connect";
    let url = |claimed: bool, org: Option<&str>| connect_url("web", "neko.computer", claimed, org);
    assert_eq!(url(false, None), base);
    assert_eq!(url(true, None), format!("{base}?claim=1"));
    assert_eq!(url(false, Some("w1")), format!("{base}?private=1&org=w1"));
    assert_eq!(
        url(true, Some("w1")),
        format!("{base}?claim=1&private=1&org=w1")
    );
    assert_eq!(bearer("jwt"), "Bearer jwt");
}

#[test]
fn a_refusal_speaks_for_itself_where_it_can() {
    assert_eq!(refusal(409, Some(b" name is taken\n")), "name is taken");
    assert_eq!(refusal(429, Some(b"a\xff")), "a\u{fffd}");
    assert_eq!(
        refusal(401, Some(b" \n")),
        "edge refused the tunnel (HTTP 401)"
    );
    assert_eq!(refusal(502, None), "edge refused the tunnel (HTTP 502)");
    assert_eq!(refused(500, ""), "edge refused the tunnel (HTTP 500)");
}

#[test]
fn both_loopbacks_are_named() {
    assert_eq!(
        nothing_listens(3000, "refused", "unreachable"),
        "nothing is listening on port 3000 (127.0.0.1: refused; [::1]: unreachable)"
    );
}

#[test]
fn both_loopbacks_are_tried_in_turn() {
    assert!(matches!(loopback_step(80, None, None), LoopbackStep::TryV4));
    assert!(matches!(loopback_step(80, Some("a"), None), LoopbackStep::TryV6));
    match loopback_step(80, Some("a"), Some("b")) {
        LoopbackStep::GiveUp(why) => assert_eq!(why, nothing_listens(80, "a", "b")),
        _ => panic!("expected to give up"),
    }
}

#[test]
fn sockets_open_on_the_guest() {
    assert_eq!(guest_url(5173, "/hmr?x=1"), "ws://localhost:5173/hmr?x=1");
}
