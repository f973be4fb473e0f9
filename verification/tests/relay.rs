use include_dir::{Dir, DirEntry, File};
use neko::relay::{
    asset_reply, body_step, failed, guest_step, redirect, reply_frames, response_head,
    serve_term_asset, shell_step, socket_closed, term_size, BodyEvent, GuestEvent, Reply,
    ShellEvent, TermControl,
};
use neko::wire::{frame, ws_frame};

const ENTRIES: &[DirEntry<'static>] = &[
    DirEntry::File(File::new("index.html", b"<html>")),
    DirEntry::File(File::new("a.js", b"js")),
];

fn header<'a>(reply: &'a Reply, name: &str) -> Option<&'a str> {
    reply
        .meta
        .headers
        .iter()
        .find(|(k, _)| k == name)
        .map(|(_, v)| v.as_str())
}

#[test]
fn a_redirect_leads_to_the_terminal() {
    let r = redirect();
    assert_eq!(r.meta.status, 302);
    assert_eq!(header(&r, "location"), Some("/__neko/term"));
    assert_eq!(r.meta.headers.len(), 1);
    assert!(r.body.is_empty());
}

#[test]
fn pages_are_served_and_may_not_be_framed() {
    let assets = Dir::new("", ENTRIES);
    let page = serve_term_asset(&assets, "GET", "/__neko/term");
    assert_eq!(page.meta.status, 200);
    assert_eq!(page.body, b"<html>");
    assert_eq!(header(&page, "content-type"), Some("text/html; charset=utf-8"));
    assert_eq!(header(&page, "cache-control"), Some("no-cache"));
    assert_eq!(
        header(&page, "content-security-policy"),
        Some("frame-ancestors 'none'")
    );
    let script = serve_term_asset(&assets, "HEAD", "/__neko/term/a.js");
    assert_eq!(script.meta.status, 200);
    assert_eq!(header(&script, "content-security-policy"), None);
    assert_eq!(script.body, b"js");
}

#[test]
fn other_methods_and_files_are_refused() {
    let assets = Dir::new("", ENTRIES);
    let refused = serve_term_asset(&assets, "POST", "/__neko/term");
    assert_eq!(refused.meta.status, 405);
    assert_eq!(header(&refused, "allow"), Some("GET, HEAD"));
    assert_eq!(refused.body, b"method not allowed");
    assert_eq!(asset_reply("get", None).meta.status, 405);
    let missing = serve_term_asset(&assets, "GET", "/__neko/term/b.js");
    assert_eq!(missing.meta.status, 404);
    assert!(missing.meta.headers.is_empty());
    assert_eq!(missing.body, b"not found");
}

#[test]
fn replies_are_framed() {
    assert_eq!(
        reply_frames(3, b"{}", b"body", "GET"),
        vec![frame(4, 3, b"{}"), frame(5, 3, b"body"), frame(6, 3, b"")]
    );
    assert_eq!(
        reply_frames(3, b"{}", b"body", "HEAD"),
        vec![frame(4, 3, b"{}"), frame(6, 3, b"")]
    );
    assert_eq!(
        reply_frames(3, b"{}", b"", "GET"),
        vec![frame(4, 3, b"{}"), frame(6, 3, b"")]
    );
}

#[test]
fn bodies_are_relayed_piece_by_piece() {
    let mut sent: Vec<Vec<u8>> = Vec::new();
    for event in [
        BodyEvent::Chunk(b"one".to_vec()),
        BodyEvent::Chunk(Vec::new()),
        BodyEvent::Other,
        BodyEvent::Chunk(b"two".to_vec()),
    ] {
        let step = body_step(8, &event);
        assert!(!step.done);
        sent.extend(step.frames);
    }
    let last = body_step(8, &BodyEvent::End);
    assert!(last.done);
    sent.extend(last.frames);
    assert_eq!(
        sent,
        vec![frame(5, 8, b"one"), frame(5, 8, b"two"), frame(6, 8, b"")]
    );
    let aborted = body_step(8, &BodyEvent::Aborted);
    assert!(aborted.done);
    assert!(aborted.frames.is_empty());
}

#[test]
fn failures_and_closes_are_framed() {
    assert_eq!(failed(1, "né"), frame(7, 1, "né".as_bytes()));
    assert_eq!(response_head(1, b"{}"), frame(4, 1, b"{}"));
    assert_eq!(socket_closed(1), frame(10, 1, b""));
}

#[test]
fn guest_sockets_are_relayed() {
    let text = guest_step(2, &GuestEvent::Text("hé".to_string()));
    assert_eq!(text.frames, vec![ws_frame(2, 1, "hé".as_bytes())]);
    assert!(!text.done);
    let binary = guest_step(2, &GuestEvent::Binary(vec![0, 255]));
    assert_eq!(binary.frames, vec![ws_frame(2, 0, &[0, 255])]);
    let other = guest_step(2, &GuestEvent::Other);
    assert!(other.frames.is_empty() && !other.done);
    for event in [GuestEvent::Closed, GuestEvent::Failed] {
        let closed = guest_step(2, &event);
        assert_eq!(closed.frames, vec![frame(10, 2, b"")]);
        assert!(closed.done);
    }
}

#[test]
fn shells_are_relayed() {
    let output = shell_step(5, &ShellEvent::Output(b"$ ".to_vec()));
    assert_eq!(output.frames, vec![ws_frame(5, 0, b"$ ")]);
    assert!(!output.done);
    let exit = shell_step(5, &ShellEvent::Exit(-1));
    assert_eq!(
        exit.frames,
        vec![
            ws_frame(5, 1, br#"{"type":"exit","code":-1}"#),
            frame(10, 5, b"")
        ]
    );
    assert!(exit.done);
    let exit = shell_step(5, &ShellEvent::Exit(130));
    assert_eq!(
        exit.frames[0],
        ws_frame(5, 1, br#"{"type":"exit","code":130}"#)
    );
    let closed = shell_step(5, &ShellEvent::Closed);
    assert_eq!(closed.frames, vec![frame(10, 5, b"")]);
    assert!(closed.done);
}

#[test]
fn only_a_real_size_resizes() {
    let control = |kind: &str, rows: u16, cols: u16| {
        TermControl {
            kind: kind.to_string(),
            rows,
            cols,
        }
        .resize()
    };
    assert_eq!(control("resize", 30, 100), Some((30, 100)));
    assert_eq!(control("resize", 0, 100), None);
    assert_eq!(control("resize", 30, 0), None);
    assert_eq!(control("exit", 30, 100), None);
}

#[test]
fn a_terminal_has_the_size_its_url_asks_for() {
    assert_eq!(term_size("/__neko/term/ws"), (24, 80));
    assert_eq!(term_size("/__neko/term/ws?rows=50&cols=120"), (50, 120));
    assert_eq!(term_size("/ws?cols=7"), (24, 7));
    assert_eq!(term_size("/ws?rows=1&rows=2&rows=x"), (2, 80));
    assert_eq!(term_size("/ws?rows=70000&cols=-1&x"), (24, 80));
    assert_eq!(term_size("/ws?a=b?rows=3&rows=4=5"), (24, 80));
    assert_eq!(term_size("/ws?&&rows=0"), (0, 80));
}
