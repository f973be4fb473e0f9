use neko::github::explain;
use neko::mascot::{face, Mascot, ERASE};

#[test]
fn a_rate_limit_comes_with_advice() {
    assert_eq!(
        explain(403, Some("0"), false).as_deref(),
        Some("github is rate limiting this address; retry with NEKO_GITHUB_TOKEN=<personal access token>")
    );
    assert_eq!(
        explain(429, Some("0"), true).as_deref(),
        Some("github refused the request even with NEKO_GITHUB_TOKEN; check the token is valid and unexpired")
    );
    assert_eq!(explain(403, Some("1"), false), None);
    assert_eq!(explain(403, None, false), None);
    assert_eq!(explain(404, Some("0"), false), None);
}

#[test]
fn the_cat_blinks_now_and_then() {
    let faces: Vec<&str> = (0..10).map(face).collect();
    assert_eq!(faces[0], "(=^..^=)");
    assert_eq!(faces[4], "(=^--^=)");
    assert_eq!(faces[9], "(=^--^=)");
    assert_eq!(faces.iter().filter(|f| **f == "(=^--^=)").count(), 2);
    assert!(faces.iter().all(|f| f.len() == faces[0].len()));
}

#[test]
fn the_cat_leaves_when_it_is_told() {
    let mut cat = Mascot::start(true);
    assert_eq!(
        cat.draw(0, "opening tunnel...").as_deref(),
        Some("\r\u{1b}[2K(=^..^=)  opening tunnel...")
    );
    assert_eq!(cat.finish(), Some(ERASE));
    assert_eq!(cat.draw(1, "x"), None);
    assert!(cat.stopped);
    assert_eq!(cat.finish(), Some("\r\u{1b}[2K"));
    assert!(cat.stopped);
    assert_eq!(cat.draw(2, "x"), None);
}

#[test]
fn the_cat_needs_a_terminal() {
    let mut cat = Mascot::start(false);
    assert_eq!(cat.draw(0, "x"), None);
    assert_eq!(cat.finish(), None);
}
