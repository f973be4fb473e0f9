use neko::login::{
    self, access_jwt, access_jwt_value, endpoint, extract_token, load_session_token,
    load_session_value, poll, poll_value, resolve_tunnel_workspace, resolve_workspace,
    session_document, tunnel_workspace_selector, workspaces, workspaces_value, DeviceCode,
    LoginError, Poll, Workspace,
};
use serde_json::Value;

const BASE: &str = "https://app.superhq.ai";

fn json(text: &str) -> Value {
    serde_json::from_str(text).unwrap()
}

fn account() -> Vec<Workspace> {
    let workspace = |id: &str, slug: &str, personal: bool| Workspace {
        id: id.to_string(),
        slug: slug.to_string(),
        personal,
    };
    vec![
        workspace("w1", "acme", false),
        workspace("w2", "me", true),
        workspace("w3", "acme", true),
    ]
}

#[test]
fn tunnel_workspace_selection_is_deterministic_and_compatible() {
    assert_eq!(tunnel_workspace_selector(None, None).unwrap(), "");
    assert_eq!(
        tunnel_workspace_selector(Some("acme"), None).unwrap(),
        "acme"
    );
    assert_eq!(tunnel_workspace_selector(None, Some("")).unwrap(), "");
    assert_eq!(
        tunnel_workspace_selector(None, Some("acme")).unwrap(),
        "acme"
    );
    assert_eq!(
        tunnel_workspace_selector(Some("acme"), Some("")).unwrap(),
        "acme"
    );
    assert_eq!(
        tunnel_workspace_selector(Some("acme"), Some("acme")).unwrap(),
        "acme"
    );
    assert!(tunnel_workspace_selector(Some("acme"), Some("other")).is_err());
}

#[test]
fn a_conflict_of_workspaces_is_explained() {
    assert_eq!(
        tunnel_workspace_selector(Some("acme"), Some("other"))
            .unwrap_err()
            .message(),
        "--workspace acme conflicts with --private other; a private tunnel's owner and audience must match"
    );
}

#[test]
fn selectors_find_the_first_workspace_that_fits() {
    let all = account();
    assert_eq!(
        resolve_workspace(&all, "").unwrap(),
        ("w2".to_string(), "your personal workspace".to_string())
    );
    assert_eq!(
        resolve_workspace(&all, "acme").unwrap(),
        ("w1".to_string(), "acme members".to_string())
    );
    assert_eq!(
        resolve_workspace(&all, "nope").unwrap_err().message(),
        "you are not a member of a workspace with the slug nope"
    );
    assert_eq!(
        resolve_workspace(&Vec::new(), "").unwrap_err().message(),
        "no personal workspace on this account"
    );
}

#[test]
fn a_tunnel_belongs_to_the_selected_workspace() {
    let all = account();
    assert_eq!(
        resolve_tunnel_workspace(&all, None, None).unwrap().0,
        "w2"
    );
    assert_eq!(
        resolve_tunnel_workspace(&all, Some("acme"), Some("")).unwrap().0,
        "w1"
    );
    assert!(matches!(
        resolve_tunnel_workspace(&all, Some("acme"), Some("me")),
        Err(LoginError::Conflict { .. })
    ));
}

#[test]
fn tokens_are_found_under_their_keys() {
    let token = |text: &str| extract_token(&json(text));
    assert_eq!(
        token(r#"{"token":"b","access_token":"a"}"#).as_deref(),
        Some("a")
    );
    assert_eq!(
        token(r#"{"access_token":1,"token":"b","session_token":"c"}"#).as_deref(),
        Some("b")
    );
    assert_eq!(token(r#"{"session_token":"c"}"#).as_deref(), Some("c"));
    assert_eq!(
        token(r#"{"session":{"token":"d"}}"#).as_deref(),
        Some("d")
    );
    assert_eq!(token(r#"{"session":"d"}"#), None);
    assert_eq!(token("[]"), None);
}

#[test]
fn polling_follows_the_answer() {
    assert!(matches!(poll(true, br#"{"token":"t"}"#), Poll::SignedIn(t) if t == "t"));
    assert!(matches!(
        poll(true, b"{}"),
        Poll::Failed(LoginError::NoToken)
    ));
    assert!(matches!(
        poll(true, b"not json"),
        Poll::Failed(LoginError::NoToken)
    ));
    assert!(matches!(
        poll(false, br#"{"error":"authorization_pending"}"#),
        Poll::Pending
    ));
    assert!(matches!(
        poll(false, br#"{"error":"slow_down"}"#),
        Poll::SlowDown
    ));
    match poll(false, br#"{"error":"access_denied"}"#) {
        Poll::Failed(e) => assert_eq!(e.message(), "device login failed: access_denied"),
        _ => panic!("expected a failure"),
    }
    match poll(false, b"<html>") {
        Poll::Failed(e) => assert_eq!(e.message(), "device login failed: "),
        _ => panic!("expected a failure"),
    }
    assert!(matches!(
        poll_value(false, Some(&json(r#"{"error":"slow_down"}"#))),
        Poll::SlowDown
    ));
    assert_eq!(LoginError::NoToken.message(), "no token in token response");
    assert_eq!(Poll::SlowDown.pause(), 5);
    assert_eq!(Poll::Pending.pause(), 0);
}

#[test]
fn a_device_code_says_where_to_go() {
    let mut code = DeviceCode {
        device_code: "d".to_string(),
        user_code: "u".to_string(),
        verification_uri: "https://short".to_string(),
        verification_uri_complete: None,
        interval: None,
    };
    assert_eq!(code.uri(), "https://short");
    assert_eq!(code.wait(), 5);
    code.verification_uri_complete = Some("https://long".to_string());
    code.interval = Some(2);
    assert_eq!(code.uri(), "https://long");
    assert_eq!(code.wait(), 2);
    assert_eq!(
        endpoint(BASE, login::DEVICE_CODE_PATH),
        "https://app.superhq.ai/api/auth/device/code"
    );
}

#[test]
fn a_stored_session_loads_for_its_issuer_only() {
    let stored = session_document("https://auth.example.com", "s3\"cr\n\u{e9}t");
    let record = json(&stored);
    assert_eq!(record["auth"], "https://auth.example.com");
    assert_eq!(record["token"], "s3\"cr\n\u{e9}t");
    assert_eq!(
        load_session_token(Some(&stored), "https://auth.example.com").unwrap(),
        "s3\"cr\n\u{e9}t"
    );
    assert_eq!(
        load_session_token(Some(&stored), BASE).unwrap_err().message(),
        "stored session was issued by https://auth.example.com, not https://app.superhq.ai; run: neko login"
    );
}

#[test]
fn a_bare_token_is_from_the_default_issuer() {
    assert_eq!(
        load_session_token(Some(" abc.def\n"), BASE).unwrap(),
        "abc.def"
    );
    assert!(load_session_token(Some("abc.def"), "https://other").is_err());
    assert_eq!(
        load_session_token(None, BASE).unwrap_err().message(),
        "not signed in, run: neko login"
    );
    // JSON without a token is taken as a bare token too.
    assert_eq!(load_session_token(Some("[1]"), BASE).unwrap(), "[1]");
    assert_eq!(
        load_session_token(Some(r#"{"token":"t"}"#), BASE).unwrap(),
        "t"
    );
    assert_eq!(
        load_session_token(Some(r#"{"auth":7,"token":8}"#), BASE).unwrap(),
        ""
    );
    assert_eq!(
        load_session_value(Some(&json(r#"{"auth":"x","token":"t"}"#)), "", "x").unwrap(),
        "t"
    );
}

#[test]
fn workspaces_are_read_from_the_console() {
    let body = br#"{"workspaces":[
        {"id":"w1","slug":"acme"},
        {"id":"w2","slug":"me","personal":true},
        {"id":"w3"},
        "junk",
        {"id":"w4","slug":"odd","personal":"yes"}
    ]}"#;
    let list = workspaces(true, body, BASE).ok().unwrap();
    let shown: Vec<(&str, &str, bool)> = list
        .iter()
        .map(|w| (w.id.as_str(), w.slug.as_str(), w.personal))
        .collect();
    assert_eq!(
        shown,
        vec![("w1", "acme", false), ("w2", "me", true), ("w4", "odd", false)]
    );
}

#[test]
fn a_console_that_makes_no_sense_is_reported() {
    let said = |ok: bool, body: &[u8]| workspaces(ok, body, BASE).err().unwrap().message();
    assert_eq!(said(false, b"{}"), "session expired, run: neko login");
    assert_eq!(
        said(true, b"{}"),
        "unexpected response from https://app.superhq.ai"
    );
    assert_eq!(
        said(true, br#"{"workspaces":{}}"#),
        "unexpected response from https://app.superhq.ai"
    );
    assert_eq!(said(true, b"<html>"), "error decoding response body");
    assert!(workspaces_value(true, Ok(&json(r#"{"workspaces":[]}"#)), BASE)
        .ok()
        .unwrap()
        .is_empty());
}

#[test]
fn the_short_lived_token_is_read() {
    assert_eq!(access_jwt(true, br#"{"token":"jwt"}"#).unwrap(), "jwt");
    assert_eq!(
        access_jwt(true, b"{}").unwrap_err().message(),
        "no token in response"
    );
    assert!(matches!(
        access_jwt(true, b"{"),
        Err(LoginError::Unreadable(_))
    ));
    assert!(matches!(
        access_jwt(false, br#"{"token":"jwt"}"#),
        Err(LoginError::SessionExpired)
    ));
    assert_eq!(
        access_jwt_value(true, Ok(&json(r#"{"token":"jwt"}"#))).unwrap(),
        "jwt"
    );
}

#[test]
fn unreadable_responses_keep_what_the_parser_says() {
    let jwt = access_jwt(true, b"{").unwrap_err();
    assert_eq!(jwt.message(), "error decoding response body");
    assert_eq!(
        jwt.cause(),
        Some("EOF while parsing an object at line 1 column 1")
    );
    let listed = workspaces(true, b"<html>", BASE).err().unwrap();
    assert_eq!(listed.message(), "error decoding response body");
    assert_eq!(listed.cause(), Some("expected value at line 1 column 1"));
    assert_eq!(
        workspaces_value(true, Err("torn"), BASE).err().unwrap().cause(),
        Some("torn")
    );
    assert_eq!(
        access_jwt_value(true, Err("torn")).unwrap_err().cause(),
        Some("torn")
    );
    assert_eq!(access_jwt(false, b"{").unwrap_err().cause(), None);
    assert_eq!(access_jwt(true, b"{}").unwrap_err().cause(), None);
}
