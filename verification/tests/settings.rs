use neko::dist::{auth, config_value, domain, github_token, load_config, resolve};
use neko::json::member_text;
use neko::number::{decimal_text, hexadecimal_text, pad, parse_u16, right_align, signed_text};
use neko::text::{join, split_once, trim, white_space};

#[test]
fn settings_come_from_the_variable_first() {
    let config = load_config(Some(
        r#"{"domain":" tunnels.example.com ","auth":"https://auth.example.com//"}"#,
    ));
    let config = config.as_ref();
    assert_eq!(domain(Some("x.dev"), config), "x.dev");
    assert_eq!(domain(Some("  "), config), "tunnels.example.com");
    assert_eq!(domain(None, config), "tunnels.example.com");
    assert_eq!(domain(None, None), "neko.computer");
    assert_eq!(auth(None, config), "https://auth.example.com");
    assert_eq!(auth(Some("https://a/"), config), "https://a");
    assert_eq!(auth(None, None), "https://app.superhq.ai");
    assert_eq!(resolve(None, config, "other", "d"), "d");
}

#[test]
fn a_config_that_makes_no_sense_is_passed_over() {
    assert!(load_config(None).is_none());
    assert!(load_config(Some("{")).is_none());
    let config = load_config(Some(r#"{"domain":7,"auth":" "}"#));
    assert_eq!(domain(None, config.as_ref()), "neko.computer");
    assert_eq!(config_value(config.as_ref(), "auth"), None);
    let list = load_config(Some("[]"));
    assert_eq!(config_value(list.as_ref(), "domain"), None);
    assert_eq!(config_value(None, "domain"), None);
}

#[test]
fn members_are_read() {
    let v = load_config(Some(r#"{"a":"x","b":{"a":"y"},"a":"z"}"#)).unwrap();
    assert_eq!(member_text(&v, "a").as_deref(), Some("z"));
    assert_eq!(member_text(&v, "b"), None);
    assert_eq!(member_text(&v, "c"), None);
}

#[test]
fn a_token_is_used_only_when_set() {
    assert_eq!(github_token(Some(" ghp ")).as_deref(), Some("ghp"));
    assert_eq!(github_token(Some("\t")), None);
    assert_eq!(github_token(None), None);
}

#[test]
fn white_space_is_what_the_standard_library_says() {
    for c in '\0'..=char::MAX {
        assert_eq!(white_space(c), c.is_whitespace(), "{c:?}");
    }
    assert_eq!(trim("\u{a0} a b\u{3000}\n"), "a b");
    assert_eq!(trim(" \t "), "");
}

#[test]
fn texts_are_split_and_joined() {
    assert_eq!(split_once("a:b:c", ':'), Some(("a", "b:c")));
    assert_eq!(split_once("é:", ':'), Some(("é", "")));
    assert_eq!(split_once("abc", ':'), None);
    let list = vec!["a".to_string(), String::new(), "c".to_string()];
    assert_eq!(join(&list, ", "), list.join(", "));
    assert_eq!(join(&Vec::new(), ", "), "");
}

#[test]
fn numbers_are_written_as_usual() {
    for n in [0, 9, 10, 65535, u64::MAX] {
        assert_eq!(decimal_text(n), n.to_string());
        assert_eq!(hexadecimal_text(n), format!("{n:x}"));
    }
    for n in [0, -1, i32::MIN, i32::MAX] {
        assert_eq!(signed_text(n), n.to_string());
    }
    assert_eq!(right_align("5", 3), "  5");
    assert_eq!(right_align("1000", 3), "1000");
    assert_eq!(pad("ab", 4), "ab  ");
}

#[test]
fn numbers_are_read_as_usual() {
    for s in [
        "0", "00", "65535", "65536", "+1", "+", "-0", "-1", "", " 1", "1 ", "1_0", "٣", "99999999999",
    ] {
        assert_eq!(parse_u16(s), s.parse::<u16>().ok(), "{s:?}");
    }
}
