use include_dir::{Dir, DirEntry, File};
use neko::term::{self, cache_control, content_type};

const CORE: &[DirEntry<'static>] = &[DirEntry::File(File::new(
    "vendor/core/index.js",
    b"export {};",
))];

const VENDOR: &[DirEntry<'static>] = &[DirEntry::Dir(Dir::new("vendor/core", CORE))];

const ENTRIES: &[DirEntry<'static>] = &[
    DirEntry::Dir(Dir::new("vendor", VENDOR)),
    DirEntry::File(File::new("index.html", b"<!doctype html>")),
    DirEntry::File(File::new("cat.svg", b"<svg/>")),
];

fn asset(path: &str) -> Option<(&'static [u8], &'static str, &'static str)> {
    term::asset(&Dir::new("", ENTRIES), path)
}

#[test]
fn the_prefix_serves_the_page() {
    let (_, kind, cache) = asset("/__neko/term").unwrap();
    assert_eq!(kind, "text/html; charset=utf-8");
    assert_eq!(cache, "no-cache");
    assert!(asset("/__neko/term/").is_some());
}

#[test]
fn vendor_files_resolve_and_cache() {
    let (_, kind, cache) = asset("/__neko/term/vendor/core/index.js").unwrap();
    assert_eq!(kind, "text/javascript; charset=utf-8");
    assert_eq!(cache, "public, max-age=86400");
}

#[test]
fn unknown_and_escaping_paths_are_refused() {
    assert!(asset("/__neko/term/nope.js").is_none());
    assert!(asset("/__neko/term/../../Cargo.toml").is_none());
    assert!(asset("/somewhere/else").is_none());
}

#[test]
fn files_come_with_their_bytes() {
    assert_eq!(asset("/__neko/term").unwrap().0, b"<!doctype html>");
    assert_eq!(asset("/__neko/term/index.html").unwrap().0, b"<!doctype html>");
    let (bytes, kind, cache) = asset("/__neko/term//cat.svg").unwrap();
    assert_eq!(bytes, b"<svg/>");
    assert_eq!(kind, "image/svg+xml");
    assert_eq!(cache, "no-cache");
    assert!(asset("/__neko/term/vendor").is_none());
}

#[test]
fn kinds_and_caching_follow_the_name() {
    assert_eq!(content_type("a.b.css"), "text/css; charset=utf-8");
    assert_eq!(content_type("html"), "text/html; charset=utf-8");
    assert_eq!(content_type("a.wasm"), "application/octet-stream");
    assert_eq!(content_type("a.HTML"), "application/octet-stream");
    assert_eq!(cache_control("vendor/x"), "public, max-age=86400");
    assert_eq!(cache_control("vendors/x"), "no-cache");
}

#[test]
fn paths_under_the_prefix_name_files() {
    assert_eq!(term::asset_path("/__neko/term/a/b.js"), Some("a/b.js"));
    assert_eq!(term::asset_path("/__neko/ter"), None);
    assert_eq!(term::asset_path("/__neko/term///"), Some("index.html"));
}
