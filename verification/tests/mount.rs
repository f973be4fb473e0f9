use neko::mount::{self, HostPath, MountConfig, MountError};
use std::path::Path;

/// Parses a specification and looks its host path up.
fn parse(spec: &str) -> Result<MountConfig, MountError> {
    let asked = mount::parse(spec)?;
    let found = match Path::new(&asked.host).canonicalize() {
        Err(e) => HostPath::Unresolved(e.to_string()),
        Ok(path) if !path.is_dir() => HostPath::NotADirectory,
        Ok(path) => HostPath::Directory(path.to_string_lossy().into_owned()),
    };
    asked.resolve(found)
}

#[test]
fn a_mount_is_read_only_unless_it_asks_otherwise() {
    assert!(parse(".:/workspace").unwrap().read_only);
    assert!(parse(".:/workspace:ro").unwrap().read_only);
    assert!(!parse(".:/workspace:rw").unwrap().read_only);
}

#[test]
fn the_host_path_is_resolved_before_a_boot_is_spent() {
    let mount = parse(".:/src").unwrap();
    assert!(mount.host_path.starts_with('/'), "{}", mount.host_path);
    assert_eq!(mount.guest_path, "/src");
}

#[test]
fn a_trailing_slash_on_the_guest_path_is_forgiven() {
    assert_eq!(parse(".:/src/").unwrap().guest_path, "/src");
}

#[test]
fn mount_tests_whitespace_is_forgiven() {
    let mount = parse(" . : /src :rw").unwrap();
    assert_eq!(mount.guest_path, "/src");
    assert!(!mount.read_only);
}

#[test]
fn a_host_path_ending_in_a_mode_word_is_still_a_path() {
    // The mode is only the last field, so ":/rw" stays a guest path.
    assert_eq!(parse(".:/rw").unwrap().guest_path, "/rw");
}

#[test]
fn mount_tests_nonsense_is_refused_before_a_boot_is_spent() {
    for spec in [
        "",
        ".",
        "/workspace",
        ":/workspace",
        ".:workspace",
        ".:/",
        ".:/src:rwx",
        "./no-such-directory-here:/src",
    ] {
        assert!(parse(spec).is_err(), "expected {spec:?} to be refused");
    }
}

#[test]
fn refused_mounts_are_explained() {
    assert_eq!(
        parse(".").unwrap_err().message(),
        "mount needs HOST:GUEST, as in .:/workspace: ."
    );
    assert_eq!(
        parse(" :/workspace").unwrap_err().message(),
        "mount has no host path:  :/workspace"
    );
    assert_eq!(
        parse(".:workspace").unwrap_err().message(),
        "mount guest path must be absolute: .:workspace"
    );
    assert_eq!(
        parse(".://").unwrap_err().message(),
        "mount guest path must not be /: .://"
    );
    assert!(matches!(
        parse("./no-such-directory-here:/src").unwrap_err(),
        MountError::Unresolved { host, .. } if host == "./no-such-directory-here"
    ));
    let asked = mount::parse("file:/src").unwrap();
    assert_eq!(
        asked.resolve(HostPath::NotADirectory).unwrap_err().message(),
        "not a directory: file"
    );
    let asked = mount::parse("file:/src").unwrap();
    assert_eq!(
        asked
            .resolve(HostPath::Unresolved("gone".to_string()))
            .unwrap_err()
            .message(),
        "cannot mount file: gone"
    );
}

#[test]
fn a_host_path_may_hold_colons() {
    let asked = mount::parse("/a:b:/src:ro").unwrap();
    assert_eq!(asked.host, "/a:b");
    assert_eq!(asked.guest, "/src");
    assert!(asked.read_only);
}

#[test]
fn the_current_directory_lands_in_the_workspace() {
    let m = mount::current_dir("/home/me", true);
    assert_eq!(m.host_path, "/home/me");
    assert_eq!(m.guest_path, "/workspace");
    assert!(m.read_only);
    assert!(!mount::current_dir("/home/me", false).read_only);
}
