use flate2::write::GzEncoder;
use flate2::Compression;
use neko::upgrade::{
    binary_entry, find_binary, latest_url, plan, platform, up_to_date_line, upgrading_line, Plan,
    UpgradeError,
};
use std::io::Write;

fn tarball(paths: &[&str]) -> Vec<u8> {
    let mut builder = tar::Builder::new(Vec::new());
    for path in paths {
        let mut header = tar::Header::new_gnu();
        header.set_size(4);
        header.set_mode(0o644);
        builder
            .append_data(&mut header, path, &b"data"[..])
            .unwrap();
    }
    builder.into_inner().unwrap()
}

fn gzip(bytes: &[u8]) -> Vec<u8> {
    let mut encoder = GzEncoder::new(Vec::new(), Compression::default());
    encoder.write_all(bytes).unwrap();
    encoder.finish().unwrap()
}

#[test]
fn releases_exist_for_some_platforms() {
    assert_eq!(platform("macos", "aarch64").unwrap(), "darwin-aarch64");
    assert_eq!(platform("linux", "aarch64").unwrap(), "linux-aarch64");
    assert_eq!(
        platform("linux", "x86_64").unwrap_err().message(),
        "no prebuilt neko for linux x86_64"
    );
    assert_eq!(
        latest_url(),
        "https://api.github.com/repos/superhq-ai/neko-computer/releases/latest"
    );
}

#[test]
fn the_latest_version_is_left_alone() {
    assert!(matches!(plan("0.4.0", "v0.4.0", "p"), Plan::UpToDate));
    assert!(matches!(plan("0.4.0", "0.4.0", "p"), Plan::UpToDate));
    assert_eq!(up_to_date_line("0.4.0"), "neko is up to date (0.4.0)");
}

#[test]
fn another_version_is_downloaded() {
    match plan("0.4.0", "v0.5.1", "linux-aarch64") {
        Plan::Replace {
            version,
            tarball,
            url,
        } => {
            assert_eq!(version, "0.5.1");
            assert_eq!(tarball, "neko-v0.5.1-linux-aarch64.tar.gz");
            assert_eq!(
                url,
                "https://github.com/superhq-ai/neko-computer/releases/download/v0.5.1/neko-v0.5.1-linux-aarch64.tar.gz"
            );
        }
        Plan::UpToDate => panic!("expected a download"),
    }
    assert_eq!(upgrading_line("0.4.0", "0.5.1"), "upgrading neko 0.4.0 -> 0.5.1");
}

#[test]
fn the_binary_is_found_in_its_archive() {
    let bytes = gzip(&tarball(&["README.md", "bin/neko", "neko"]));
    assert_eq!(binary_entry(&bytes).unwrap(), 1);
    let bytes = gzip(&tarball(&["neko-cli", "neko.txt"]));
    assert_eq!(
        binary_entry(&bytes).unwrap_err().message(),
        "release tarball did not contain a neko binary"
    );
    assert!(matches!(
        binary_entry(b"not an archive"),
        Err(UpgradeError::Damaged)
    ));
}

#[test]
fn damage_behind_the_binary_does_no_harm() {
    let whole = tarball(&["neko", "README.md"]);
    let cut = gzip(&whole[..1300]);
    assert_eq!(binary_entry(&cut).unwrap(), 0);
    let whole = tarball(&["README.md", "neko"]);
    let cut = gzip(&whole[..1300]);
    assert!(matches!(binary_entry(&cut), Err(UpgradeError::Damaged)));
}

#[test]
fn file_names_are_the_last_part_of_a_path() {
    let finds = |path: &str| find_binary(&vec![Some(path.as_bytes().to_vec())]).is_ok();
    for path in [
        "neko",
        "./neko",
        "a/b/neko",
        "/neko",
        "neko/",
        "a//neko/./",
        "\u{e9}/neko",
    ] {
        assert!(finds(path), "{path}");
        assert_eq!(
            std::path::Path::new(path).file_name().unwrap().to_str(),
            Some("neko")
        );
    }
    for path in ["", ".", "..", "neko/..", "/", "a/nekо", "Neko", "neko/x", "nekoo"] {
        assert!(!finds(path), "{path}");
        assert_ne!(
            std::path::Path::new(path).file_name().and_then(|n| n.to_str()),
            Some("neko")
        );
    }
    assert!(matches!(
        find_binary(&vec![None, Some(b"neko".to_vec())]),
        Err(UpgradeError::Damaged)
    ));
    assert!(matches!(find_binary(&Vec::new()), Err(UpgradeError::NoBinary)));
}
