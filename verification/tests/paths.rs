use neko::paths::{
    after_links, base_image, checkpoint_image, data_dir, db_path, join, link_kind, needs_link,
    part_path, provision, version_text, Assets, Kind, Progress, Provision,
};
use std::path::Path;

fn assets(version: Option<&str>, image: bool, rootfs: bool) -> Assets {
    Assets {
        version: version.map(str::to_string),
        image,
        rootfs,
    }
}

#[test]
fn paths_are_joined_as_the_platform_joins_them() {
    for base in ["", "/", "/data", "/data/", "rel", "rel//", "é"] {
        for path in ["", "neko.db", "/abs", "a/b", "./x"] {
            assert_eq!(
                Path::new(&join(base, path)).as_os_str(),
                Path::new(base).join(path).as_os_str(),
                "{base:?} {path:?}"
            );
        }
    }
}

#[test]
fn the_data_directory_is_chosen() {
    assert_eq!(data_dir(Some("/x"), Some("/y")).unwrap(), "/x");
    assert_eq!(data_dir(None, Some("/y")).unwrap(), "/y/neko");
    assert_eq!(data_dir(Some(""), None).unwrap(), "");
    assert_eq!(
        data_dir(None, None).unwrap_err().message(),
        "no data directory on this platform"
    );
}

#[test]
fn the_index_and_the_images_have_their_places() {
    assert_eq!(db_path("/d"), "/d/neko.db");
    assert_eq!(checkpoint_image("/d", "abc"), "/d/checkpoints/abc.ext4");
    assert_ne!(checkpoint_image("/d", "abc"), checkpoint_image("/d", "abd"));
    assert_eq!(part_path("/d", "x.tar.gz"), "/d/x.tar.gz.part");
}

#[test]
fn a_complete_base_of_the_pinned_version_is_kept() {
    let own = assets(Some("0.6.4\n"), true, true);
    assert!(own.provisioned());
    assert_eq!(provision(&own, Some("0.6.4")), Provision::Ready);
    assert_eq!(version_text(), "0.6.4\n");
}

#[test]
fn anything_else_is_provisioned_again() {
    for own in [
        assets(Some("0.6.3\n"), true, true),
        assets(None, true, true),
        assets(Some("0.6.4"), false, true),
        assets(Some("0.6.4"), true, false),
    ] {
        assert!(!own.provisioned());
        assert_eq!(provision(&own, Some(" 0.6.4 ")), Provision::Link);
        assert_eq!(provision(&own, Some("0.6.5")), Provision::Download);
        assert_eq!(provision(&own, None), Provision::Download);
    }
    assert_eq!(after_links(&assets(None, true, true)), Provision::Adopt);
    assert_eq!(after_links(&assets(None, true, false)), Provision::Download);
}

#[test]
fn links_are_made_where_they_are_needed() {
    assert!(needs_link(false, true));
    assert!(!needs_link(true, true));
    assert!(!needs_link(false, false));
    assert_eq!(link_kind("rootfs.ext4"), Kind::Hardlink);
    assert_eq!(link_kind("Image"), Kind::Symlink);
    assert_eq!(link_kind("initramfs.cpio.gz"), Kind::Symlink);
}

#[test]
fn the_pinned_image_is_downloaded() {
    let (tag, tarball, url) = base_image();
    assert_eq!(tag, "v0.6.4");
    assert_eq!(tarball, "shuru-os-v0.6.4-aarch64.tar.gz");
    assert_eq!(
        url,
        "https://github.com/superhq-ai/shuru/releases/download/v0.6.4/shuru-os-v0.6.4-aarch64.tar.gz"
    );
}

#[test]
fn progress_is_drawn_in_place() {
    let p = Progress::new("base", Some(200), true);
    assert_eq!(
        p.draw(0, "0.0", "0.2"),
        "\rbase [------------------------]   0% (0.0/0.2 MB)"
    );
    assert_eq!(
        p.draw(100, "0.1", "0.2"),
        "\rbase [############------------]  50% (0.1/0.2 MB)"
    );
    assert_eq!(
        p.finish(500, "0.5", "0.2"),
        "\rbase [########################] 100% (0.5/0.2 MB)\n"
    );
}

#[test]
fn progress_is_logged_in_lines() {
    let p = Progress::new("base", Some(0), false);
    assert_eq!(p.draw(0, "", ""), "base 0%\n");
    assert_eq!(p.finish(1, "", ""), "base 100%\n");
    let p = Progress::new("base", None, false);
    assert_eq!(p.draw(7, "1.5", ""), "base 1.5 MB\n");
    let p = Progress::new("base", None, true);
    assert_eq!(p.draw(7, "1.5", ""), "\rbase 1.5 MB");
    assert_eq!(p.finish(7, "1.5", ""), "\rbase 1.5 MB\n");
}

#[test]
fn progress_is_worth_drawing_once_a_decile() {
    let mut p = Progress::new("base", Some(100), true);
    let drawn: Vec<u64> = (0..=100).filter(|done| p.update(*done)).collect();
    assert_eq!(drawn, vec![0, 10, 20, 30, 40, 50, 60, 70, 80, 90, 100]);
    let mut p = Progress::new("base", None, true);
    assert!(p.update(0));
    assert!(!p.update(4 * 1024 * 1024 - 1));
    assert!(p.update(4 * 1024 * 1024));
}
