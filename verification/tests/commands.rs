use neko::calendar::fmt_time;
use neko::commands::{
    adopt_image, can_cut, check_free, clone, cloned_line, forget, free, gc, gc_line, gone, history,
    ls, now, removed_line, rm, short, unix_seconds, CommandError,
};
use neko::store::{Checkpoint, Computer, Store};

fn cp(store: &mut Store, id: &str, parent: Option<&str>) {
    store
        .add_checkpoint(id, parent, None, &format!("/img/{id}"), 1)
        .unwrap();
}

fn ids(list: &[Checkpoint]) -> Vec<String> {
    let mut ids: Vec<String> = list.iter().map(|c| c.id.clone()).collect();
    ids.sort();
    ids
}

#[test]
fn times_are_shown_in_utc() {
    assert_eq!(fmt_time(0), "1970-01-01 00:00");
    assert_eq!(fmt_time(951_782_400), "2000-02-29 00:00");
    assert_eq!(fmt_time(1_700_000_000), "2023-11-14 22:13");
    assert_eq!(fmt_time(-1), "1969-12-31 23:59");
    assert_eq!(fmt_time(4_107_542_399), "2100-02-28 23:59");
    assert_eq!(fmt_time(4_107_542_400), "2100-03-01 00:00");
    assert_eq!(fmt_time(-62_167_219_200), "0000-01-01 00:00");
    assert_eq!(fmt_time(-62_167_219_201), "-001-12-31 23:59");
    assert_eq!(fmt_time(253_402_300_800), "10000-01-01 00:00");
}

#[test]
fn shown_times_sort_as_the_times_do() {
    let moments = [
        -62_167_219_200,
        -1,
        0,
        59,
        60,
        86_399,
        86_400,
        951_782_400,
        253_402_300_799,
    ];
    for a in moments {
        for b in moments.into_iter().filter(|b| a <= *b) {
            assert_eq!(fmt_time(a).len(), 16);
            assert!(fmt_time(a) <= fmt_time(b));
            assert_eq!(
                fmt_time(a) == fmt_time(b),
                a.div_euclid(60) == b.div_euclid(60)
            );
        }
    }
}

#[test]
fn lookups_decide_what_is_refused() {
    let web = Computer {
        name: "web".to_string(),
        head_id: None,
        created_at: 0,
    };
    assert!(free(None, "web").is_ok());
    assert!(matches!(free(Some(web), "web"), Err(CommandError::NameTaken(n)) if n == "web"));
    assert!(gone(true, "web").is_ok());
    assert!(matches!(gone(false, "web"), Err(CommandError::NoSuchComputer(n)) if n == "web"));
}

#[test]
fn ids_are_tested_before_they_are_cut() {
    assert!(can_cut("0123456789ab"));
    assert!(can_cut("c1"));
    assert!(can_cut(""));
    assert!(can_cut("123456éa"));
    assert!(!can_cut("1234567éa"));
}

#[test]
fn the_clock_runs() {
    assert!(now() > 1_700_000_000);
    assert_eq!(unix_seconds(Some(5)), 5);
    assert_eq!(unix_seconds(None), 0);
    assert_eq!(unix_seconds(Some(i64::MAX as u64)), i64::MAX);
    assert_eq!(unix_seconds(Some(u64::MAX)), i64::MAX);
}

#[test]
fn ids_are_cut_short() {
    assert_eq!(short("0123456789ab"), "01234567");
    assert_eq!(short("c1"), "c1");
    assert_eq!(short(""), "");
    assert_eq!(short("123456éa"), "123456é");
}

#[test]
fn computers_are_listed_in_columns() {
    assert_eq!(ls(&Vec::new()), vec!["no computers yet"]);
    let list = vec![
        Computer {
            name: "web".to_string(),
            head_id: Some("0123456789ab".to_string()),
            created_at: 0,
        },
        Computer {
            name: "a-name-of-more-than-twenty".to_string(),
            head_id: None,
            created_at: 60,
        },
    ];
    assert_eq!(
        ls(&list),
        vec![
            "NAME                 STATE      CREATED            HEAD",
            "web                  stopped    1970-01-01 00:00   01234567",
            "a-name-of-more-than-twenty stopped    1970-01-01 00:01   -",
        ]
    );
}

#[test]
fn history_is_listed_line_by_line() {
    assert_eq!(
        history("web", &Vec::new()),
        vec!["web has no checkpoints yet"]
    );
    let list = vec![
        Checkpoint {
            id: "0123456789ab".to_string(),
            parent_id: Some("c1".to_string()),
            label: Some("ready".to_string()),
            created_at: 0,
            image_path: String::new(),
        },
        Checkpoint {
            id: "c1".to_string(),
            parent_id: None,
            label: None,
            created_at: 0,
            image_path: String::new(),
        },
    ];
    assert_eq!(
        history("web", &list),
        vec!["01234567  1970-01-01 00:00  ready", "c1  1970-01-01 00:00  "]
    );
}

#[test]
fn collecting_reclaims_what_leads_nowhere() {
    let mut s = Store::in_memory().unwrap();
    cp(&mut s, "c1", None);
    cp(&mut s, "c2", Some("c1"));
    cp(&mut s, "c3", Some("c1"));
    s.create_computer("web", Some("c2"), 1).unwrap();
    let dead = gc(&mut s).unwrap();
    assert_eq!(ids(&dead), vec!["c3"]);
    assert_eq!(dead[0].image_path, "/img/c3");
    assert_eq!(forget(&mut s, &dead).unwrap(), 1);
    assert_eq!(ids(&s.all_checkpoints().unwrap()), vec!["c1", "c2"]);
    assert!(gc(&mut s).unwrap().is_empty());
    assert_eq!(s.history("web").unwrap().len(), 2);
}

#[test]
fn removing_a_computer_reclaims_its_orphans() {
    let mut s = Store::in_memory().unwrap();
    cp(&mut s, "c1", None);
    cp(&mut s, "c2", Some("c1"));
    s.create_computer("web", Some("c2"), 1).unwrap();
    s.create_computer("base", Some("c1"), 1).unwrap();
    let dead = rm(&mut s, "web", false).unwrap();
    assert_eq!(ids(&dead), vec!["c2"]);
    assert!(s.get_computer("web").unwrap().is_none());
    assert!(rm(&mut s, "base", true).unwrap().is_empty());
    let e = rm(&mut s, "web", false).unwrap_err();
    assert_eq!(e.message().unwrap(), "no such computer: web");
    assert_eq!(s.all_checkpoints().unwrap().len(), 2);
}

#[test]
fn what_was_removed_is_said() {
    assert_eq!(
        removed_line("web", None),
        "removed computer web (checkpoints kept as orphans)"
    );
    assert_eq!(
        removed_line("web", Some(2)),
        "removed computer web, reclaimed 2 checkpoint(s)"
    );
    assert_eq!(gc_line(0), "nothing to prune");
    assert_eq!(gc_line(3), "pruned 3 checkpoint(s)");
}

#[test]
fn a_clone_shares_and_outlives_its_source() {
    let mut s = Store::in_memory().unwrap();
    cp(&mut s, "c1", None);
    cp(&mut s, "c2", Some("c1"));
    s.create_computer("web", Some("c2"), 1).unwrap();
    assert_eq!(clone(&mut s, "web", "copy", 9).unwrap(), "c2");
    assert_eq!(
        ids(&s.history("copy").unwrap()),
        ids(&s.history("web").unwrap())
    );
    assert_eq!(s.get_computer("copy").unwrap().unwrap().created_at, 9);
    let dead = rm(&mut s, "web", false).unwrap();
    assert!(dead.is_empty());
    assert_eq!(s.history("copy").unwrap().len(), 2);
}

#[test]
fn clones_need_a_free_name_and_a_source() {
    let mut s = Store::in_memory().unwrap();
    s.create_computer("web", None, 1).unwrap();
    let e = clone(&mut s, "web", "web", 1).unwrap_err();
    assert_eq!(e.message().unwrap(), "computer 'web' already exists");
    let e = clone(&mut s, "nowhere", "web", 1).unwrap_err();
    assert_eq!(e.message().unwrap(), "computer 'web' already exists");
    assert!(matches!(
        clone(&mut s, "web", "copy", 1),
        Err(CommandError::Store(_))
    ));
    assert!(check_free(&mut s, "copy").is_ok());
    assert!(matches!(
        check_free(&mut s, "web"),
        Err(CommandError::NameTaken(n)) if n == "web"
    ));
}

#[test]
fn an_image_becomes_a_root() {
    let mut s = Store::in_memory().unwrap();
    adopt_image(&mut s, "c1", "/img/c1", "web", 3, 4).unwrap();
    let web = s.get_computer("web").unwrap().unwrap();
    assert_eq!(web.head_id.as_deref(), Some("c1"));
    assert_eq!(web.created_at, 4);
    let root = s.get_checkpoint("c1").unwrap().unwrap();
    assert_eq!(root.parent_id, None);
    assert_eq!(root.label, None);
    assert_eq!(root.created_at, 3);
    assert!(adopt_image(&mut s, "c1", "/img/c1", "other", 3, 4).is_err());
    assert!(s.get_computer("other").unwrap().is_none());
}

#[test]
fn what_was_cloned_is_said() {
    assert_eq!(
        cloned_line(true, "disk.img", "web", "0123456789ab"),
        "cloned image disk.img -> computer web (root 01234567)"
    );
    assert_eq!(
        cloned_line(false, "web@ready", "copy", "c1"),
        "cloned web@ready -> computer copy (at c1)"
    );
}
