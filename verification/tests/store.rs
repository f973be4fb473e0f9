use neko::store::{
    checkpoint_id, find_label, headed, known, labeled, moved, note, parent_of, placed, removed,
    step, Checkpoint, Computer, Store, StoreError,
};

fn cp(store: &mut Store, id: &str, parent: Option<&str>, label: Option<&str>) {
    store
        .add_checkpoint(id, parent, label, &format!("/img/{id}.ext4"), 1)
        .unwrap();
}

#[test]
fn computer_crud_and_head() {
    let mut s = Store::in_memory().unwrap();
    s.create_computer("alice", None, 1).unwrap();
    assert!(s.get_computer("alice").unwrap().is_some());
    cp(&mut s, "c1", None, None);
    s.set_head("alice", "c1").unwrap();
    assert_eq!(
        s.get_computer("alice").unwrap().unwrap().head_id.unwrap(),
        "c1"
    );
    assert_eq!(s.list_computers().unwrap().len(), 1);
    assert!(s.delete_computer("alice").unwrap());
    assert!(s.get_computer("alice").unwrap().is_none());
}

#[test]
fn history_walks_parent_chain() {
    let mut s = Store::in_memory().unwrap();
    cp(&mut s, "c1", None, None);
    cp(&mut s, "c2", Some("c1"), Some("clean"));
    cp(&mut s, "c3", Some("c2"), None);
    s.create_computer("alice", Some("c3"), 1).unwrap();
    let ids: Vec<_> = s
        .history("alice")
        .unwrap()
        .into_iter()
        .map(|c| c.id)
        .collect();
    assert_eq!(ids, vec!["c3", "c2", "c1"]);
}

#[test]
fn reachable_spans_all_computer_ancestries() {
    let mut s = Store::in_memory().unwrap();
    cp(&mut s, "c1", None, None);
    cp(&mut s, "c2", Some("c1"), None);
    cp(&mut s, "c3", Some("c2"), None); // alice head
    cp(&mut s, "c4", Some("c2"), None); // bob head, branch sharing c1/c2
    cp(&mut s, "c5", Some("c1"), None); // orphan: no computer points here
    s.create_computer("alice", Some("c3"), 1).unwrap();
    s.create_computer("bob", Some("c4"), 1).unwrap();

    let reachable = s.reachable_checkpoints().unwrap();
    let contains = |id: &str| reachable.iter().any(|r| r == id);
    assert!(["c1", "c2", "c3", "c4"].iter().all(|id| contains(id)));
    assert!(!contains("c5"));

    let dead: Vec<_> = s
        .all_checkpoints()
        .unwrap()
        .into_iter()
        .filter(|c| !contains(&c.id))
        .map(|c| c.id)
        .collect();
    assert_eq!(dead, vec!["c5"]);
    s.delete_checkpoints(&dead).unwrap();
    assert!(s.get_checkpoint("c5").unwrap().is_none());
    assert!(s.get_checkpoint("c1").unwrap().is_some());
}

#[test]
fn resolve_head_and_label() {
    let mut s = Store::in_memory().unwrap();
    cp(&mut s, "c1", None, None);
    cp(&mut s, "c2", Some("c1"), Some("clean"));
    s.create_computer("alice", Some("c2"), 1).unwrap();
    assert_eq!(s.resolve_ref("alice").unwrap().id, "c2");
    assert_eq!(s.resolve_ref("alice@clean").unwrap().id, "c2");
    assert!(s.resolve_ref("alice@missing").is_err());
    assert!(s.resolve_ref("ghost").is_err());
}

#[test]
fn rows_come_back_as_they_were_written() {
    let mut s = Store::in_memory().unwrap();
    s.add_checkpoint("c1", None, Some("first"), "/img/one", -7)
        .unwrap();
    s.add_checkpoint("c2", Some("c1"), None, "/img/two", 9)
        .unwrap();
    let one = s.get_checkpoint("c1").unwrap().unwrap();
    assert_eq!(one.id, "c1");
    assert_eq!(one.parent_id, None);
    assert_eq!(one.label.as_deref(), Some("first"));
    assert_eq!(one.image_path, "/img/one");
    assert_eq!(one.created_at, -7);
    let two = s.get_checkpoint("c2").unwrap().unwrap();
    assert_eq!(two.parent_id.as_deref(), Some("c1"));
    assert_eq!(two.label, None);
    assert_eq!(two.created_at, 9);
    s.create_computer("web", Some("c2"), 42).unwrap();
    let web = s.get_computer("web").unwrap().unwrap();
    assert_eq!(web.name, "web");
    assert_eq!(web.head_id.as_deref(), Some("c2"));
    assert_eq!(web.created_at, 42);
}

#[test]
fn names_and_ids_are_taken_once() {
    let mut s = Store::in_memory().unwrap();
    s.create_computer("web", None, 1).unwrap();
    assert!(matches!(
        s.create_computer("web", None, 2),
        Err(StoreError::Database(_))
    ));
    let web = s.get_computer("web").unwrap().unwrap();
    assert_eq!(web.head_id, None);
    assert_eq!(web.created_at, 1);
    cp(&mut s, "c1", None, None);
    assert!(matches!(
        s.add_checkpoint("c1", Some("c1"), None, "/img/x", 2),
        Err(StoreError::Database(_))
    ));
    assert_eq!(s.get_checkpoint("c1").unwrap().unwrap().parent_id, None);
    assert_eq!(s.all_checkpoints().unwrap().len(), 1);
}

#[test]
fn computers_are_listed_by_name() {
    let mut s = Store::in_memory().unwrap();
    for name in ["zoe", "Bob", "ann", "é", "a", ""] {
        s.create_computer(name, None, 1).unwrap();
    }
    let names: Vec<String> = s
        .list_computers()
        .unwrap()
        .into_iter()
        .map(|c| c.name)
        .collect();
    assert_eq!(names, vec!["", "Bob", "a", "ann", "zoe", "é"]);
}

#[test]
fn deleting_says_whether_there_was_something() {
    let mut s = Store::in_memory().unwrap();
    assert!(!s.delete_computer("ghost").unwrap());
    s.create_computer("web", None, 1).unwrap();
    s.create_computer("api", None, 1).unwrap();
    assert!(s.delete_computer("web").unwrap());
    assert!(!s.delete_computer("web").unwrap());
    assert_eq!(s.list_computers().unwrap().len(), 1);
}

#[test]
fn a_missing_computer_has_no_head_to_move() {
    let mut s = Store::in_memory().unwrap();
    cp(&mut s, "c1", None, None);
    let e = s.set_head("ghost", "c1").unwrap_err();
    assert!(matches!(&e, StoreError::NoSuchComputer(n) if n == "ghost"));
    assert_eq!(e.message().unwrap(), "no such computer: ghost");
    assert!(s.get_computer("ghost").unwrap().is_none());
}

#[test]
fn unresolved_references_are_explained() {
    let mut s = Store::in_memory().unwrap();
    s.create_computer("empty", None, 1).unwrap();
    cp(&mut s, "gone", None, None);
    s.create_computer("stray", Some("gone"), 1).unwrap();
    s.delete_checkpoints(&vec!["gone".to_string()]).unwrap();
    let said = |r: Result<Checkpoint, StoreError>| r.unwrap_err().message().unwrap();
    assert_eq!(said(s.resolve_ref("ghost")), "no such computer: ghost");
    assert_eq!(said(s.resolve_ref("ghost@x")), "no such computer: ghost");
    assert_eq!(
        said(s.resolve_ref("empty")),
        "computer 'empty' has no checkpoints yet"
    );
    assert_eq!(said(s.resolve_ref("stray")), "dangling head for 'stray'");
    assert_eq!(
        said(s.resolve_ref("empty@a@b")),
        "no checkpoint labeled 'a@b' in 'empty'"
    );
}

#[test]
fn a_label_means_the_newest_checkpoint_with_it() {
    let mut s = Store::in_memory().unwrap();
    cp(&mut s, "c1", None, Some("clean"));
    cp(&mut s, "c2", Some("c1"), Some("clean"));
    cp(&mut s, "c3", Some("c2"), None);
    s.create_computer("alice", Some("c3"), 1).unwrap();
    assert_eq!(s.resolve_ref("alice@clean").unwrap().id, "c2");
    let line = s.history("alice").unwrap();
    assert_eq!(find_label(line.clone(), "clean").unwrap().id, "c2");
    assert!(find_label(line, "dirty").is_none());
}

#[test]
fn a_line_ends_where_its_parent_is_gone() {
    let mut s = Store::in_memory().unwrap();
    cp(&mut s, "c1", None, None);
    cp(&mut s, "c2", Some("c1"), None);
    cp(&mut s, "c3", Some("c2"), None);
    s.create_computer("alice", Some("c3"), 1).unwrap();
    s.delete_checkpoints(&vec!["c1".to_string(), "nothing".to_string()])
        .unwrap();
    assert_eq!(s.history("alice").unwrap().len(), 2);
    assert_eq!(s.reachable_checkpoints().unwrap(), vec!["c3", "c2", "c1"]);
    s.create_computer("empty", None, 1).unwrap();
    assert!(s.history("empty").unwrap().is_empty());
}

#[test]
fn checkpoint_ids_are_hexadecimal() {
    assert_eq!(checkpoint_id(0), "000000000000");
    assert_eq!(checkpoint_id(0xabc), "000000000abc");
    assert_eq!(checkpoint_id(0x1122_3344_5566_7788), "22334455667788");
    assert_eq!(checkpoint_id(u64::MAX), "ffffffffffffff");
    let id = Store::new_checkpoint_id();
    assert!((12..=14).contains(&id.len()));
    assert!(id.chars().all(|c| matches!(c, '0'..='9' | 'a'..='f')));
    assert_ne!(id, Store::new_checkpoint_id());
}

#[test]
fn a_store_opens_by_its_path() {
    let mut s = Store::open(":memory:").unwrap();
    cp(&mut s, "c1", None, None);
    s.create_computer("web", Some("c1"), 1).unwrap();
    assert_eq!(s.resolve_ref("web").unwrap().id, "c1");
    assert!(matches!(
        s.add_checkpoint("c2", Some("gone"), None, "/img/c2", 1),
        Err(StoreError::Database(_))
    ));
    assert!(matches!(
        Store::open("/no/such/directory/neko.db"),
        Err(StoreError::Database(_))
    ));
}

#[test]
fn a_database_error_speaks_for_itself() {
    let mut s = Store::in_memory().unwrap();
    s.create_computer("web", None, 1).unwrap();
    assert_eq!(s.create_computer("web", None, 1).unwrap_err().message(), None);
}

#[test]
fn parents_and_children_are_deleted_in_any_order() {
    let mut s = Store::in_memory().unwrap();
    cp(&mut s, "c1", None, None);
    cp(&mut s, "c2", Some("c1"), None);
    cp(&mut s, "c3", Some("c2"), None);
    s.delete_checkpoints(&vec!["c1".to_string(), "c3".to_string()])
        .unwrap();
    let left: Vec<String> = s.all_checkpoints().unwrap().into_iter().map(|c| c.id).collect();
    assert_eq!(left, vec!["c2"]);
}

#[test]
fn references_are_checked_again_after_a_deletion() {
    let mut s = Store::open(":memory:").unwrap();
    cp(&mut s, "c1", None, None);
    s.create_computer("web", Some("c1"), 1).unwrap();
    s.delete_checkpoints(&vec!["c1".to_string()]).unwrap();
    s.delete_checkpoints(&Vec::new()).unwrap();
    assert!(s.create_computer("api", Some("c1"), 1).is_err());
    assert!(s.set_head("web", "c1").is_err());
    assert!(s.add_checkpoint("c2", Some("c1"), None, "/img/c2", 1).is_err());
    cp(&mut s, "c3", Some("c3"), None);
    s.set_head("web", "c3").unwrap();
}

#[test]
fn what_was_found_decides_the_answer() {
    let web = Computer {
        name: "web".to_string(),
        head_id: Some("c2".to_string()),
        created_at: 1,
    };
    let row = |id: &str, parent: Option<&str>, label: Option<&str>| Checkpoint {
        id: id.to_string(),
        parent_id: parent.map(str::to_string),
        label: label.map(str::to_string),
        created_at: 1,
        image_path: String::new(),
    };
    assert_eq!(known(Some(web), "web").unwrap().head_id.as_deref(), Some("c2"));
    assert!(matches!(known(None, "web"), Err(StoreError::NoSuchComputer(n)) if n == "web"));
    assert_eq!(headed(Some("c2".to_string()), "web").unwrap(), "c2");
    assert!(matches!(headed(None, "web"), Err(StoreError::NoCheckpoints(n)) if n == "web"));
    assert_eq!(placed(Some(row("c2", None, None)), "web").unwrap().id, "c2");
    assert!(matches!(placed(None, "web"), Err(StoreError::DanglingHead(n)) if n == "web"));
    let line = vec![row("c2", Some("c1"), None), row("c1", None, Some("ready"))];
    assert_eq!(labeled(line.clone(), "web", "ready").unwrap().id, "c1");
    assert!(matches!(
        labeled(line, "web", "x"),
        Err(StoreError::NoLabel { name, label }) if name == "web" && label == "x"
    ));
    assert!(moved(1, "web").is_ok());
    assert!(matches!(moved(0, "web"), Err(StoreError::NoSuchComputer(n)) if n == "web"));
    assert!(removed(1));
    assert!(!removed(0));
}

#[test]
fn lines_are_walked_step_by_step() {
    let row = |id: &str, parent: Option<&str>| Checkpoint {
        id: id.to_string(),
        parent_id: parent.map(str::to_string),
        label: None,
        created_at: 1,
        image_path: String::new(),
    };
    let mut out: Vec<Checkpoint> = Vec::new();
    assert_eq!(step(&mut out, Some(row("c2", Some("c1")))).as_deref(), Some("c1"));
    assert_eq!(step(&mut out, None), None);
    assert_eq!(step(&mut out, Some(row("c1", None))), None);
    assert_eq!(out.iter().map(|c| c.id.as_str()).collect::<Vec<_>>(), vec!["c2", "c1"]);
    assert_eq!(parent_of(Some(row("c2", Some("c1")))).as_deref(), Some("c1"));
    assert_eq!(parent_of(None), None);
    let mut seen: Vec<String> = Vec::new();
    assert!(note(&mut seen, "a"));
    assert!(note(&mut seen, "b"));
    assert!(!note(&mut seen, "a"));
    assert_eq!(seen, vec!["a", "b"]);
}

#[test]
fn the_reachable_is_what_the_histories_hold() {
    let mut s = Store::in_memory().unwrap();
    cp(&mut s, "c1", None, None);
    cp(&mut s, "c2", Some("c1"), None);
    cp(&mut s, "c3", Some("c1"), None);
    cp(&mut s, "c4", None, None);
    s.create_computer("a", Some("c2"), 1).unwrap();
    s.create_computer("b", Some("c3"), 1).unwrap();
    let mut held: Vec<String> = Vec::new();
    for c in s.list_computers().unwrap() {
        held.extend(s.history(&c.name).unwrap().into_iter().map(|c| c.id));
    }
    held.sort();
    held.dedup();
    let mut reachable = s.reachable_checkpoints().unwrap();
    reachable.sort();
    assert_eq!(reachable, held);
    assert_eq!(held, vec!["c1", "c2", "c3"]);
}
