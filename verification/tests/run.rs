use neko::commands;
use neko::forward::Mapping;
use neko::mount::current_dir;
use neko::run::{
    announce_policy, audience, boot, bridge, checkpoint_name, default_mount, forwarding_line,
    local_tunnel_line, mappings, networking, record_checkpoint, saved_line, start_of,
    started_line, tunnel_lines, visibility, workdir, RunArgs, RunError, Visibility,
};
use neko::store::{Checkpoint, Store, StoreError};

fn args() -> RunArgs {
    RunArgs {
        name: None,
        from: None,
        tunnel: None,
        ports: Vec::new(),
        subdomain: None,
        workspace: None,
        private: None,
        term: false,
        allow_net: false,
        allow_hosts: Vec::new(),
        mounts: Vec::new(),
        write: false,
        workdir: None,
        checkpoint: None,
        command: Vec::new(),
    }
}

fn texts(list: &[&str]) -> Vec<String> {
    list.iter().map(|s| s.to_string()).collect()
}

#[test]
fn ports_are_mapped_in_their_order() {
    assert_eq!(
        mappings(&texts(&["8000", "3000:80"])).unwrap(),
        vec![
            Mapping { host: 8000, guest: 8000 },
            Mapping { host: 3000, guest: 80 }
        ]
    );
    assert_eq!(
        mappings(&texts(&["1", "x", "y"])).unwrap_err().message(),
        "not a port number: x"
    );
    assert!(mappings(&Vec::new()).unwrap().is_empty());
}

#[test]
fn the_command_runs_in_the_first_mount() {
    let mounts = vec![current_dir("/here", true)];
    assert_eq!(workdir(None, &mounts), "/workspace");
    assert_eq!(workdir(Some("/tmp"), &mounts), "/tmp");
}

#[test]
fn naming_a_host_asks_for_networking() {
    assert!(!networking(false, &Vec::new()));
    assert!(networking(true, &Vec::new()));
    assert!(networking(false, &texts(&["example.com"])));
}

#[test]
fn privacy_needs_something_to_visit() {
    let v = visibility(&args()).ok().unwrap();
    assert!(v.private.is_none() && !v.opens_tunnel);
    let said = |a: &RunArgs| visibility(a).err().unwrap().message().unwrap();
    let mut a = args();
    a.private = Some(String::new());
    assert_eq!(said(&a), "--private requires --tunnel or --term");
    a.private = None;
    a.workspace = Some("acme".to_string());
    assert_eq!(said(&a), "--workspace requires --tunnel or --term");
    a.private = Some("acme".to_string());
    assert_eq!(said(&a), "--private requires --tunnel or --term");
    a.tunnel = Some(80);
    let v = visibility(&a).ok().unwrap();
    assert_eq!(v.private.as_deref(), Some("acme"));
    assert!(v.opens_tunnel);
}

#[test]
fn a_terminal_is_always_private() {
    let mut a = args();
    a.term = true;
    let v = visibility(&a).ok().unwrap();
    assert_eq!(v.private.as_deref(), Some(""));
    assert!(v.opens_tunnel);
    a.private = Some("acme".to_string());
    let v = visibility(&a).ok().unwrap();
    assert_eq!(v.private.as_deref(), Some("acme"));
}

#[test]
fn an_unnamed_boot_leaves_no_trace() {
    let mut s = Store::in_memory().unwrap();
    assert_eq!(boot(&mut s, None, None, 1).unwrap(), None);
    assert!(s.list_computers().unwrap().is_empty());
}

#[test]
fn a_new_name_becomes_a_computer() {
    let mut s = Store::in_memory().unwrap();
    assert_eq!(boot(&mut s, Some("web"), None, 7).unwrap(), None);
    let web = s.get_computer("web").unwrap().unwrap();
    assert_eq!(web.head_id, None);
    assert_eq!(web.created_at, 7);
}

#[test]
fn resuming_picks_up_what_was_kept_last() {
    let mut s = Store::in_memory().unwrap();
    boot(&mut s, Some("web"), None, 1).unwrap();
    record_checkpoint(&mut s, "web", "c1", None, Some("ready"), "/img/c1", 2).unwrap();
    assert_eq!(
        boot(&mut s, Some("web"), None, 3).unwrap().as_deref(),
        Some("c1")
    );
    record_checkpoint(&mut s, "web", "c2", Some("c1"), None, "/img/c2", 4).unwrap();
    assert_eq!(
        boot(&mut s, Some("web"), None, 5).unwrap().as_deref(),
        Some("c2")
    );
    assert_eq!(s.resolve_ref("web@ready").unwrap().id, "c1");
    let line: Vec<String> = s.history("web").unwrap().into_iter().map(|c| c.id).collect();
    assert_eq!(line, vec!["c2", "c1"]);
    assert_eq!(s.get_computer("web").unwrap().unwrap().created_at, 1);
}

#[test]
fn a_new_computer_may_start_from_another() {
    let mut s = Store::in_memory().unwrap();
    boot(&mut s, Some("web"), None, 1).unwrap();
    record_checkpoint(&mut s, "web", "c1", None, Some("ready"), "/img/c1", 2).unwrap();
    assert_eq!(
        boot(&mut s, Some("copy"), Some("web@ready"), 3)
            .unwrap()
            .as_deref(),
        Some("c1")
    );
    assert_eq!(
        s.get_computer("copy").unwrap().unwrap().head_id.as_deref(),
        Some("c1")
    );
    assert_eq!(
        boot(&mut s, None, Some("web"), 3).unwrap().as_deref(),
        Some("c1")
    );
    assert!(matches!(
        boot(&mut s, Some("other"), Some("ghost"), 3),
        Err(RunError::Store(StoreError::NoSuchComputer(_)))
    ));
    assert!(s.get_computer("other").unwrap().is_none());
}

#[test]
fn a_computer_may_start_from_its_own_label() {
    let mut s = Store::in_memory().unwrap();
    boot(&mut s, Some("web"), None, 1).unwrap();
    record_checkpoint(&mut s, "web", "c1", None, Some("ready"), "/img/c1", 2).unwrap();
    let start = boot(&mut s, Some("web"), Some("web@ready"), 3).unwrap();
    assert_eq!(start.as_deref(), Some("c1"));
    record_checkpoint(&mut s, "web", "c2", Some("c1"), None, "/img/c2", 4).unwrap();
    let start = boot(&mut s, Some("web"), Some("web@ready"), 5).unwrap();
    assert_eq!(start.as_deref(), Some("c1"));
    let web = s.get_computer("web").unwrap().unwrap();
    assert_eq!(web.head_id.as_deref(), Some("c2"));
}

#[test]
fn where_a_boot_starts_is_decided() {
    let cp = Checkpoint {
        id: "c1".to_string(),
        parent_id: None,
        label: None,
        created_at: 0,
        image_path: String::new(),
    };
    let head = Some("c2".to_string());
    assert_eq!(start_of(head.clone(), None).unwrap(), head);
    assert_eq!(start_of(None, None).unwrap(), None);
    assert_eq!(
        start_of(head.clone(), Some(Ok(cp))).unwrap().as_deref(),
        Some("c1")
    );
    let e = start_of(head, Some(Err(StoreError::NoCheckpoints("web".to_string())))).unwrap_err();
    assert_eq!(e.message().unwrap(), "computer 'web' has no checkpoints yet");
}

#[test]
fn an_empty_computer_may_be_seeded() {
    let mut s = Store::in_memory().unwrap();
    boot(&mut s, Some("web"), None, 1).unwrap();
    record_checkpoint(&mut s, "web", "c1", None, None, "/img/c1", 2).unwrap();
    s.create_computer("empty", None, 1).unwrap();
    assert_eq!(
        boot(&mut s, Some("empty"), Some("web"), 3).unwrap().as_deref(),
        Some("c1")
    );
    assert_eq!(s.get_computer("empty").unwrap().unwrap().head_id, None);
}

#[test]
fn a_checkpoint_needs_a_computer() {
    assert_eq!(checkpoint_name(Some("web")).unwrap(), "web");
    assert_eq!(
        checkpoint_name(None).unwrap_err().message().unwrap(),
        "--checkpoint requires a computer name"
    );
    let mut s = Store::in_memory().unwrap();
    assert!(matches!(
        record_checkpoint(&mut s, "ghost", "c1", None, None, "/img/c1", 1),
        Err(RunError::Store(StoreError::NoSuchComputer(n))) if n == "ghost"
    ));
}

#[test]
fn the_policy_is_announced() {
    let mounts = vec![current_dir("/a", true), current_dir("/b", false)];
    assert_eq!(
        announce_policy(&mounts, false, &Vec::new()),
        vec![
            "mounted /a at /workspace (read-only; writes stay in the sandbox)",
            "mounted /b at /workspace (read-write)",
            "networking: off (--allow-net to enable)"
        ]
    );
    assert_eq!(
        announce_policy(&Vec::new(), true, &Vec::new()),
        vec!["networking: on (any host)"]
    );
    assert_eq!(
        announce_policy(&Vec::new(), true, &texts(&["a.com", "b.com"])),
        vec!["networking: on (a.com, b.com)"]
    );
}

#[test]
fn what_runs_is_announced() {
    assert_eq!(
        forwarding_line(Mapping { host: 3000, guest: 8000 }),
        "forwarding http://127.0.0.1:3000 -> sandbox:8000"
    );
    assert_eq!(
        started_line(&texts(&["npm", "run", "dev"])),
        "started: npm run dev"
    );
    assert_eq!(started_line(&texts(&["ls"])), "started: ls");
}

#[test]
fn tunnels_are_announced() {
    assert_eq!(
        tunnel_lines(Some(8000), true, "web", "neko.computer", "acme members", true),
        vec![
            "(=^..^=)つ tunnel open: https://web.neko.computer -> sandbox:8000",
            "(=^..^=)つ terminal: https://web.neko.computer/__neko/term",
            "workspace: acme members · visibility: private",
            "press ctrl-c to stop"
        ]
    );
    assert_eq!(
        tunnel_lines(None, false, "web", "x", "w", false),
        vec!["workspace: w · visibility: public", "press ctrl-c to stop"]
    );
    assert_eq!(
        local_tunnel_line("swift-otter-h7kq", "neko.computer", 3000, None),
        "(=^..^=)つ tunnel open: https://swift-otter-h7kq.neko.computer -> 127.0.0.1:3000 (public)"
    );
    assert_eq!(
        local_tunnel_line("web", "x", 1, Some("acme members")),
        "(=^..^=)つ tunnel open: https://web.x -> 127.0.0.1:1 (private: acme members)"
    );
}

#[test]
fn kept_checkpoints_are_announced() {
    assert_eq!(
        saved_line("0123456789ab", Some("ready"), "web"),
        "checkpoint 01234567 (ready) saved for web"
    );
    assert_eq!(
        saved_line("0123456789ab", None, "web"),
        "checkpoint 01234567 saved for web"
    );
    assert_eq!(commands::short("0123456789ab"), "01234567");
}

#[test]
fn the_current_directory_is_mounted_by_default() {
    let mut a = args();
    assert_eq!(default_mount(&a), Some(true));
    a.write = true;
    assert_eq!(default_mount(&a), Some(false));
    a.mounts = texts(&["/src:/work"]);
    assert_eq!(default_mount(&a), None);
    a.write = false;
    assert_eq!(default_mount(&a), None);
}

#[test]
fn a_terminal_without_a_port_has_the_tunnel_to_itself() {
    let mut a = args();
    assert_eq!(bridge(&a), None);
    a.tunnel = Some(8000);
    assert_eq!(bridge(&a), None);
    a.term = true;
    assert_eq!(bridge(&a), Some(false));
    a.tunnel = None;
    assert_eq!(bridge(&a), Some(true));
}

#[test]
fn private_tunnels_are_for_their_workspace() {
    let mut seen = Visibility { private: Some("acme".to_string()), opens_tunnel: true };
    assert_eq!(audience(&seen, "org_1"), Some("org_1"));
    seen.private = None;
    assert_eq!(audience(&seen, "org_1"), None);
}
