//! Booting a computer: what is asked for, what is refused before a boot is
//! spent on it, where the boot starts from, and what is kept when it ends.

use crate::commands;
use crate::commands::short;
use crate::forward;
use crate::forward::{ForwardError, Mapping};
use crate::mount::MountConfig;
use crate::number;
use crate::number::decimal_text;
use crate::store;
use crate::store::{Checkpoint, ComputerRow, Store, StoreError};
use crate::text;
use crate::text::join;
use vstd::prelude::*;
use vstd::string::StringExecFns;
use vstd::utf8;

verus! {

broadcast use {vstd::string::group_string_axioms, crate::text::views_push};

/// What `neko run` was asked for.
pub struct RunArgs {
    pub name: Option<String>,
    pub from: Option<String>,
    pub tunnel: Option<u16>,
    pub ports: Vec<String>,
    pub subdomain: Option<String>,
    pub workspace: Option<String>,
    pub private: Option<String>,
    pub term: bool,
    pub allow_net: bool,
    pub allow_hosts: Vec<String>,
    pub mounts: Vec<String>,
    pub write: bool,
    pub workdir: Option<String>,
    pub checkpoint: Option<Option<String>>,
    pub command: Vec<String>,
}

/// Why a run is refused.
#[derive(Debug)]
pub enum RunError {
    PrivateWithoutTunnel,
    WorkspaceWithoutTunnel,
    CheckpointWithoutName,
    Store(StoreError),
}

impl RunError {
    /// The error as the user reads it; a database error speaks for itself.
    pub open spec fn text(self) -> Option<Seq<char>> {
        match self {
            RunError::PrivateWithoutTunnel => Some("--private requires --tunnel or --term"@),
            RunError::WorkspaceWithoutTunnel => Some("--workspace requires --tunnel or --term"@),
            RunError::CheckpointWithoutName => Some("--checkpoint requires a computer name"@),
            RunError::Store(e) => e.text(),
        }
    }

    /// The error as the user reads it; `None` for a database error.
    pub fn message(&self) -> (r: Option<String>)
        ensures
            text::text_of(r) == self.text(),
    {
        match self {
            RunError::PrivateWithoutTunnel => Some(
                "--private requires --tunnel or --term".to_owned(),
            ),
            RunError::WorkspaceWithoutTunnel => Some(
                "--workspace requires --tunnel or --term".to_owned(),
            ),
            RunError::CheckpointWithoutName => Some(
                "--checkpoint requires a computer name".to_owned(),
            ),
            RunError::Store(e) => e.message(),
        }
    }
}

// ---------------------------------------------------------------------------
// What is refused before a boot
// ---------------------------------------------------------------------------

/// A text that names a mapping of ports.
pub open spec fn is_mapping(port: Seq<char>) -> bool {
    exists|m: Mapping| forward::parses_to(port, Ok(m))
}

/// `r` is what the ports map to, in their order, or why the first bad one is
/// refused.
pub open spec fn maps_to(ports: Seq<String>, r: Result<Vec<Mapping>, ForwardError>) -> bool {
    match r {
        Ok(list) => {
            &&& list@.len() == ports.len()
            &&& forall|i: int|
                0 <= i < ports.len() ==> forward::parses_to(
                    (#[trigger] ports[i])@,
                    Ok(list@[i]),
                )
        },
        Err(e) => exists|i: int|
            {
                &&& 0 <= i < ports.len()
                &&& forward::parses_to((#[trigger] ports[i])@, Err(e))
                &&& forall|j: int| 0 <= j < i ==> is_mapping((#[trigger] ports[j])@)
            },
    }
}

/// What the ports map to.
pub fn mappings(ports: &Vec<String>) -> (r: Result<Vec<Mapping>, ForwardError>)
    ensures
        maps_to(ports@, r),
{
    let mut out: Vec<Mapping> = Vec::new();
    let mut i: usize = 0;
    while i < ports.len()
        invariant
            i <= ports.len(),
            out@.len() == i,
            forall|j: int|
                0 <= j < i ==> forward::parses_to((#[trigger] ports@[j])@, Ok(out@[j])),
        decreases ports.len() - i,
    {
        match forward::parse(ports[i].as_str()) {
            Ok(m) => {
                out.push(m);
            },
            Err(e) => {
                assert forall|j: int| 0 <= j < i implies is_mapping((#[trigger] ports@[j])@) by {
                    assert(forward::parses_to(ports@[j]@, Ok(out@[j])));
                }
                assert(forward::parses_to(ports@[i as int]@, Err(e)));
                return Err(e);
            },
        }
        i += 1;
    }
    Ok(out)
}

/// Whether the current directory is mounted, as it is where no mount is asked
/// for, and if so whether it is read-only.
pub fn default_mount(args: &RunArgs) -> (r: Option<bool>)
    ensures
        r == (if args.mounts@.len() == 0 {
            Some(!args.write)
        } else {
            None
        }),
{
    if args.mounts.len() == 0 {
        Some(!args.write)
    } else {
        None
    }
}

/// Whether a web terminal rides the tunnel, and if so whether nothing else
/// does.
pub fn bridge(args: &RunArgs) -> (r: Option<bool>)
    ensures
        r == (if args.term {
            Some(args.tunnel is None)
        } else {
            None
        }),
{
    if args.term {
        Some(args.tunnel.is_none())
    } else {
        None
    }
}

/// The directory that the command runs in: the one asked for, else where the
/// first mount lands.
pub fn workdir(asked: Option<&str>, mounts: &Vec<MountConfig>) -> (r: String)
    requires
        mounts@.len() > 0,
    ensures
        r@ == (match asked {
            Some(dir) => dir@,
            None => mounts@[0].guest_path@,
        }),
{
    match asked {
        Some(dir) => dir.to_owned(),
        None => mounts[0].guest_path.clone(),
    }
}

/// Whether the sandbox has networking. An allowlist is enforced by the proxy,
/// which only runs with networking on, so naming a host is a way of asking for
/// it.
pub fn networking(allow_net: bool, allow_hosts: &Vec<String>) -> (r: bool)
    ensures
        r == (allow_net || allow_hosts@.len() > 0),
{
    allow_net || allow_hosts.len() > 0
}

/// Who may see a run.
pub struct Visibility {
    /// The workspace whose members may visit, where visitors must be members
    /// of one; empty for the personal one.
    pub private: Option<String>,
    /// Whether there is a tunnel at all.
    pub opens_tunnel: bool,
}

/// The workspace whose members may visit. A web terminal is a shell into the
/// sandbox, so it asks for visitors that are signed in; on its own it means
/// the personal workspace.
pub open spec fn private_of(private: Option<Seq<char>>, term: bool) -> Option<Seq<char>> {
    match private {
        Some(selector) => Some(selector),
        None => if term {
            Some(Seq::empty())
        } else {
            None
        },
    }
}

/// `r` is who may see a run, or why what was asked for makes no sense.
pub open spec fn shows(
    tunnel: Option<u16>,
    term: bool,
    private: Option<Seq<char>>,
    workspace: Option<Seq<char>>,
    r: Result<Visibility, RunError>,
) -> bool {
    let opens = tunnel is Some || term;
    if private is Some && !opens {
        r matches Err(RunError::PrivateWithoutTunnel)
    } else if workspace is Some && !opens {
        r matches Err(RunError::WorkspaceWithoutTunnel)
    } else {
        r matches Ok(v) && text::text_of(v.private) == private_of(private, term) && v.opens_tunnel
            == opens
    }
}

/// Who may see a run.
pub fn visibility(args: &RunArgs) -> (r: Result<Visibility, RunError>)
    ensures
        shows(
            args.tunnel,
            args.term,
            text::text_of(args.private),
            text::text_of(args.workspace),
            r,
        ),
{
    let opens_tunnel = args.tunnel.is_some() || args.term;
    if args.private.is_some() && args.tunnel.is_none() && !args.term {
        return Err(RunError::PrivateWithoutTunnel);
    }
    if args.workspace.is_some() && !opens_tunnel {
        return Err(RunError::WorkspaceWithoutTunnel);
    }
    let private = match &args.private {
        Some(selector) => Some(selector.clone()),
        None => if args.term {
            proof {
                reveal_strlit("");
                assert(""@ =~= Seq::empty());
            }
            Some("".to_owned())
        } else {
            None
        },
    };
    Ok(Visibility { private, opens_tunnel })
}

/// The workspace whose members alone may visit, of the one that owns the tunnel.
pub fn audience<'a>(seen: &Visibility, org: &'a str) -> (r: Option<&'a str>)
    ensures
        match r {
            Some(o) => seen.private is Some && o@ == org@,
            None => seen.private is None,
        },
{
    match &seen.private {
        Some(_) => Some(org),
        None => None,
    }
}

/// A web terminal only ever rides a tunnel whose visitors are signed in.
pub proof fn terminals_are_private(
    tunnel: Option<u16>,
    private: Option<Seq<char>>,
    workspace: Option<Seq<char>>,
    v: Visibility,
)
    requires
        shows(tunnel, true, private, workspace, Ok(v)),
    ensures
        v.private is Some,
        v.opens_tunnel,
{
}

/// A run that asks for neither a tunnel nor a terminal opens no tunnel and
/// needs no account.
pub proof fn local_runs_stay_local(
    private: Option<Seq<char>>,
    workspace: Option<Seq<char>>,
    v: Visibility,
)
    requires
        shows(None, false, private, workspace, Ok(v)),
    ensures
        !v.opens_tunnel,
        v.private is None,
        private is None,
        workspace is None,
{
}

// ---------------------------------------------------------------------------
// Where a boot starts, and what it leaves behind
// ---------------------------------------------------------------------------

/// The checkpoint that a named computer is at, where there is such a computer
/// and it has one.
pub open spec fn head_of(computers: store::Computers, name: Option<Seq<char>>) -> Option<
    Seq<char>,
> {
    match name {
        Some(n) => if computers.contains_key(n) {
            computers[n].head
        } else {
            None
        },
        None => None,
    }
}

/// A named computer that does not exist yet.
pub open spec fn is_new(computers: store::Computers, name: Option<Seq<char>>) -> bool {
    name matches Some(n) && !computers.contains_key(n)
}

/// A reference means the checkpoint with an id.
pub open spec fn is_start(before: Store, reference: Seq<char>, id: Seq<char>) -> bool {
    exists|cp: Checkpoint|
        cp.id@ == id && #[trigger] store::resolves(before, reference, Ok(cp))
}

/// `r` is where a boot starts: at the checkpoint asked for, whatever the
/// computer's head; else at that head, if any.
pub open spec fn boots(
    before: Store,
    name: Option<Seq<char>>,
    from: Option<Seq<char>>,
    r: Result<Option<String>, RunError>,
) -> bool {
    match r {
        Ok(id) => match from {
            Some(reference) => id matches Some(id) && is_start(before, reference, id@),
            None => text::text_of(id) == head_of(before.computers(), name),
        },
        Err(RunError::Store(StoreError::Database(_))) => name is Some || from is Some,
        Err(RunError::Store(e)) => from matches Some(reference) && store::resolves(
            before,
            reference,
            Err(e),
        ),
        Err(_) => false,
    }
}

/// Where a boot starts, for the head of its computer and for what was found of
/// the checkpoint asked for, if one was.
pub fn start_of(
    head: Option<String>,
    from: Option<Result<Checkpoint, StoreError>>,
) -> (r: Result<Option<String>, RunError>)
    ensures
        r == (match from {
            None => Ok::<Option<String>, RunError>(head),
            Some(Ok(cp)) => Ok(Some(cp.id)),
            Some(Err(e)) => Err(RunError::Store(e)),
        }),
{
    match from {
        None => Ok(head),
        Some(Ok(cp)) => Ok(Some(cp.id)),
        Some(Err(e)) => Err(RunError::Store(e)),
    }
}

/// Finds where a boot starts, which is also the parent of any checkpoint that
/// it leaves, and gives a new computer its name.
pub fn boot(
    store: &mut Store,
    name: Option<&str>,
    from: Option<&str>,
    created_at: i64,
) -> (r: Result<Option<String>, RunError>)
    ensures
        final(store).follows(*old(store)),
        r is Err ==> final(store).unchanged_since(*old(store)),
        r matches Err(e) ==> e is Store,
        name is None && from is None ==> r == Ok::<Option<String>, RunError>(None),
        r matches Ok(id) ==> (from is None ==> text::text_of(id) == head_of(
            final(store).computers(),
            text::slice_of(name),
        )),
        from is Some && r is Ok ==> r->Ok_0 is Some,
        old(store).exclusive() ==> {
            &&& boots(*old(store), text::slice_of(name), text::slice_of(from), r)
            &&& r matches Ok(id) ==> if is_new(old(store).computers(), text::slice_of(name)) {
                store::computer_added(
                    *old(store),
                    *final(store),
                    name->Some_0@,
                    (ComputerRow { head: text::text_of(id), created_at }),
                )
            } else {
                final(store).unchanged_since(*old(store))
            }
        },
{
    let existing = match name {
        Some(n) => match store.get_computer(n) {
            Err(e) => return Err(RunError::Store(e)),
            Ok(found) => found,
        },
        None => None,
    };
    let known = existing.is_some();
    let head: Option<String> = match existing {
        Some(c) => c.head_id,
        None => None,
    };
    assert(old(store).exclusive() ==> text::text_of(head) == head_of(
        old(store).computers(),
        text::slice_of(name),
    ));
    let asked: Option<Result<Checkpoint, StoreError>> = match from {
        Some(reference) => Some(store.resolve_ref(reference)),
        None => None,
    };
    proof {
        if old(store).exclusive() && from is Some {
            assert(store::resolves(*old(store), from->Some_0@, asked->Some_0));
            if asked->Some_0 is Ok {
                let cp = asked->Some_0->Ok_0;
                assert(store::resolves(*old(store), from->Some_0@, Ok(cp)));
                assert(is_start(*old(store), from->Some_0@, cp.id@));
            }
        }
    }
    let start = match start_of(head, asked) {
        Err(e) => return Err(e),
        Ok(start) => start,
    };
    if let Some(n) = name {
        if !known {
            let head_id: Option<&str> = match &start {
                Some(id) => Some(id.as_str()),
                None => None,
            };
            match store.create_computer(n, head_id, created_at) {
                Err(e) => return Err(RunError::Store(e)),
                Ok(_) => {},
            }
        }
    }
    Ok(start)
}

/// The computer that a checkpoint is kept for.
pub fn checkpoint_name<'a>(name: Option<&'a str>) -> (r: Result<&'a str, RunError>)
    ensures
        match name {
            Some(n) => r matches Ok(m) && m@ == n@,
            None => r matches Err(RunError::CheckpointWithoutName),
        },
{
    match name {
        Some(n) => Ok(n),
        None => Err(RunError::CheckpointWithoutName),
    }
}

/// A checkpoint was added, and a computer was pointed at it.
pub open spec fn recorded(
    before: Store,
    after: Store,
    name: Seq<char>,
    id: Seq<char>,
    row: store::CheckpointRow,
) -> bool {
    &&& after.computers().contains_key(name)
    &&& after.computers()[name].head == Some(id)
    &&& before.exclusive() ==> {
        &&& before.computers().contains_key(name)
        &&& !before.checkpoints().contains_key(id)
        &&& after.checkpoints() == before.checkpoints().insert(id, row)
        &&& after.computers() == before.computers().insert(
            name,
            ComputerRow { head: Some(id), created_at: before.computers()[name].created_at },
        )
    }
}

/// Keeps a checkpoint for a computer: adds it to the index, and points the
/// computer at it.
pub fn record_checkpoint(
    store: &mut Store,
    name: &str,
    id: &str,
    parent: Option<&str>,
    label: Option<&str>,
    image_path: &str,
    created_at: i64,
) -> (r: Result<(), RunError>)
    ensures
        final(store).follows(*old(store)),
        match r {
            Ok(_) => recorded(
                *old(store),
                *final(store),
                name@,
                id@,
                store::checkpoint_row(parent, label, image_path, created_at),
            ),
            Err(RunError::Store(StoreError::NoSuchComputer(n))) => {
                &&& n@ == name@
                &&& !final(store).computers().contains_key(name@)
                &&& old(store).exclusive() ==> {
                    &&& final(store).computers() == old(store).computers()
                    &&& final(store).checkpoints() == old(store).checkpoints().insert(
                        id@,
                        store::checkpoint_row(parent, label, image_path, created_at),
                    )
                }
            },
            Err(e) => {
                &&& e is Store && e->Store_0 is Database
                &&& old(store).exclusive() ==> {
                    &&& final(store).computers() == old(store).computers()
                    &&& final(store).checkpoints() == old(store).checkpoints()
                        || final(store).checkpoints() == old(store).checkpoints().insert(
                        id@,
                        store::checkpoint_row(parent, label, image_path, created_at),
                    )
                }
            },
        },
{
    match store.add_checkpoint(id, parent, label, image_path, created_at) {
        Err(e) => return Err(RunError::Store(e)),
        Ok(_) => {},
    }
    match store.set_head(name, id) {
        Err(e) => Err(RunError::Store(e)),
        Ok(_) => Ok(()),
    }
}

/// Resuming a computer picks up its latest checkpoint: what was kept last is
/// where the next boot of the same name starts.
pub proof fn resuming_picks_up_the_latest(
    before: Store,
    after: Store,
    name: Seq<char>,
    id: Seq<char>,
    row: store::CheckpointRow,
    r: Option<String>,
)
    requires
        recorded(before, after, name, id, row),
        boots(after, Some(name), None, Ok(r)),
    ensures
        text::text_of(r) == Some(id),
{
}

/// A checkpoint that was kept with a label is what the computer's name with
/// that label means, until another one is kept with it.
pub proof fn kept_labels_resolve(
    before: Store,
    after: Store,
    name: Seq<char>,
    cp: Checkpoint,
    label: Seq<char>,
    found: Checkpoint,
)
    requires
        before.exclusive(),
        after.exclusive(),
        recorded(before, after, name, cp.id@, cp.row()),
        text::text_of(cp.label) == Some(label),
        !name.contains('@'),
        store::resolves(after, name + "@"@ + label, Ok(found)),
    ensures
        found.id@ == cp.id@,
        found.row() == cp.row(),
{
    reveal_strlit("@");
    let reference = name + "@"@ + label;
    text::split_at_separator(name, label, '@');
    assert(reference =~= name + seq!['@'] + label);
    assert(store::ref_parts(reference) == (name, Some(label)));
    let table = after.checkpoints();
    let head = after.computers()[name].head;
    let list = choose|list: Seq<Checkpoint>| #[trigger]
        store::is_line(table, head, list) && store::newest_labeled(list, label, found);
    assert(table.contains_pair(cp.id@, cp.row()));
    if list.len() == 0 {
        assert(store::cursor_at(head, list, 0) == Some(cp.id@));
        assert(false);
    }
    assert(store::cursor_at(head, list, 0) == Some(list[0].id@));
    assert(list[0].id@ == cp.id@);
    assert(table.contains_pair(list[0].id@, list[0].row()));
    assert(list[0].row() == cp.row());
    assert(text::text_of(list[0].label) == Some(label));
}

/// Keeping a checkpoint makes the history of a computer longer by one: the new
/// checkpoint stands before the line that its parent is the head of.
pub proof fn keeping_extends_history(
    before: Store,
    after: Store,
    name: Seq<char>,
    cp: Checkpoint,
    list: Seq<Checkpoint>,
)
    requires
        before.exclusive(),
        recorded(before, after, name, cp.id@, cp.row()),
        store::is_line(before.checkpoints(), cp.row().parent, list),
        store::cursor_at(cp.row().parent, list, list.len() as int) != Some(cp.id@),
    ensures
        store::is_line(
            after.checkpoints(),
            after.computers()[name].head,
            seq![cp] + list,
        ),
{
    let table = before.checkpoints();
    let grown = after.checkpoints();
    let line = seq![cp] + list;
    let head = after.computers()[name].head;
    assert forall|i: int| 0 <= i < line.len() implies grown.contains_pair(
        (#[trigger] line[i]).id@,
        line[i].row(),
    ) by {
        if i > 0 {
            assert(line[i] == list[i - 1]);
            assert(table.contains_pair(list[i - 1].id@, list[i - 1].row()));
        }
    }
    assert forall|i: int| 0 <= i < line.len() implies store::cursor_at(head, line, i) == Some(
        (#[trigger] line[i]).id@,
    ) by {
        if i > 0 {
            assert(line[i] == list[i - 1]);
            assert(store::cursor_at(cp.row().parent, list, i - 1) == Some(list[i - 1].id@));
            if i > 1 {
                assert(line[i - 1] == list[i - 2]);
            }
        }
    }
    if list.len() > 0 {
        assert(line[line.len() - 1] == list[list.len() - 1]);
    }
}

// ---------------------------------------------------------------------------
// What is printed
// ---------------------------------------------------------------------------

/// What is said of a mount.
pub open spec fn mount_text(m: MountConfig) -> Seq<char> {
    "mounted "@ + m.host_path@ + " at "@ + m.guest_path@ + " ("@ + (if m.read_only {
        "read-only; writes stay in the sandbox"@
    } else {
        "read-write"@
    }) + ")"@
}

/// What is said of networking.
pub open spec fn network_text(allow_net: bool, hosts: Seq<Seq<char>>) -> Seq<char> {
    if !allow_net {
        "networking: off (--allow-net to enable)"@
    } else if hosts.len() == 0 {
        "networking: on (any host)"@
    } else {
        "networking: on ("@ + text::joined_by(hosts, ", "@) + ")"@
    }
}

/// What the sandbox may touch, in lines.
pub open spec fn policy_text(
    mounts: Seq<MountConfig>,
    allow_net: bool,
    hosts: Seq<Seq<char>>,
) -> Seq<Seq<char>> {
    Seq::new(mounts.len(), |i: int| mount_text(mounts[i])).push(network_text(allow_net, hosts))
}

/// The line for a mount.
fn mount_line(m: &MountConfig) -> (r: String)
    ensures
        r@ == mount_text(*m),
{
    let mut s = "mounted ".to_owned();
    s.append(m.host_path.as_str());
    s.append(" at ");
    s.append(m.guest_path.as_str());
    s.append(" (");
    s.append(
        if m.read_only {
            "read-only; writes stay in the sandbox"
        } else {
            "read-write"
        },
    );
    s.append(")");
    s
}

/// What the sandbox may touch, printed at boot so it is still on screen when
/// the consequence arrives: an offline sandbox fails inside a package manager,
/// which has no way of knowing that a flag is the reason.
pub fn announce_policy(
    mounts: &Vec<MountConfig>,
    allow_net: bool,
    allow_hosts: &Vec<String>,
) -> (r: Vec<String>)
    ensures
        text::views(r@) == policy_text(mounts@, allow_net, text::views(allow_hosts@)),
{
    let ghost said = Seq::new(mounts@.len(), |i: int| mount_text(mounts@[i]));
    let mut out: Vec<String> = Vec::new();
    let mut i: usize = 0;
    assert(text::views(out@) =~= said.take(0));
    while i < mounts.len()
        invariant
            i <= mounts.len(),
            said == Seq::new(mounts@.len(), |i: int| mount_text(mounts@[i])),
            text::views(out@) == said.take(i as int),
        decreases mounts.len() - i,
    {
        out.push(mount_line(&mounts[i]));
        assert(said.take(i + 1) =~= said.take(i as int).push(mount_text(mounts@[i as int])));
        i += 1;
    }
    assert(said.take(mounts.len() as int) =~= said);
    let last = if !allow_net {
        "networking: off (--allow-net to enable)".to_owned()
    } else if allow_hosts.len() == 0 {
        "networking: on (any host)".to_owned()
    } else {
        let mut s = "networking: on (".to_owned();
        s.append(join(allow_hosts, ", ").as_str());
        s.append(")");
        s
    };
    out.push(last);
    out
}

/// What is said once a port is forwarded.
pub fn forwarding_line(map: Mapping) -> (r: String)
    ensures
        r@ == "forwarding http://127.0.0.1:"@ + number::decimal(map.host as nat) + " -> sandbox:"@
            + number::decimal(map.guest as nat),
{
    let mut s = "forwarding http://127.0.0.1:".to_owned();
    s.append(decimal_text(map.host as u64).as_str());
    s.append(" -> sandbox:");
    s.append(decimal_text(map.guest as u64).as_str());
    s
}

/// What is said once the command runs.
pub fn started_line(command: &Vec<String>) -> (r: String)
    ensures
        r@ == "started: "@ + text::joined_by(text::views(command@), " "@),
{
    let mut s = "started: ".to_owned();
    s.append(join(command, " ").as_str());
    s
}

/// Where a tunnel is reached.
pub open spec fn address(sub: Seq<char>, domain: Seq<char>) -> Seq<char> {
    "https://"@ + sub + "."@ + domain
}

/// Where a tunnel is reached.
fn address_text(sub: &str, domain: &str) -> (r: String)
    ensures
        r@ == address(sub@, domain@),
{
    let mut s = "https://".to_owned();
    s.append(sub);
    s.append(".");
    s.append(domain);
    s
}

/// What is said once the tunnel of a run is open: where its port and its
/// terminal are, if there are any, whose it is, and who may see it.
pub open spec fn tunnel_text(
    port: Option<u16>,
    term: bool,
    address: Seq<char>,
    workspace: Seq<char>,
    private: bool,
) -> Seq<Seq<char>> {
    let tunnel = match port {
        Some(port) => seq![
            "(=^..^=)つ tunnel open: "@ + address + " -> sandbox:"@ + number::decimal(port as nat),
        ],
        None => Seq::empty(),
    };
    let terminal = if term {
        seq!["(=^..^=)つ terminal: "@ + address + "/__neko/term"@]
    } else {
        Seq::empty()
    };
    tunnel + terminal + seq![
        "workspace: "@ + workspace + " · visibility: "@ + (if private {
            "private"@
        } else {
            "public"@
        }),
        "press ctrl-c to stop"@,
    ]
}

/// What is said once the tunnel of a run is open.
pub fn tunnel_lines(
    port: Option<u16>,
    term: bool,
    sub: &str,
    domain: &str,
    workspace: &str,
    private: bool,
) -> (r: Vec<String>)
    ensures
        text::views(r@) == tunnel_text(
            port,
            term,
            address(sub@, domain@),
            workspace@,
            private,
        ),
{
    let at = address_text(sub, domain);
    let mut out: Vec<String> = Vec::new();
    assert(text::views(out@) =~= Seq::empty());
    match port {
        Some(port) => {
            let mut s = "(=^..^=)つ tunnel open: ".to_owned();
            s.append(at.as_str());
            s.append(" -> sandbox:");
            s.append(decimal_text(port as u64).as_str());
            out.push(s);
        },
        None => {},
    }
    if term {
        let mut s = "(=^..^=)つ terminal: ".to_owned();
        s.append(at.as_str());
        s.append("/__neko/term");
        out.push(s);
    }
    let mut s = "workspace: ".to_owned();
    s.append(workspace);
    s.append(" · visibility: ");
    s.append(
        if private {
            "private"
        } else {
            "public"
        },
    );
    out.push(s);
    out.push("press ctrl-c to stop".to_owned());
    assert(text::views(out@) =~= tunnel_text(
        port,
        term,
        address(sub@, domain@),
        workspace@,
        private,
    ));
    out
}

/// What is said once the tunnel of a local port is open, with what to call the
/// members who may visit it, if it is not for everyone.
pub open spec fn local_tunnel_text(address: Seq<char>, port: u16, who: Option<Seq<char>>) -> Seq<
    char,
> {
    "(=^..^=)つ tunnel open: "@ + address + " -> 127.0.0.1:"@ + number::decimal(port as nat)
        + match who {
        Some(who) => " (private: "@ + who + ")"@,
        None => " (public)"@,
    }
}

/// What is said once the tunnel of a local port is open.
pub fn local_tunnel_line(sub: &str, domain: &str, port: u16, who: Option<&str>) -> (r: String)
    ensures
        r@ == local_tunnel_text(address(sub@, domain@), port, text::slice_of(who)),
{
    let mut s = "(=^..^=)つ tunnel open: ".to_owned();
    s.append(address_text(sub, domain).as_str());
    s.append(" -> 127.0.0.1:");
    s.append(decimal_text(port as u64).as_str());
    let ghost start = s@;
    match who {
        Some(who) => {
            s.append(" (private: ");
            s.append(who);
            s.append(")");
            assert(s@ =~= start + (" (private: "@ + who@ + ")"@));
        },
        None => {
            s.append(" (public)");
        },
    }
    s
}

/// What is said once a checkpoint is kept.
pub open spec fn saved_text(id: Seq<char>, label: Option<Seq<char>>, name: Seq<char>) -> Seq<
    char,
> {
    match label {
        Some(label) => "checkpoint "@ + commands::short_id(id) + " ("@ + label + ") saved for "@
            + name,
        None => "checkpoint "@ + commands::short_id(id) + " saved for "@ + name,
    }
}

/// What is said once a checkpoint is kept.
pub fn saved_line(id: &str, label: Option<&str>, name: &str) -> (r: String)
    requires
        commands::cuttable(id@),
        utf8::encode_utf8(id@).len() >= 8,
    ensures
        r@ == saved_text(id@, text::slice_of(label), name@),
{
    let mut s = "checkpoint ".to_owned();
    s.append(short(id));
    match label {
        Some(label) => {
            s.append(" (");
            s.append(label);
            s.append(") saved for ");
        },
        None => {
            s.append(" saved for ");
        },
    }
    s.append(name);
    s
}

/// A run of a computer that keeps a checkpoint starts at the head and leaves
/// one new checkpoint behind it: the new one is the head, the history is the
/// old one with the new one before it, and no older checkpoint is changed.
pub proof fn kept_runs_extend_history(
    before: Store,
    after: Store,
    name: Seq<char>,
    head: Seq<char>,
    start: Option<String>,
    cp: Checkpoint,
    list: Seq<Checkpoint>,
)
    requires
        before.exclusive(),
        head_of(before.computers(), Some(name)) == Some(head),
        boots(before, Some(name), None, Ok(start)),
        recorded(before, after, name, cp.id@, cp.row()),
        cp.row().parent == text::text_of(start),
        store::is_line(before.checkpoints(), before.computers()[name].head, list),
        store::cursor_at(Some(head), list, list.len() as int) != Some(cp.id@),
    ensures
        text::text_of(start) == Some(head),
        cp.row().parent == Some(head),
        after.computers()[name].head == Some(cp.id@),
        store::is_line(after.checkpoints(), after.computers()[name].head, seq![cp] + list),
        after.checkpoints() == before.checkpoints().insert(cp.id@, cp.row()),
        !before.checkpoints().contains_key(cp.id@),
{
    keeping_extends_history(before, after, name, cp, list);
}

/// A computer may be booted from any checkpoint of its own history: a label in
/// it is where the boot starts, whatever the computer's head.
pub proof fn computers_boot_from_their_own_labels(
    before: Store,
    name: Seq<char>,
    label: Seq<char>,
    list: Seq<Checkpoint>,
    i: int,
    r: Result<Option<String>, RunError>,
)
    requires
        before.exclusive(),
        !name.contains('@'),
        before.computers().contains_key(name),
        store::is_line(before.checkpoints(), before.computers()[name].head, list),
        store::newest_at(list, label, i),
        boots(before, Some(name), Some(name + "@"@ + label), r),
    ensures
        r matches Ok(start) ==> text::text_of(start) == Some(list[i].id@),
        r matches Err(e) ==> e is Store && e->Store_0 is Database,
{
    let reference = name + "@"@ + label;
    match r {
        Ok(start) => {
            let id = start->Some_0@;
            let cp = choose|cp: Checkpoint|
                cp.id@ == id && #[trigger] store::resolves(before, reference, Ok(cp));
            store::labels_mean_the_newest(before, name, label, list, Ok(cp));
            let j = choose|j: int| #[trigger]
                store::newest_at(list, label, j) && cp.id@ == list[j].id@ && cp.row()
                    == list[j].row();
            assert(i == j) by {
                if i < j {
                    assert(list[i].row().label != Some(label));
                } else if j < i {
                    assert(list[j].row().label != Some(label));
                }
            }
        },
        Err(RunError::Store(e)) => {
            if !(e is Database) {
                store::labels_mean_the_newest(before, name, label, list, Err(e));
                assert(list[i].row().label != Some(label));
            }
        },
        Err(_) => {},
    }
}

// ---------------------------------------------------------------------------
// Laws
// ---------------------------------------------------------------------------

/// A run that was asked to be private is private, for just the workspace that
/// was named. The bare flag, which names none, is no exception, nor is a run
/// that has a terminal.
pub proof fn private_runs_are_private(args: &RunArgs, r: Result<Visibility, RunError>)
    requires
        call_ensures(visibility, (args,), r),
        r is Ok,
        args.private is Some,
    ensures
        r->Ok_0.private is Some,
        r->Ok_0.private->Some_0@ == args.private->Some_0@,
        r->Ok_0.opens_tunnel,
{
}

/// A run that was not asked to be private is public, unless it has a terminal;
/// then it is private, for the personal workspace.
pub proof fn other_runs_are_public(args: &RunArgs, r: Result<Visibility, RunError>)
    requires
        call_ensures(visibility, (args,), r),
        r is Ok,
        args.private is None,
    ensures
        r->Ok_0.private is Some <==> args.term,
        args.term ==> r->Ok_0.private->Some_0@.len() == 0,
{
}

/// A run opens a tunnel exactly where it has a port or a terminal to put on
/// one; what was asked of a tunnel is refused where there is none, and nothing
/// else is.
pub proof fn tunnels_are_asked_for(args: &RunArgs, r: Result<Visibility, RunError>)
    requires
        call_ensures(visibility, (args,), r),
    ensures
        ({
            let opens = args.tunnel is Some || args.term;
            &&& r is Err <==> !opens && (args.private is Some || args.workspace is Some)
            &&& r matches Ok(v) ==> v.opens_tunnel == opens
            &&& r matches Err(e) ==> if args.private is Some {
                e is PrivateWithoutTunnel
            } else {
                e is WorkspaceWithoutTunnel
            }
        }),
{
}

/// Only what is asked for is mounted; where nothing is, the current directory
/// is, and the sandbox may write to it only where that was asked for.
pub proof fn default_mounts_are_safe(args: &RunArgs, r: Option<bool>)
    requires
        call_ensures(default_mount, (args,), r),
    ensures
        r is Some <==> args.mounts@.len() == 0,
        r matches Some(read_only) ==> (read_only <==> !args.write),
{
}

/// A terminal rides the tunnel where one was asked for, and has it to itself
/// where no port was.
pub proof fn terminals_share_with_ports(args: &RunArgs, r: Option<bool>)
    requires
        call_ensures(bridge, (args,), r),
    ensures
        r is Some <==> args.term,
        r matches Some(alone) ==> (alone <==> args.tunnel is None),
{
}

/// A command runs where it was asked to, else where the first mount lands,
/// whatever else is mounted.
pub proof fn commands_run_where_asked(
    asked: Option<&str>,
    mounts: &Vec<MountConfig>,
    r: String,
)
    requires
        mounts@.len() > 0,
        call_ensures(workdir, (asked, mounts), r),
    ensures
        asked matches Some(dir) ==> r@ == dir@,
        asked is None ==> r@ == mounts@[0].guest_path@,
{
}

/// A sandbox is offline exactly where neither networking nor a host was asked
/// for.
pub proof fn sandboxes_are_offline_unless_asked(allow_net: bool, hosts: &Vec<String>, r: bool)
    requires
        call_ensures(networking, (allow_net, hosts), r),
    ensures
        !r <==> !allow_net && hosts@.len() == 0,
{
}

/// A private tunnel is for the workspace that owns it, and a public one for
/// everyone.
pub proof fn audiences_own_their_tunnel(seen: &Visibility, org: &str, r: Option<&str>)
    requires
        call_ensures(audience, (seen, org), r),
    ensures
        r is Some <==> seen.private is Some,
        r matches Some(o) ==> o@ == org@,
{
}

/// Every port that was asked for is mapped as it is written, in the order in
/// which it was asked for.
pub proof fn ports_are_mapped_as_written(
    ports: &Vec<String>,
    list: Vec<Mapping>,
    i: int,
    host: u16,
    guest: u16,
)
    requires
        call_ensures(mappings, (ports,), Ok(list)),
        0 <= i < ports@.len(),
        host != 0,
        guest != 0,
        ports@[i]@ == number::decimal(host as nat) + ":"@ + number::decimal(guest as nat) || host
            == guest && ports@[i]@ == number::decimal(host as nat),
    ensures
        list@.len() == ports@.len(),
        list@[i].host == host,
        list@[i].guest == guest,
{
    let m = Mapping { host, guest };
    if ports@[i]@ == number::decimal(host as nat) {
        if host == guest {
            forward::lone_port_maps_to_itself(host, Ok(list@[i]));
        } else {
            forward::written_mapping_parses_back(m, Ok(list@[i]));
        }
    } else {
        forward::written_mapping_parses_back(m, Ok(list@[i]));
    }
}

/// Ports are refused only for one that is refused by itself, and with what is
/// said of it.
pub proof fn bad_ports_are_refused(ports: &Vec<String>, r: Result<Vec<Mapping>, ForwardError>)
    requires
        call_ensures(mappings, (ports,), r),
    ensures
        r matches Err(e) ==> exists|i: int|
            0 <= i < ports@.len() && #[trigger] forward::parses_to(ports@[i]@, Err(e)),
        r is Ok ==> forall|i: int| 0 <= i < ports@.len() ==> is_mapping((#[trigger] ports@[i])@),
{
    match r {
        Ok(list) => {
            assert forall|i: int| 0 <= i < ports@.len() implies is_mapping(
                (#[trigger] ports@[i])@,
            ) by {
                assert(forward::parses_to(ports@[i]@, Ok(list@[i])));
            }
        },
        Err(e) => {
            let i = choose|i: int|
                {
                    &&& 0 <= i < ports@.len()
                    &&& forward::parses_to((#[trigger] ports@[i])@, Err(e))
                    &&& forall|j: int| 0 <= j < i ==> is_mapping((#[trigger] ports@[j])@)
                };
            assert(forward::parses_to(ports@[i]@, Err(e)));
        },
    }
}

/// A boot starts at the checkpoint that was asked for where one was, else at
/// the head of its computer; what kept the checkpoint from being found is
/// handed on.
pub proof fn boots_start_where_asked(
    head: Option<String>,
    cp: Checkpoint,
    e: StoreError,
    plain: Result<Option<String>, RunError>,
    asked: Result<Option<String>, RunError>,
    missing: Result<Option<String>, RunError>,
)
    requires
        call_ensures(start_of, (head, None), plain),
        call_ensures(start_of, (head, Some(Ok(cp))), asked),
        call_ensures(start_of, (head, Some(Err(e))), missing),
    ensures
        plain matches Ok(id) && id == head,
        asked matches Ok(Some(id)) && id@ == cp.id@,
        missing matches Err(RunError::Store(why)) && why == e,
{
}

/// A checkpoint is kept for the computer that was named, and for none without a
/// name.
pub proof fn checkpoints_need_a_name(name: Option<&str>, r: Result<&str, RunError>)
    requires
        call_ensures(checkpoint_name, (name,), r),
    ensures
        r is Ok <==> name is Some,
        r matches Ok(n) ==> n@ == name->Some_0@,
        r matches Err(e) ==> e is CheckpointWithoutName,
{
}

/// Each mount is announced in its own line, by both paths and by whether the
/// sandbox may write to it; the line of a mount depends on that mount alone.
pub proof fn mounts_are_announced_in_order(
    mounts: &Vec<MountConfig>,
    allow_net: bool,
    hosts: &Vec<String>,
    r: Vec<String>,
    i: int,
)
    requires
        call_ensures(announce_policy, (mounts, allow_net, hosts), r),
        0 <= i < mounts@.len(),
    ensures
        r@.len() == mounts@.len() + 1,
        mounts@[i].read_only ==> r@[i]@ == "mounted "@ + mounts@[i].host_path@ + " at "@
            + mounts@[i].guest_path@ + " ("@ + "read-only; writes stay in the sandbox"@ + ")"@,
        !mounts@[i].read_only ==> r@[i]@ == "mounted "@ + mounts@[i].host_path@ + " at "@
            + mounts@[i].guest_path@ + " ("@ + "read-write"@ + ")"@,
{
    assert(text::views(r@).len() == r@.len());
    assert(text::views(r@)[i] == r@[i]@);
}

/// What is announced last is networking: that it is off, or on for any host, or
/// on for the hosts that were named, all of them in their order.
pub proof fn networking_is_announced_last(
    mounts: &Vec<MountConfig>,
    allow_net: bool,
    hosts: &Vec<String>,
    named: String,
    r: Vec<String>,
)
    requires
        call_ensures(announce_policy, (mounts, allow_net, hosts), r),
        call_ensures(join, (hosts, ", "), named),
    ensures
        r@.len() == mounts@.len() + 1,
        !allow_net ==> r@.last()@ == "networking: off (--allow-net to enable)"@,
        allow_net && hosts@.len() == 0 ==> r@.last()@ == "networking: on (any host)"@,
        allow_net && hosts@.len() > 0 ==> r@.last()@ == "networking: on ("@ + named@ + ")"@,
{
    assert(text::views(r@).len() == r@.len());
    assert(text::views(r@).last() == r@.last()@);
    assert(text::views(hosts@).len() == hosts@.len());
}

/// A forwarded port is announced with both of its ends, this machine's first.
pub proof fn forwards_name_both_ends(map: Mapping, r: String)
    requires
        call_ensures(forwarding_line, (map,), r),
    ensures
        r@ == "forwarding http://127.0.0.1:"@ + number::decimal(map.host as nat) + " -> sandbox:"@
            + number::decimal(map.guest as nat),
{
}

/// A command is announced with all of its words, between spaces.
pub proof fn commands_are_announced_whole(command: &Vec<String>, words: String, r: String)
    requires
        call_ensures(started_line, (command,), r),
        call_ensures(join, (command, " "), words),
    ensures
        r@ == "started: "@ + words@,
{
}

/// An open tunnel is announced by its port where it has one, by its terminal
/// where it has one, and always by its workspace and by who may see it.
pub proof fn tunnels_are_announced(
    port: Option<u16>,
    term: bool,
    sub: &str,
    domain: &str,
    workspace: &str,
    private: bool,
    r: Vec<String>,
)
    requires
        call_ensures(tunnel_lines, (port, term, sub, domain, workspace, private), r),
    ensures
        ({
            let at = "https://"@ + sub@ + "."@ + domain@;
            let n = (if port is Some {
                1int
            } else {
                0
            }) + (if term {
                1int
            } else {
                0
            });
            &&& r@.len() == n + 2
            &&& port matches Some(p) ==> r@[0]@ == "(=^..^=)つ tunnel open: "@ + at
                + " -> sandbox:"@ + number::decimal(p as nat)
            &&& term ==> r@[n - 1]@ == "(=^..^=)つ terminal: "@ + at + "/__neko/term"@
            &&& private ==> r@[n]@ == "workspace: "@ + workspace@ + " · visibility: "@
                + "private"@
            &&& !private ==> r@[n]@ == "workspace: "@ + workspace@ + " · visibility: "@
                + "public"@
            &&& r@[n + 1]@ == "press ctrl-c to stop"@
        }),
{
    let lines = text::views(r@);
    assert(lines.len() == r@.len());
    assert forall|i: int| 0 <= i < r@.len() implies lines[i] == (#[trigger] r@[i])@ by {}
}

/// The tunnel of a local port is announced with its port, and as public exactly
/// where it is not for the members of a workspace.
pub proof fn local_tunnels_are_announced(
    sub: &str,
    domain: &str,
    port: u16,
    who: Option<&str>,
    r: String,
)
    requires
        call_ensures(local_tunnel_line, (sub, domain, port, who), r),
    ensures
        ({
            let start = "(=^..^=)つ tunnel open: "@ + ("https://"@ + sub@ + "."@ + domain@)
                + " -> 127.0.0.1:"@ + number::decimal(port as nat);
            &&& who matches Some(w) ==> r@ == start + (" (private: "@ + w@ + ")"@)
            &&& who is None ==> r@ == start + " (public)"@
        }),
{
}

/// A kept checkpoint is announced by its short id, its label where it has one,
/// and its computer.
pub proof fn kept_checkpoints_are_announced(
    id: &str,
    label: Option<&str>,
    name: &str,
    cut: &str,
    r: String,
)
    requires
        call_ensures(saved_line, (id, label, name), r),
        call_ensures(short, (id,), cut),
    ensures
        label matches Some(l) ==> r@ == "checkpoint "@ + cut@ + " ("@ + l@ + ") saved for "@ + name@,
        label is None ==> r@ == "checkpoint "@ + cut@ + " saved for "@ + name@,
{
}

/// A refusal says what was missing.
pub proof fn refusals_say_what_is_missing(
    private: Option<String>,
    workspace: Option<String>,
    name: Option<String>,
)
    requires
        call_ensures(RunError::message, (&RunError::PrivateWithoutTunnel,), private),
        call_ensures(RunError::message, (&RunError::WorkspaceWithoutTunnel,), workspace),
        call_ensures(RunError::message, (&RunError::CheckpointWithoutName,), name),
    ensures
        private matches Some(s) && s@ == "--private requires --tunnel or --term"@,
        workspace matches Some(s) && s@ == "--workspace requires --tunnel or --term"@,
        name matches Some(s) && s@ == "--checkpoint requires a computer name"@,
{
}

/// Without a reference, a boot starts at the head of its computer, and at
/// nothing where there is no such computer, it has no head, or none was named.
pub proof fn plain_boots_start_at_the_head(
    before: Store,
    name: Option<Seq<char>>,
    r: Option<String>,
)
    requires
        boots(before, name, None, Ok(r)),
    ensures
        name is None ==> r is None,
        name matches Some(n) ==> {
            &&& before.computers().contains_key(n) ==> text::text_of(r)
                == before.computers()[n].head
            &&& !before.computers().contains_key(n) ==> r is None
        },
{
}

/// A boot from another computer starts at that one's head, whatever its own
/// computer is at.
pub proof fn boots_from_a_computer_start_at_its_head(
    before: Store,
    name: Option<Seq<char>>,
    source: Seq<char>,
    r: Option<String>,
)
    requires
        before.exclusive(),
        !source.contains('@'),
        boots(before, name, Some(source), Ok(r)),
    ensures
        before.computers().contains_key(source),
        r is Some,
        text::text_of(r) == before.computers()[source].head,
        before.checkpoints().contains_key(r->Some_0@),
{
    let id = r->Some_0@;
    let cp = choose|cp: Checkpoint|
        cp.id@ == id && #[trigger] store::resolves(before, source, Ok(cp));
}

/// Keeping a checkpoint moves the head of one computer and adds one checkpoint:
/// every other computer and every older checkpoint is as it was.
pub proof fn keeping_touches_one_computer(
    before: Store,
    after: Store,
    name: Seq<char>,
    id: Seq<char>,
    row: store::CheckpointRow,
    other: Seq<char>,
)
    requires
        before.exclusive(),
        recorded(before, after, name, id, row),
    ensures
        after.computers()[name].head == Some(id),
        after.computers()[name].created_at == before.computers()[name].created_at,
        other != name ==> after.computers().contains_key(other) == before.computers().contains_key(
            other,
        ),
        other != name && before.computers().contains_key(other) ==> after.computers()[other]
            == before.computers()[other],
        after.checkpoints().contains_key(id),
        after.checkpoints()[id] == row,
        other != id ==> after.checkpoints().contains_key(other)
            == before.checkpoints().contains_key(other),
        before.checkpoints().contains_key(other) ==> after.checkpoints()[other]
            == before.checkpoints()[other],
{
}

/// A boot by a new name makes a computer of that name, at the checkpoint where
/// it starts; a boot by a name that is there makes none, and no boot changes a
/// checkpoint or another computer.
pub proof fn boots_name_new_computers(
    s: &mut Store,
    name: &str,
    from: Option<&str>,
    created_at: i64,
    start: Option<String>,
    other: Seq<char>,
)
    requires
        s.exclusive(),
        call_ensures(boot, (s, Some(name), from, created_at), Ok(start)),
    ensures
        old(s).computers().contains_key(name@) ==> final(s).computers() == old(s).computers(),
        !old(s).computers().contains_key(name@) ==> {
            &&& final(s).computers().contains_key(name@)
            &&& final(s).computers()[name@].head == text::text_of(start)
            &&& final(s).computers()[name@].created_at == created_at
        },
        other != name@ ==> final(s).computers().contains_key(other)
            == old(s).computers().contains_key(other),
        other != name@ && old(s).computers().contains_key(other) ==> final(s).computers()[other]
            == old(s).computers()[other],
        final(s).checkpoints() == old(s).checkpoints(),
        from is None && old(s).computers().contains_key(name@) ==> text::text_of(start)
            == old(s).computers()[name@].head,
        from is None && !old(s).computers().contains_key(name@) ==> start is None,
{
}

/// A boot from a computer starts where that computer is, whatever its own name
/// is; a boot without a name leaves the store alone.
pub proof fn boots_start_where_they_are_told(
    s: &mut Store,
    name: Option<&str>,
    source: &str,
    created_at: i64,
    start: Option<String>,
)
    requires
        s.exclusive(),
        !source@.contains('@'),
        call_ensures(boot, (s, name, Some(source), created_at), Ok(start)),
    ensures
        old(s).computers().contains_key(source@),
        start is Some,
        old(s).computers()[source@].head == Some(start->Some_0@),
        name is None ==> final(s).computers() == old(s).computers(),
        final(s).checkpoints() == old(s).checkpoints(),
{
    boots_from_a_computer_start_at_its_head(*old(s), text::slice_of(name), source@, start);
}

/// What a run keeps is what the next boot of the same computer starts at, with
/// the parent, the label, the image and the time that it was kept with.
pub proof fn kept_checkpoints_are_booted_next(
    s: &mut Store,
    later: &mut Store,
    name: &str,
    id: &str,
    parent: Option<&str>,
    label: Option<&str>,
    image_path: &str,
    kept_at: i64,
    booted_at: i64,
    start: Option<String>,
)
    requires
        s.exclusive(),
        call_ensures(
            record_checkpoint,
            (s, name, id, parent, label, image_path, kept_at),
            Ok(()),
        ),
        *later == *final(s),
        call_ensures(boot, (later, Some(name), None, booted_at), Ok(start)),
    ensures
        start is Some,
        start->Some_0@ == id@,
        old(s).computers().contains_key(name@),
        !old(s).checkpoints().contains_key(id@),
        final(s).checkpoints().contains_key(id@),
        final(s).checkpoints()[id@].parent == text::slice_of(parent),
        final(s).checkpoints()[id@].label == text::slice_of(label),
        final(s).checkpoints()[id@].image_path == image_path@,
        final(s).checkpoints()[id@].created_at == kept_at,
        final(later).computers() == final(s).computers(),
{
}

/// What the store says of a failure is passed on as it is.
pub proof fn store_errors_reach_the_user(e: StoreError, a: Option<String>, b: Option<String>)
    requires
        call_ensures(StoreError::message, (&e,), a),
        call_ensures(RunError::message, (&RunError::Store(e),), b),
    ensures
        a is Some <==> b is Some,
        a is Some ==> a->Some_0@ == b->Some_0@,
{
}

/// A boot without a reference is kept from nothing but the database, and one
/// with a reference from that and from what the reference lacks; one without
/// either always starts, at nothing. A boot that fails leaves the store alone.
pub proof fn boots_fail_for_what_is_missing(
    s: &mut Store,
    name: Option<&str>,
    from: Option<&str>,
    created_at: i64,
    r: Result<Option<String>, RunError>,
)
    requires
        s.exclusive(),
        call_ensures(boot, (s, name, from, created_at), r),
    ensures
        name is None && from is None ==> (r matches Ok(start) && start is None),
        r matches Err(e) ==> {
            &&& e is Store
            &&& from is None ==> e->Store_0 is Database
            &&& from is Some && !(e->Store_0 is Database) ==> store::resolves(
                *old(s),
                from->Some_0@,
                Err(e->Store_0),
            )
            &&& final(s).computers() == old(s).computers()
            &&& final(s).checkpoints() == old(s).checkpoints()
        },
{
}

/// A checkpoint is kept only for a computer that is there: for any other name
/// it is refused by that name, and no computer changes.
pub proof fn checkpoints_are_kept_for_computers(
    s: &mut Store,
    name: &str,
    id: &str,
    parent: Option<&str>,
    label: Option<&str>,
    image_path: &str,
    kept_at: i64,
    r: Result<(), RunError>,
)
    requires
        s.exclusive(),
        call_ensures(record_checkpoint, (s, name, id, parent, label, image_path, kept_at), r),
    ensures
        r is Ok ==> old(s).computers().contains_key(name@),
        r matches Err(e) ==> {
            &&& final(s).computers() == old(s).computers()
            &&& e is Store
            &&& e->Store_0 is Database || (e->Store_0 matches StoreError::NoSuchComputer(n) && n@
                == name@ && !old(s).computers().contains_key(name@))
        },
{
}

} // verus!
