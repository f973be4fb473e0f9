//! Host directories offered to the sandbox. The current directory is mounted
//! at `/workspace` read-only unless asked otherwise: a sandbox that can
//! rewrite the tree it was launched from is not much of a sandbox.
//!
//! Read-only is not a wall the command hits. The guest lays an overlay over
//! the share, so writes succeed and land in a scratch layer that goes away
//! with the sandbox. Only a read-write share puts the writes on the host.

use crate::text;
use crate::text::{rsplit_once, same, starts_with_char, trim, trim_end_char};
use vstd::prelude::*;
use vstd::string::StringExecFns;

verus! {

broadcast use vstd::string::group_string_axioms;

/// Where the current directory lands when no mount is asked for.
pub const WORKSPACE: &'static str = "/workspace";

/// A host directory and where the sandbox sees it.
#[derive(Debug)]
pub struct MountConfig {
    pub host_path: String,
    pub guest_path: String,
    pub read_only: bool,
}

/// A mount as it was asked for, before the host path is looked up.
#[derive(Debug)]
pub struct MountSpec {
    pub host: String,
    pub guest: String,
    pub read_only: bool,
}

/// What looking up a host path found.
pub enum HostPath {
    /// The path could not be resolved; the text says why.
    Unresolved(String),
    /// The path resolves to something that is not a directory.
    NotADirectory,
    /// The path resolves to this directory.
    Directory(String),
}

/// Why a mount was refused. The field is the specification, or the host path.
#[derive(Debug)]
pub enum MountError {
    NeedsBoth(String),
    NoHost(String),
    NotAbsolute(String),
    IsRoot(String),
    Unresolved { host: String, reason: String },
    NotADirectory(String),
}

impl MountError {
    /// The error as the user reads it.
    pub open spec fn text(self) -> Seq<char> {
        match self {
            MountError::NeedsBoth(spec) => "mount needs HOST:GUEST, as in .:/workspace: "@ + spec@,
            MountError::NoHost(spec) => "mount has no host path: "@ + spec@,
            MountError::NotAbsolute(spec) => "mount guest path must be absolute: "@ + spec@,
            MountError::IsRoot(spec) => "mount guest path must not be /: "@ + spec@,
            MountError::Unresolved { host, reason } => "cannot mount "@ + host@ + ": "@ + reason@,
            MountError::NotADirectory(host) => "not a directory: "@ + host@,
        }
    }

    /// The error as the user reads it.
    pub fn message(&self) -> (r: String)
        ensures
            r@ == self.text(),
    {
        match self {
            MountError::NeedsBoth(spec) => {
                let mut m = "mount needs HOST:GUEST, as in .:/workspace: ".to_owned();
                m.append(spec.as_str());
                m
            },
            MountError::NoHost(spec) => {
                let mut m = "mount has no host path: ".to_owned();
                m.append(spec.as_str());
                m
            },
            MountError::NotAbsolute(spec) => {
                let mut m = "mount guest path must be absolute: ".to_owned();
                m.append(spec.as_str());
                m
            },
            MountError::IsRoot(spec) => {
                let mut m = "mount guest path must not be /: ".to_owned();
                m.append(spec.as_str());
                m
            },
            MountError::Unresolved { host, reason } => {
                let mut m = "cannot mount ".to_owned();
                m.append(host.as_str());
                m.append(": ");
                m.append(reason.as_str());
                m
            },
            MountError::NotADirectory(host) => {
                let mut m = "not a directory: ".to_owned();
                m.append(host.as_str());
                m
            },
        }
    }
}

/// The default mount: the current directory at `/workspace`.
pub fn current_dir(cwd: &str, read_only: bool) -> (r: MountConfig)
    ensures
        r.host_path@ == cwd@,
        r.guest_path@ == WORKSPACE@,
        r.read_only == read_only,
{
    MountConfig { host_path: cwd.to_owned(), guest_path: WORKSPACE.to_owned(), read_only }
}

/// The paths of a specification, and whether it is read-only: it is, unless
/// its last field says `rw`.
pub open spec fn mode_of(spec: Seq<char>) -> (Seq<char>, bool) {
    match text::split_last(spec, ':') {
        Some((rest, mode)) => if mode == "rw"@ {
            (rest, false)
        } else if mode == "ro"@ {
            (rest, true)
        } else {
            (spec, true)
        },
        None => (spec, true),
    }
}

/// What parsing a specification gives.
pub open spec fn parses_to(spec: Seq<char>, r: Result<MountSpec, MountError>) -> bool {
    let (paths, read_only) = mode_of(spec);
    match text::split_last(paths, ':') {
        None => r matches Err(MountError::NeedsBoth(s)) && s@ == spec,
        Some((host, guest)) => {
            let host = text::trimmed(host);
            let guest = text::trimmed(guest);
            let bare = text::without_trailing_char(guest, '/');
            if host.len() == 0 {
                r matches Err(MountError::NoHost(s)) && s@ == spec
            } else if guest.len() == 0 || guest[0] != '/' {
                r matches Err(MountError::NotAbsolute(s)) && s@ == spec
            } else if bare.len() == 0 {
                r matches Err(MountError::IsRoot(s)) && s@ == spec
            } else {
                r matches Ok(m) && m.host@ == host && m.guest@ == bare && m.read_only == read_only
            }
        },
    }
}

/// `.:/src` asks for the current directory, read-only, at `/src`. A trailing
/// `:rw` allows writes; `:ro` is the default and may be spelled out.
pub fn parse(spec: &str) -> (r: Result<MountSpec, MountError>)
    ensures
        parses_to(spec@, r),
{
    let (paths, read_only) = match rsplit_once(spec, ':') {
        Some((rest, mode)) => if same(mode, "rw") {
            (rest, false)
        } else if same(mode, "ro") {
            (rest, true)
        } else {
            (spec, true)
        },
        None => (spec, true),
    };
    let (host, guest) = match rsplit_once(paths, ':') {
        None => return Err(MountError::NeedsBoth(spec.to_owned())),
        Some((h, g)) => (trim(h), trim(g)),
    };
    if host.is_empty() {
        return Err(MountError::NoHost(spec.to_owned()));
    }
    if !starts_with_char(guest, '/') {
        return Err(MountError::NotAbsolute(spec.to_owned()));
    }
    let bare = trim_end_char(guest, '/');
    if bare.is_empty() {
        return Err(MountError::IsRoot(spec.to_owned()));
    }
    Ok(MountSpec { host: host.to_owned(), guest: bare.to_owned(), read_only })
}

impl MountSpec {
    /// The mount, once the host path was looked up; a path that does not
    /// resolve to a directory is refused.
    pub fn resolve(self, found: HostPath) -> (r: Result<MountConfig, MountError>)
        ensures
            match found {
                HostPath::Unresolved(why) => r matches Err(MountError::Unresolved { host, reason })
                    && host@ == self.host@ && reason@ == why@,
                HostPath::NotADirectory => r matches Err(MountError::NotADirectory(host)) && host@
                    == self.host@,
                HostPath::Directory(path) => r matches Ok(m) && m.host_path@ == path@
                    && m.guest_path@ == self.guest@ && m.read_only == self.read_only,
            },
    {
        match found {
            HostPath::Unresolved(reason) => Err(MountError::Unresolved { host: self.host, reason }),
            HostPath::NotADirectory => Err(MountError::NotADirectory(self.host)),
            HostPath::Directory(path) => Ok(
                MountConfig {
                    host_path: path,
                    guest_path: self.guest,
                    read_only: self.read_only,
                },
            ),
        }
    }
}

/// A mount that lets the sandbox write to the host ends in `:rw`: it asked for
/// it.
pub proof fn writable_mounts_ask_for_it(spec: Seq<char>, r: Result<MountSpec, MountError>)
    requires
        parses_to(spec, r),
        r matches Ok(m) && !m.read_only,
    ensures
        (":rw"@).is_suffix_of(spec),
{
    let i = choose|i: int| text::last_at(spec, ':', i);
    assert(text::split_last(spec, ':') == Some((spec.take(i), spec.skip(i + 1))));
    text::last_exists(spec, ':');
    reveal_strlit(":rw");
    reveal_strlit("rw");
    assert(spec.skip(i + 1) == "rw"@);
    assert(spec.skip(i + 1).len() == 2);
    assert(spec.len() == i + 3);
    assert(spec[i + 1] == spec.skip(i + 1)[0]);
    assert(spec[i + 2] == spec.skip(i + 1)[1]);
    assert(spec.subrange(spec.len() - 3, spec.len() as int) =~= ":rw"@);
}

/// Where a mount lands is an absolute path other than the root, without a
/// slash at its end.
pub proof fn guest_paths_are_plain(spec: Seq<char>, r: Result<MountSpec, MountError>)
    requires
        parses_to(spec, r),
        r is Ok,
    ensures
        r->Ok_0.host@.len() > 0,
        r->Ok_0.guest@.len() > 1,
        r->Ok_0.guest@[0] == '/',
        r->Ok_0.guest@.last() != '/',
{
    let (paths, _) = mode_of(spec);
    let guest = text::trimmed(text::split_last(paths, ':')->Some_0.1);
    text::no_copies_trail(guest, '/');
    text::trailing_cut_keeps_start(guest, '/');
}

/// What a text splits into at its last separator.
proof fn lemma_split_at_last(a: Seq<char>, b: Seq<char>, c: char)
    requires
        !b.contains(c),
    ensures
        text::split_last(a + seq![c] + b, c) == Some((a, b)),
{
    let s = a + seq![c] + b;
    let n = a.len() as int;
    assert(s[n] == c);
    assert(s.contains(c));
    text::last_exists(s, c);
    let k = choose|k: int| text::last_at(s, c, k);
    assert(k == n) by {
        if k > n {
            assert(s[k] == b[k - n - 1]);
            assert(b.contains(b[k - n - 1]));
        } else if k < n {
            assert(s[n] != c);
        }
    }
    assert(s.take(n) =~= a);
    assert(s.skip(n + 1) =~= b);
}

/// A host directory and a guest path, as they are asked for.
pub open spec fn is_plain_mount(host: Seq<char>, guest: Seq<char>) -> bool {
    &&& host.len() > 0
    &&& text::trimmed(host) == host
    &&& guest.len() > 1
    &&& guest[0] == '/'
    &&& guest.last() != '/'
    &&& text::trimmed(guest) == guest
    &&& !guest.contains(':')
}

/// A mount is of the two paths that it names, read-only where it says nothing
/// or `ro`, and writable where it says `rw`. A host path may hold colons.
pub proof fn mounts_are_of_the_paths_they_name(
    host: Seq<char>,
    guest: Seq<char>,
    spec: &str,
    r: Result<MountSpec, MountError>,
)
    requires
        is_plain_mount(host, guest),
        spec@ == host + seq![':'] + guest || spec@ == host + seq![':'] + guest + seq![':']
            + "ro"@ || spec@ == host + seq![':'] + guest + seq![':'] + "rw"@,
        call_ensures(parse, (spec,), r),
    ensures
        r matches Ok(m) && m.host@ == host && m.guest@ == guest && (m.read_only <==> spec@ != host
            + seq![':'] + guest + seq![':'] + "rw"@),
{
    reveal_strlit("ro");
    reveal_strlit("rw");
    let paths = host + seq![':'] + guest;
    assert(!("ro"@).contains(':'));
    assert(!("rw"@).contains(':'));
    assert("ro"@[1] != "rw"@[1]);
    lemma_split_at_last(host, guest, ':');
    lemma_split_at_last(paths, "ro"@, ':');
    lemma_split_at_last(paths, "rw"@, ':');
    assert(guest != "ro"@ && guest != "rw"@);
    assert(text::without_trailing_char(guest, '/') == guest);
    let open = paths + seq![':'] + "rw"@;
    if spec@ == paths {
        assert(paths.len() != open.len());
    } else if spec@ == paths + seq![':'] + "ro"@ {
        assert(spec@[spec@.len() - 1] != open[open.len() - 1]);
    }
}

/// Slashes at the end of where a mount lands, and white space around either
/// path, change nothing; a mount without a host, at a path that is not
/// absolute, or at the root is refused, and so is one that names only one path.
pub proof fn mounts_are_refused_for_their_paths(
    host: Seq<char>,
    guest: Seq<char>,
    spec: &str,
    h: &str,
    g: &str,
    bare: &str,
    r: Result<MountSpec, MountError>,
)
    requires
        !guest.contains(':'),
        guest != "ro"@,
        guest != "rw"@,
        spec@ == host + seq![':'] + guest,
        h@ == text::trimmed(host),
        g@ == text::trimmed(guest),
        call_ensures(trim_end_char, (g, '/'), bare),
        call_ensures(parse, (spec,), r),
    ensures
        h@.len() == 0 ==> (r matches Err(e) && (e matches MountError::NoHost(s) && s@ == spec@)),
        h@.len() > 0 && (g@.len() == 0 || g@[0] != '/') ==> (r matches Err(e) && (
        e matches MountError::NotAbsolute(s) && s@ == spec@)),
        h@.len() > 0 && g@.len() > 0 && g@[0] == '/' && bare@.len() == 0 ==> (r matches Err(e) && (
        e matches MountError::IsRoot(s) && s@ == spec@)),
        h@.len() > 0 && g@.len() > 0 && g@[0] == '/' && bare@.len() > 0 ==> (r matches Ok(m)
            && m.host@ == h@ && m.guest@ == bare@ && m.read_only),
{
    lemma_split_at_last(host, guest, ':');
}

/// A specification without a colon names one path only, and is refused with
/// what it says.
pub proof fn one_path_is_not_enough(spec: &str, r: Result<MountSpec, MountError>)
    requires
        !spec@.contains(':'),
        call_ensures(parse, (spec,), r),
    ensures
        r matches Err(e) && (e matches MountError::NeedsBoth(s) && s@ == spec@),
{
}

/// A mode does not count as a path: one path with a mode is refused too.
pub proof fn a_mode_is_no_path(path: Seq<char>, spec: &str, r: Result<MountSpec, MountError>)
    requires
        !path.contains(':'),
        spec@ == path + seq![':'] + "rw"@ || spec@ == path + seq![':'] + "ro"@,
        call_ensures(parse, (spec,), r),
    ensures
        r matches Err(e) && (e matches MountError::NeedsBoth(s) && s@ == spec@),
{
    reveal_strlit("ro");
    reveal_strlit("rw");
    assert(!("ro"@).contains(':'));
    assert(!("rw"@).contains(':'));
    lemma_split_at_last(path, "ro"@, ':');
    lemma_split_at_last(path, "rw"@, ':');
}

/// The current directory lands at `/workspace`, and a mount that was looked up
/// lands where it was asked to, with what was found and no more rights than
/// were asked for.
pub proof fn mounts_land_where_asked(
    cwd: &str,
    read_only: bool,
    spec: MountSpec,
    path: String,
    here: MountConfig,
    there: Result<MountConfig, MountError>,
)
    requires
        call_ensures(current_dir, (cwd, read_only), here),
        call_ensures(MountSpec::resolve, (spec, HostPath::Directory(path)), there),
    ensures
        here.host_path@ == cwd@,
        here.guest_path@ == "/workspace"@,
        here.read_only == read_only,
        there matches Ok(m) && m.host_path@ == path@ && m.guest_path@ == spec.guest@ && m.read_only
            == spec.read_only,
{
}

/// What is not a directory is not mounted, and the host path is named.
pub proof fn only_directories_are_mounted(
    spec: MountSpec,
    why: String,
    lost: Result<MountConfig, MountError>,
    file: Result<MountConfig, MountError>,
)
    requires
        call_ensures(MountSpec::resolve, (spec, HostPath::Unresolved(why)), lost),
        call_ensures(MountSpec::resolve, (spec, HostPath::NotADirectory), file),
    ensures
        lost matches Err(e) && (e matches MountError::Unresolved { host, reason } && host@
            == spec.host@ && reason@ == why@),
        file matches Err(e) && (e matches MountError::NotADirectory(host) && host@ == spec.host@),
{
}

/// A refusal says what was wrong, and of what.
pub proof fn mount_refusals_speak(
    s: String,
    why: String,
    both: String,
    no_host: String,
    relative: String,
    root: String,
    lost: String,
    file: String,
)
    requires
        call_ensures(MountError::message, (&MountError::NeedsBoth(s),), both),
        call_ensures(MountError::message, (&MountError::NoHost(s),), no_host),
        call_ensures(MountError::message, (&MountError::NotAbsolute(s),), relative),
        call_ensures(MountError::message, (&MountError::IsRoot(s),), root),
        call_ensures(
            MountError::message,
            (&(MountError::Unresolved { host: s, reason: why }),),
            lost,
        ),
        call_ensures(MountError::message, (&MountError::NotADirectory(s),), file),
    ensures
        both@ == "mount needs HOST:GUEST, as in .:/workspace: "@ + s@,
        no_host@ == "mount has no host path: "@ + s@,
        relative@ == "mount guest path must be absolute: "@ + s@,
        root@ == "mount guest path must not be /: "@ + s@,
        lost@ == "cannot mount "@ + s@ + ": "@ + why@,
        file@ == "not a directory: "@ + s@,
{
}

} // verus!
