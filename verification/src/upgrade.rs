//! Replacing the running binary with the latest release.

use crate::dist::REPO;
use crate::text;
use crate::text::{same, trim_start_char};
use flate2::read::GzDecoder;
use tar::Archive;
use vstd::prelude::*;
use vstd::slice::slice_subrange;
use vstd::string::StringExecFns;

verus! {

broadcast use vstd::string::group_string_axioms;

/// Why there is no upgrade.
#[derive(Debug)]
pub enum UpgradeError {
    NoPrebuilt { os: String, arch: String },
    /// The release does not read as a compressed archive up to the binary.
    Damaged,
    NoBinary,
}

impl UpgradeError {
    /// The error as the user reads it.
    pub open spec fn text(self) -> Seq<char> {
        match self {
            UpgradeError::NoPrebuilt { os, arch } => "no prebuilt neko for "@ + os@ + " "@ + arch@,
            UpgradeError::Damaged => "release tarball is damaged"@,
            UpgradeError::NoBinary => "release tarball did not contain a neko binary"@,
        }
    }

    /// The error as the user reads it.
    pub fn message(&self) -> (r: String)
        ensures
            r@ == self.text(),
    {
        match self {
            UpgradeError::NoPrebuilt { os, arch } => {
                let mut s = "no prebuilt neko for ".to_owned();
                s.append(os.as_str());
                s.append(" ");
                s.append(arch.as_str());
                s
            },
            UpgradeError::Damaged => "release tarball is damaged".to_owned(),
            UpgradeError::NoBinary => "release tarball did not contain a neko binary".to_owned(),
        }
    }
}

/// The name of a platform in a release, where there is one for it.
pub open spec fn platform_name(os: Seq<char>, arch: Seq<char>) -> Option<Seq<char>> {
    if os == "macos"@ && arch == "aarch64"@ {
        Some("darwin-aarch64"@)
    } else if os == "linux"@ && arch == "aarch64"@ {
        Some("linux-aarch64"@)
    } else {
        None
    }
}

/// The name of a platform in a release.
pub fn platform(os: &str, arch: &str) -> (r: Result<&'static str, UpgradeError>)
    ensures
        match r {
            Ok(name) => platform_name(os@, arch@) == Some(name@),
            Err(UpgradeError::NoPrebuilt { os: o, arch: a }) => platform_name(os@, arch@) is None
                && o@ == os@ && a@ == arch@,
            Err(_) => false,
        },
{
    if same(os, "macos") && same(arch, "aarch64") {
        Ok("darwin-aarch64")
    } else if same(os, "linux") && same(arch, "aarch64") {
        Ok("linux-aarch64")
    } else {
        Err(UpgradeError::NoPrebuilt { os: os.to_owned(), arch: arch.to_owned() })
    }
}

/// Where the latest release is looked up.
pub fn latest_url() -> (r: String)
    ensures
        r@ == "https://api.github.com/repos/"@ + REPO@ + "/releases/latest"@,
{
    let mut s = "https://api.github.com/repos/".to_owned();
    s.append(REPO);
    s.append("/releases/latest");
    s
}

/// The version that a release's tag names.
pub open spec fn version_in(tag: Seq<char>) -> Seq<char> {
    text::without_leading_char(tag, 'v')
}

/// The file that a release has for a platform.
pub open spec fn tarball_name(tag: Seq<char>, platform: Seq<char>) -> Seq<char> {
    "neko-"@ + tag + "-"@ + platform + ".tar.gz"@
}

/// Where a file of a release is downloaded.
pub open spec fn download_url(tag: Seq<char>, tarball: Seq<char>) -> Seq<char> {
    "https://github.com/"@ + REPO@ + "/releases/download/"@ + tag + "/"@ + tarball
}

/// What an upgrade has to do.
pub enum Plan {
    /// The running binary is the latest.
    UpToDate,
    /// A file is to be downloaded for a later version.
    Replace { version: String, tarball: String, url: String },
}

/// What an upgrade from the running version to a release has to do.
pub fn plan(current: &str, tag: &str, platform: &str) -> (r: Plan)
    ensures
        match r {
            Plan::UpToDate => version_in(tag@) == current@,
            Plan::Replace { version, tarball, url } => {
                &&& version_in(tag@) != current@
                &&& version@ == version_in(tag@)
                &&& tarball@ == tarball_name(tag@, platform@)
                &&& url@ == download_url(tag@, tarball_name(tag@, platform@))
            },
        },
{
    let latest = trim_start_char(tag, 'v');
    if same(latest, current) {
        return Plan::UpToDate;
    }
    let mut tarball = "neko-".to_owned();
    tarball.append(tag);
    tarball.append("-");
    tarball.append(platform);
    tarball.append(".tar.gz");
    let mut url = "https://github.com/".to_owned();
    url.append(REPO);
    url.append("/releases/download/");
    url.append(tag);
    url.append("/");
    url.append(tarball.as_str());
    Plan::Replace { version: latest.to_owned(), tarball, url }
}

/// What stands in `path` before its last slash, where it has one, and what
/// stands behind it.
pub open spec fn last_piece(path: Seq<u8>) -> (Option<Seq<u8>>, Seq<u8>)
    decreases path.len(),
{
    if path.len() == 0 {
        (None, path)
    } else if path.last() == 0x2f {
        (Some(path.drop_last()), Seq::empty())
    } else {
        let (before, piece) = last_piece(path.drop_last());
        (before, piece.push(path.last()))
    }
}

/// The file that a path names: its last piece that is neither empty nor a
/// single dot.
pub open spec fn file_in(path: Seq<u8>) -> Option<Seq<u8>>
    decreases path.len(),
    via file_in_shrinks
{
    let (before, piece) = last_piece(path);
    if piece.len() == 0 || piece == seq![0x2eu8] {
        match before {
            Some(rest) => file_in(rest),
            None => None,
        }
    } else {
        Some(piece)
    }
}

/// What stands before the last slash is shorter.
#[via_fn]
proof fn file_in_shrinks(path: Seq<u8>) {
    lemma_front_is_shorter(path);
}

/// What stands before the last slash is shorter than the path.
proof fn lemma_front_is_shorter(path: Seq<u8>)
    ensures
        last_piece(path).0 matches Some(before) ==> before.len() < path.len(),
    decreases path.len(),
{
    if path.len() > 0 && path.last() != 0x2f {
        lemma_front_is_shorter(path.drop_last());
    }
}

/// What a slash parts is what `last_piece` says.
proof fn lemma_piece_at(path: Seq<u8>, from: int)
    requires
        0 <= from <= path.len(),
        from > 0 ==> path[from - 1] == 0x2f,
        forall|i: int| from <= i < path.len() ==> path[i] != 0x2f,
    ensures
        last_piece(path) == (if from > 0 {
            (Some(path.take(from - 1)), path.skip(from))
        } else {
            (None::<Seq<u8>>, path)
        }),
    decreases path.len(),
{
    if path.len() == 0 {
    } else if path.last() == 0x2f {
        assert(from == path.len());
        assert(path.drop_last() =~= path.take(from - 1));
        assert(path.skip(from) =~= Seq::empty());
    } else {
        let front = path.drop_last();
        if from == path.len() {
            assert(path[from - 1] == 0x2f);
        }
        assert forall|i: int| from <= i < front.len() implies front[i] != 0x2f by {
            assert(front[i] == path[i]);
        }
        lemma_piece_at(front, from);
        if from > 0 {
            assert(front.take(from - 1) =~= path.take(from - 1));
            assert(front.skip(from).push(path.last()) =~= path.skip(from));
        } else {
            assert(front.push(path.last()) =~= path);
        }
    }
}

/// The file that a path names.
fn file_name<'a>(path: &'a [u8]) -> (r: Option<&'a [u8]>)
    ensures
        match r {
            Some(name) => file_in(path@) == Some(name@),
            None => file_in(path@) is None,
        },
{
    let mut rest = path;
    loop
        invariant
            file_in(path@) == file_in(rest@),
        decreases rest@.len(),
    {
        let mut from: usize = rest.len();
        while from > 0 && rest[from - 1] != 0x2f
            invariant
                from <= rest.len(),
                forall|i: int| from <= i < rest@.len() ==> rest@[i] != 0x2f,
            decreases from,
        {
            from -= 1;
        }
        proof {
            lemma_piece_at(rest@, from as int);
        }
        let piece = slice_subrange(rest, from, rest.len());
        assert(piece@ =~= rest@.skip(from as int));
        assert(from == 0 ==> piece@ =~= rest@);
        let skipped = piece.len() == 0 || (piece.len() == 1 && piece[0] == 0x2e);
        assert(skipped == (piece@.len() == 0 || piece@ =~= seq![0x2eu8]));
        if !skipped {
            return Some(piece);
        }
        if from == 0 {
            return None;
        }
        let before = slice_subrange(rest, 0, from - 1);
        assert(before@ =~= rest@.take(from - 1));
        rest = before;
    }
}

/// The paths of the entries of a compressed archive, in their order, up to the
/// first one that cannot be read, which has none.
pub uninterp spec fn archive_paths(bytes: Seq<u8>) -> Seq<Option<Seq<u8>>>;

/// The paths in a list of entries.
pub open spec fn paths_of(list: Seq<Option<Vec<u8>>>) -> Seq<Option<Seq<u8>>> {
    Seq::new(
        list.len(),
        |i: int|
            match list[i] {
                Some(path) => Some(path@),
                None => None,
            },
    )
}

/// `Archive::entries` over a `GzDecoder`, and the `path_bytes` of each entry.
#[verifier::external_body]
fn entry_paths(bytes: &[u8]) -> (r: Vec<Option<Vec<u8>>>)
    ensures
        paths_of(r@) == archive_paths(bytes@),
{
    let mut archive = Archive::new(GzDecoder::new(bytes));
    match archive.entries() {
        Ok(list) => list.map(|e| e.map(|e| e.path_bytes().into_owned()).ok()).collect(),
        Err(_) => vec![None],
    }
}

/// An entry holds the binary.
pub open spec fn holds_binary(path: Option<Seq<u8>>) -> bool {
    path matches Some(p) && file_in(p) == Some(seq![0x6eu8, 0x65, 0x6b, 0x6f])
}

/// `r` is where the binary stands among the entries of a release.
pub open spec fn finds_binary(paths: Seq<Option<Seq<u8>>>, r: Result<usize, UpgradeError>) -> bool {
    match r {
        Ok(i) => {
            &&& i < paths.len()
            &&& holds_binary(paths[i as int])
            &&& forall|j: int|
                0 <= j < i ==> (#[trigger] paths[j]) is Some && !holds_binary(paths[j])
        },
        Err(UpgradeError::Damaged) => exists|i: int|
            {
                &&& 0 <= i < paths.len()
                &&& (#[trigger] paths[i]) is None
                &&& forall|j: int|
                    0 <= j < i ==> (#[trigger] paths[j]) is Some && !holds_binary(paths[j])
            },
        Err(UpgradeError::NoBinary) => forall|j: int|
            0 <= j < paths.len() ==> (#[trigger] paths[j]) is Some && !holds_binary(paths[j]),
        Err(_) => false,
    }
}

/// Where the binary stands among the entries of a release.
pub fn find_binary(list: &Vec<Option<Vec<u8>>>) -> (r: Result<usize, UpgradeError>)
    ensures
        finds_binary(paths_of(list@), r),
{
    let ghost paths = paths_of(list@);
    let mut i: usize = 0;
    while i < list.len()
        invariant
            i <= list.len(),
            paths == paths_of(list@),
            forall|j: int|
                0 <= j < i ==> (#[trigger] paths[j]) is Some && !holds_binary(paths[j]),
        decreases list.len() - i,
    {
        match &list[i] {
            None => {
                assert(paths[i as int] is None);
                return Err(UpgradeError::Damaged);
            },
            Some(path) => {
                assert(paths[i as int] == Some(path@));
                let found = match file_name(path.as_slice()) {
                    Some(name) => {
                        let hit = name.len() == 4 && name[0] == 0x6e && name[1] == 0x65 && name[2]
                            == 0x6b && name[3] == 0x6f;
                        assert(hit == (name@ =~= seq![0x6eu8, 0x65, 0x6b, 0x6f]));
                        hit
                    },
                    None => false,
                };
                if found {
                    return Ok(i);
                }
            },
        }
        i += 1;
    }
    Err(UpgradeError::NoBinary)
}

/// Where the binary stands among the entries of a release.
pub fn binary_entry(bytes: &[u8]) -> (r: Result<usize, UpgradeError>)
    ensures
        finds_binary(archive_paths(bytes@), r),
{
    let list = entry_paths(bytes);
    find_binary(&list)
}

/// What `neko upgrade` prints when there is nothing to do.
pub fn up_to_date_line(current: &str) -> (r: String)
    ensures
        r@ == "neko is up to date ("@ + current@ + ")"@,
{
    let mut s = "neko is up to date (".to_owned();
    s.append(current);
    s.append(")");
    s
}

/// What `neko upgrade` prints before it downloads.
pub fn upgrading_line(current: &str, latest: &str) -> (r: String)
    ensures
        r@ == "upgrading neko "@ + current@ + " -> "@ + latest@,
{
    let mut s = "upgrading neko ".to_owned();
    s.append(current);
    s.append(" -> ");
    s.append(latest);
    s
}

// ---------------------------------------------------------------------------
// Laws
// ---------------------------------------------------------------------------

/// There are releases for two platforms, by these names, and what has none is
/// named in the refusal.
pub proof fn two_platforms_have_releases(
    os: &str,
    arch: &str,
    r: Result<&'static str, UpgradeError>,
)
    requires
        call_ensures(platform, (os, arch), r),
    ensures
        r is Ok <==> arch@ == "aarch64"@ && (os@ == "macos"@ || os@ == "linux"@),
        r is Ok && os@ == "macos"@ ==> r->Ok_0@ == "darwin-aarch64"@,
        r is Ok && os@ == "linux"@ ==> r->Ok_0@ == "linux-aarch64"@,
        r matches Err(e) ==> (e matches UpgradeError::NoPrebuilt { os: o, arch: a } && o@ == os@
            && a@ == arch@),
{
    reveal_strlit("macos");
    reveal_strlit("linux");
    assert("macos"@[0] != "linux"@[0]);
}

/// A release that the running binary is of needs nothing; any other one is
/// downloaded for the platform by its own tag, and its version is the tag
/// without the letter `v` in front.
pub proof fn other_releases_are_downloaded(
    current: &str,
    tag: &str,
    platform: &str,
    latest: &str,
    r: Plan,
)
    requires
        call_ensures(trim_start_char, (tag, 'v'), latest),
        call_ensures(plan, (current, tag, platform), r),
    ensures
        r is UpToDate <==> latest@ == current@,
        r matches Plan::Replace { version, tarball, url } ==> {
            &&& version@ == latest@
            &&& tarball@ == "neko-"@ + tag@ + "-"@ + platform@ + ".tar.gz"@
            &&& url@ == "https://github.com/"@ + "superhq-ai/neko-computer"@
                + "/releases/download/"@ + tag@ + "/"@ + tarball@
        },
{
}

/// The latest release is looked up in this program's own repository.
pub proof fn releases_are_looked_up_at_home(r: String)
    requires
        call_ensures(latest_url, (), r),
    ensures
        r@ == "https://api.github.com/repos/"@ + "superhq-ai/neko-computer"@ + "/releases/latest"@,
{
}

/// A path names the file behind its last slash, and a path without a slash
/// names itself.
pub proof fn paths_name_their_last_piece(dir: Seq<u8>, name: Seq<u8>)
    requires
        name.len() > 0,
        name != seq![0x2eu8],
        forall|i: int| 0 <= i < name.len() ==> name[i] != 0x2f,
    ensures
        file_in(name) == Some(name),
        file_in(dir + seq![0x2fu8] + name) == Some(name),
{
    lemma_piece_at(name, 0);
    let path = dir + seq![0x2fu8] + name;
    let n = dir.len() as int;
    assert forall|i: int| n + 1 <= i < path.len() implies path[i] != 0x2f by {
        assert(path[i] == name[i - n - 1]);
    }
    lemma_piece_at(path, n + 1);
    assert(path.skip(n + 1) =~= name);
}

/// A slash at the end, alone or with a dot behind it, changes nothing, and a
/// path of nothing else names no file.
pub proof fn empty_pieces_are_passed_over(path: Seq<u8>)
    ensures
        file_in(path + seq![0x2fu8]) == file_in(path),
        file_in(path + seq![0x2fu8, 0x2eu8]) == file_in(path),
        file_in(Seq::empty()) is None,
        file_in(seq![0x2eu8]) is None,
{
    let n = path.len() as int;
    let a = path + seq![0x2fu8];
    lemma_piece_at(a, n + 1);
    assert(a.take(n) =~= path);
    assert(a.skip(n + 1) =~= Seq::empty());
    let b = path + seq![0x2fu8, 0x2eu8];
    lemma_piece_at(b, n + 1);
    assert(b.take(n) =~= path);
    assert(b.skip(n + 1) =~= seq![0x2eu8]);
    lemma_piece_at(Seq::empty(), 0);
    lemma_piece_at(seq![0x2eu8], 0);
}

/// The binary is the first entry that names a file called `neko`, as long as
/// every entry before it can be read; an entry that cannot be read before it
/// means that the release is damaged, and without one there is no binary.
pub proof fn the_first_binary_is_found(
    list: &Vec<Option<Vec<u8>>>,
    i: int,
    r: Result<usize, UpgradeError>,
)
    requires
        call_ensures(find_binary, (list,), r),
        0 <= i <= list@.len(),
        forall|j: int|
            0 <= j < i ==> (#[trigger] list@[j]) is Some && file_in(list@[j]->Some_0@) != Some(
                seq![0x6eu8, 0x65, 0x6b, 0x6f],
            ),
    ensures
        i == list@.len() ==> (r matches Err(e) && e is NoBinary),
        i < list@.len() && list@[i] is None ==> (r matches Err(e) && e is Damaged),
        i < list@.len() && list@[i] is Some && file_in(list@[i]->Some_0@) == Some(
            seq![0x6eu8, 0x65, 0x6b, 0x6f],
        ) ==> r == Ok::<usize, UpgradeError>(i as usize),
{
    let paths = paths_of(list@);
    assert(paths.len() == list@.len());
    assert forall|j: int| 0 <= j < i implies (#[trigger] paths[j]) is Some && !holds_binary(
        paths[j],
    ) by {
        assert(list@[j] is Some);
    }
    if i < list@.len() {
        assert(paths[i] is None == list@[i] is None);
        match r {
            Ok(k) => {
                assert(holds_binary(paths[k as int]));
                if k > i {
                    assert(paths[i] is Some && !holds_binary(paths[i]));
                }
            },
            Err(UpgradeError::Damaged) => {
                let k = choose|k: int|
                    {
                        &&& 0 <= k < paths.len()
                        &&& (#[trigger] paths[k]) is None
                        &&& forall|j: int|
                            0 <= j < k ==> (#[trigger] paths[j]) is Some && !holds_binary(paths[j])
                    };
                if k > i {
                    assert(paths[i] is Some && !holds_binary(paths[i]));
                }
            },
            Err(_) => {
                assert(paths[i] is Some && !holds_binary(paths[i]));
            },
        }
    }
}

/// An upgrade says which versions it is about.
pub proof fn upgrades_name_their_versions(current: &str, latest: &str, same: String, other: String)
    requires
        call_ensures(up_to_date_line, (current,), same),
        call_ensures(upgrading_line, (current, latest), other),
    ensures
        same@ == "neko is up to date ("@ + current@ + ")"@,
        other@ == "upgrading neko "@ + current@ + " -> "@ + latest@,
{
}

/// A refusal says why.
pub proof fn upgrade_refusals_speak(
    os: String,
    arch: String,
    none: String,
    damaged: String,
    empty: String,
)
    requires
        call_ensures(UpgradeError::message, (&(UpgradeError::NoPrebuilt { os, arch }),), none),
        call_ensures(UpgradeError::message, (&UpgradeError::Damaged,), damaged),
        call_ensures(UpgradeError::message, (&UpgradeError::NoBinary,), empty),
    ensures
        none@ == "no prebuilt neko for "@ + os@ + " "@ + arch@,
        damaged@ == "release tarball is damaged"@,
        empty@ == "release tarball did not contain a neko binary"@,
{
}

} // verus!
