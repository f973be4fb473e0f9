//! The data directory, separate from shuru's, which holds the SQLite index, the
//! checkpoint images and the base VM assets.

use crate::dist::{SHURU_OS_VERSION, SHURU_REPO};
use crate::number;
use crate::number::{bar_text, decimal_text, right_align};
use crate::text;
use crate::text::{same, starts_with_char, trim};
use vstd::prelude::*;
use vstd::string::{StrSliceExecFns, StringExecFns};

verus! {

broadcast use vstd::string::group_string_axioms;

/// The environment variable for the data directory.
pub const DATA_DIR_VAR: &'static str = "NEKO_DATA_DIR";

/// The kernel of the base VM.
pub const IMAGE: &'static str = "Image";

/// The root file system of the base VM.
pub const ROOTFS: &'static str = "rootfs.ext4";

/// The initial RAM disk of the base VM.
pub const INITRAMFS: &'static str = "initramfs.cpio.gz";

/// The file that names the version of the base VM.
pub const VERSION: &'static str = "VERSION";

/// A path under a directory. An absolute one stands for itself.
pub open spec fn joined(base: Seq<char>, path: Seq<char>) -> Seq<char> {
    if path.len() > 0 && path[0] == '/' {
        path
    } else if base.len() > 0 && base.last() != '/' {
        base + "/"@ + path
    } else {
        base + path
    }
}

/// A path under a directory.
pub fn join(base: &str, path: &str) -> (r: String)
    ensures
        r@ == joined(base@, path@),
{
    if starts_with_char(path, '/') {
        return path.to_owned();
    }
    let mut out = base.to_owned();
    let n = base.unicode_len();
    if n > 0 && base.get_char(n - 1) != '/' {
        out.append("/");
    }
    out.append(path);
    out
}

/// There is no data directory on this platform.
#[derive(Debug)]
pub struct NoDataDirectory;

impl NoDataDirectory {
    /// The error as the user reads it.
    pub fn message(&self) -> (r: String)
        ensures
            r@ == "no data directory on this platform"@,
    {
        "no data directory on this platform".to_owned()
    }
}

/// The data directory: what its variable says, else one of its own in the
/// platform's.
pub open spec fn data_dir_of(env: Option<Seq<char>>, platform: Option<Seq<char>>) -> Option<
    Seq<char>,
> {
    match env {
        Some(dir) => Some(dir),
        None => match platform {
            Some(base) => Some(joined(base, "neko"@)),
            None => None,
        },
    }
}

/// The data directory, for the value of its variable and the platform's own
/// directory for data.
pub fn data_dir(env: Option<&str>, platform: Option<&str>) -> (r: Result<String, NoDataDirectory>)
    ensures
        match r {
            Ok(dir) => data_dir_of(text::slice_of(env), text::slice_of(platform)) == Some(dir@),
            Err(_) => data_dir_of(text::slice_of(env), text::slice_of(platform)) is None,
        },
{
    match env {
        Some(dir) => Ok(dir.to_owned()),
        None => match platform {
            Some(base) => Ok(join(base, "neko")),
            None => Err(NoDataDirectory),
        },
    }
}

/// Where the index is.
pub fn db_path(dir: &str) -> (r: String)
    ensures
        r@ == joined(dir@, "neko.db"@),
{
    join(dir, "neko.db")
}

/// Where the image of a checkpoint is.
pub open spec fn image_path(dir: Seq<char>, id: Seq<char>) -> Seq<char> {
    joined(joined(dir, "checkpoints"@), id + ".ext4"@)
}

/// Where the image of a checkpoint is.
pub fn checkpoint_image(dir: &str, id: &str) -> (r: String)
    ensures
        r@ == image_path(dir@, id@),
{
    let mut file = id.to_owned();
    file.append(".ext4");
    join(join(dir, "checkpoints").as_str(), file.as_str())
}

/// Checkpoints with different ids have different images, unless an id is an
/// absolute path.
pub proof fn images_do_not_collide(dir: Seq<char>, a: Seq<char>, b: Seq<char>)
    requires
        a.len() == 0 || a[0] != '/',
        b.len() == 0 || b[0] != '/',
        image_path(dir, a) == image_path(dir, b),
    ensures
        a == b,
{
    reveal_strlit(".ext4");
    reveal_strlit("/");
    let base = joined(dir, "checkpoints"@);
    let end = ".ext4"@;
    let sep = if base.len() > 0 && base.last() != '/' {
        base + "/"@
    } else {
        base
    };
    assert((a + end)[0] != '/');
    assert((b + end)[0] != '/');
    assert(image_path(dir, a) =~= sep + (a + end));
    assert(image_path(dir, b) =~= sep + (b + end));
    assert(image_path(dir, a).len() == sep.len() + a.len() + end.len());
    assert(image_path(dir, b).len() == sep.len() + b.len() + end.len());
    assert forall|i: int| 0 <= i < a.len() implies a[i] == b[i] by {
        assert(image_path(dir, a)[sep.len() + i] == a[i]);
        assert(image_path(dir, b)[sep.len() + i] == b[i]);
    }
    assert(a =~= b);
}

/// What a directory holds of the base VM.
pub struct Assets {
    /// The text of the version file, where it can be read.
    pub version: Option<String>,
    pub image: bool,
    pub rootfs: bool,
}

impl Assets {
    /// The version that the directory names is the pinned one.
    pub open spec fn is_pinned(self) -> bool {
        self.version matches Some(v) && text::trimmed(v@) == SHURU_OS_VERSION@
    }

    /// The kernel and the root file system are there.
    pub open spec fn is_present(self) -> bool {
        self.image && self.rootfs
    }

    /// The version that the directory names is the pinned one.
    pub fn pinned(&self) -> (r: bool)
        ensures
            r == self.is_pinned(),
    {
        match &self.version {
            Some(v) => same(trim(v.as_str()), SHURU_OS_VERSION),
            None => false,
        }
    }

    /// The kernel and the root file system are there.
    pub fn present(&self) -> (r: bool)
        ensures
            r == self.is_present(),
    {
        self.image && self.rootfs
    }

    /// The directory carries the pinned base VM.
    pub fn provisioned(&self) -> (r: bool)
        ensures
            r == (self.is_pinned() && self.is_present()),
    {
        self.pinned() && self.present()
    }
}

/// What is done next to get the base VM.
#[derive(Debug, Clone, Copy, PartialEq, Eq, Structural)]
pub enum Provision {
    /// Everything is in place.
    Ready,
    /// Clear the assets, then link them from a shuru install.
    Link,
    /// Take over the version file of the shuru install, and be ready.
    Adopt,
    /// Clear the assets, then download the pinned image.
    Download,
}

/// What is done first: nothing where the base VM is there, links where a shuru
/// install has the same version, else a download.
pub open spec fn first_step(own: Assets, shuru: Option<Seq<char>>) -> Provision {
    if own.is_pinned() && own.is_present() {
        Provision::Ready
    } else if shuru matches Some(v) && text::trimmed(v) == SHURU_OS_VERSION@ {
        Provision::Link
    } else {
        Provision::Download
    }
}

/// What is done first, with the text of the version file of a shuru install.
pub fn provision(own: &Assets, shuru: Option<&str>) -> (r: Provision)
    ensures
        r == first_step(*own, text::slice_of(shuru)),
{
    if own.provisioned() {
        return Provision::Ready;
    }
    let usable = match shuru {
        Some(v) => same(trim(v), SHURU_OS_VERSION),
        None => false,
    };
    if usable {
        Provision::Link
    } else {
        Provision::Download
    }
}

/// What is done once the links are made: the install is adopted if it had what
/// it takes.
pub fn after_links(own: &Assets) -> (r: Provision)
    ensures
        r == (if own.is_present() {
            Provision::Adopt
        } else {
            Provision::Download
        }),
{
    if own.present() {
        Provision::Adopt
    } else {
        Provision::Download
    }
}

/// Whether an asset is linked: it is there to link, and not here yet.
pub fn needs_link(here: bool, there: bool) -> (r: bool)
    ensures
        r == (there && !here),
{
    !(here || !there)
}

/// How an asset of a shuru install is linked.
#[derive(Debug, Clone, Copy, PartialEq, Eq, Structural)]
pub enum Kind {
    Symlink,
    Hardlink,
}

/// How an asset is linked: the root file system by a hard link, the others by
/// symbolic ones.
pub fn link_kind(name: &str) -> (r: Kind)
    ensures
        r == (if name@ == ROOTFS@ {
            Kind::Hardlink
        } else {
            Kind::Symlink
        }),
{
    if same(name, ROOTFS) {
        Kind::Hardlink
    } else {
        Kind::Symlink
    }
}

/// A new image is picked up whenever the pin moves: a directory that names
/// another version is never taken as it is.
pub proof fn a_moved_pin_is_picked_up(own: Assets, shuru: Option<Seq<char>>)
    requires
        !own.is_pinned(),
    ensures
        !(first_step(own, shuru) is Ready),
{
}

/// The tag of the pinned release.
pub open spec fn base_tag() -> Seq<char> {
    "v"@ + SHURU_OS_VERSION@
}

/// The file of the pinned release.
pub open spec fn base_tarball() -> Seq<char> {
    "shuru-os-"@ + base_tag() + "-aarch64.tar.gz"@
}

/// The tag, the file, and where it is downloaded, of the pinned release.
pub fn base_image() -> (r: (String, String, String))
    ensures
        r.0@ == base_tag(),
        r.1@ == base_tarball(),
        r.2@ == "https://github.com/"@ + SHURU_REPO@ + "/releases/download/"@ + base_tag() + "/"@
            + base_tarball(),
{
    let mut tag = "v".to_owned();
    tag.append(SHURU_OS_VERSION);
    let mut tarball = "shuru-os-".to_owned();
    tarball.append(tag.as_str());
    tarball.append("-aarch64.tar.gz");
    let mut url = "https://github.com/".to_owned();
    url.append(SHURU_REPO);
    url.append("/releases/download/");
    url.append(tag.as_str());
    url.append("/");
    url.append(tarball.as_str());
    (tag, tarball, url)
}

/// Where a file is written while it is downloaded.
pub fn part_path(dir: &str, tarball: &str) -> (r: String)
    ensures
        r@ == joined(dir@, tarball@ + ".part"@),
{
    let mut file = tarball.to_owned();
    file.append(".part");
    join(dir, file.as_str())
}

/// The text of the version file of the pinned release.
pub fn version_text() -> (r: String)
    ensures
        r@ == SHURU_OS_VERSION@ + "\n"@,
{
    let mut s = SHURU_OS_VERSION.to_owned();
    s.append("\n");
    s
}

/// What is downloaded is recognised: a version file of the pinned release, with
/// the assets beside it, is the pinned base VM.
pub proof fn a_download_provisions(own: Assets)
    requires
        own.version matches Some(v) && v@ == SHURU_OS_VERSION@ + "\n"@,
        own.is_present(),
    ensures
        first_step(own, None) is Ready,
{
    reveal_strlit("0.6.4");
    reveal_strlit("\n");
    let pin = SHURU_OS_VERSION@;
    assert forall|i: int| 0 <= i < pin.len() implies !text::is_white_space(#[trigger] pin[i]) by {}
    text::trimming_ignores_padding(Seq::empty(), pin, "\n"@);
    text::solid_text_is_trimmed(pin);
    assert(Seq::empty() + pin + "\n"@ =~= pin + "\n"@);
}

/// The width of the progress bar.
pub const BAR_WIDTH: u64 = 24;

/// The bytes between two lines of a download of unknown size.
pub const STRIDE: u64 = 4194304;

/// The size that a share is taken of; an empty download counts as one byte.
pub open spec fn whole(total: u64) -> int {
    if total > 1 {
        total as int
    } else {
        1
    }
}

/// How much of a download is done, in percent.
pub open spec fn percent(done: u64, total: u64) -> int {
    let share = done * 100 / whole(total);
    if share < 100 {
        share
    } else {
        100
    }
}

/// The step that a download has reached: a tenth of its size, or a stride where
/// the size is not known.
pub open spec fn decile(total: Option<u64>, done: u64) -> int {
    match total {
        Some(total) => done * 10 / whole(total),
        None => done as int / STRIDE as int,
    }
}

/// The bar for a share in percent.
pub open spec fn bar(pct: int) -> Seq<char> {
    let filled = pct * BAR_WIDTH / 100;
    number::repeated('#', filled) + number::repeated('-', BAR_WIDTH - filled)
}

/// Single-line, in-place download progress. It redraws with a carriage return
/// on a terminal, and prints an occasional line per decile otherwise, so logs
/// stay readable.
pub struct Progress {
    pub label: String,
    pub total: Option<u64>,
    pub tty: bool,
    pub last_decile: u64,
}

impl Progress {
    /// What is drawn for the bytes that are done, with the megabytes that are
    /// done and in all.
    pub open spec fn drawn(self, done: u64, done_mb: Seq<char>, total_mb: Seq<char>) -> Seq<char> {
        match self.total {
            Some(total) => {
                let pct = percent(done, total);
                if self.tty {
                    "\r"@ + self.label@ + " ["@ + bar(pct) + "] "@ + number::right_aligned(
                        number::decimal(pct as nat),
                        3,
                    ) + "% ("@ + done_mb + "/"@ + total_mb + " MB)"@
                } else {
                    self.label@ + " "@ + number::decimal(pct as nat) + "%\n"@
                }
            },
            None => if self.tty {
                "\r"@ + self.label@ + " "@ + done_mb + " MB"@
            } else {
                self.label@ + " "@ + done_mb + " MB\n"@
            },
        }
    }

    /// Progress that nothing was drawn of yet.
    pub fn new(label: &str, total: Option<u64>, tty: bool) -> (r: Self)
        ensures
            r.label@ == label@,
            r.total == total,
            r.tty == tty,
            r.last_decile == u64::MAX,
    {
        Progress { label: label.to_owned(), total, tty, last_decile: u64::MAX }
    }

    /// Takes note of the bytes that are done, and says whether they are worth
    /// drawing.
    pub fn update(&mut self, done: u64) -> (r: bool)
        requires
            old(self).total is Some ==> done * 10 <= u64::MAX,
        ensures
            r == (decile(old(self).total, done) != old(self).last_decile),
            final(self).last_decile == decile(old(self).total, done),
            final(self).label == old(self).label,
            final(self).total == old(self).total,
            final(self).tty == old(self).tty,
    {
        let reached: u64 = match self.total {
            Some(total) => {
                let size: u64 = if total > 1 {
                    total
                } else {
                    1
                };
                proof {
                    lemma_share_fits(done * 10, size as int);
                }
                done * 10 / size
            },
            None => done / STRIDE,
        };
        if reached != self.last_decile {
            self.last_decile = reached;
            true
        } else {
            false
        }
    }

    /// What is drawn for the bytes that are done.
    pub fn draw(&self, done: u64, done_mb: &str, total_mb: &str) -> (r: String)
        requires
            self.total is Some ==> done * 100 <= u64::MAX,
        ensures
            r@ == self.drawn(done, done_mb@, total_mb@),
    {
        match self.total {
            Some(total) => {
                let size: u64 = if total > 1 {
                    total
                } else {
                    1
                };
                proof {
                    lemma_share_fits(done * 100, size as int);
                }
                let share = done * 100 / size;
                let pct: u64 = if share < 100 {
                    share
                } else {
                    100
                };
                let share_text = decimal_text(pct);
                if self.tty {
                    let filled: u64 = pct * BAR_WIDTH / 100;
                    let mut s = "\r".to_owned();
                    s.append(self.label.as_str());
                    s.append(" [");
                    s.append(bar_text(filled as usize, (BAR_WIDTH - filled) as usize).as_str());
                    s.append("] ");
                    s.append(right_align(share_text.as_str(), 3).as_str());
                    s.append("% (");
                    s.append(done_mb);
                    s.append("/");
                    s.append(total_mb);
                    s.append(" MB)");
                    s
                } else {
                    let mut s = self.label.clone();
                    s.append(" ");
                    s.append(share_text.as_str());
                    s.append("%\n");
                    s
                }
            },
            None => if self.tty {
                let mut s = "\r".to_owned();
                s.append(self.label.as_str());
                s.append(" ");
                s.append(done_mb);
                s.append(" MB");
                s
            } else {
                let mut s = self.label.clone();
                s.append(" ");
                s.append(done_mb);
                s.append(" MB\n");
                s
            },
        }
    }

    /// What is drawn last: a terminal moves on to the next line.
    pub fn finish(&self, done: u64, done_mb: &str, total_mb: &str) -> (r: String)
        requires
            self.total is Some ==> done * 100 <= u64::MAX,
        ensures
            r@ == self.drawn(done, done_mb@, total_mb@) + (if self.tty {
                "\n"@
            } else {
                Seq::empty()
            }),
    {
        let mut s = self.draw(done, done_mb, total_mb);
        if self.tty {
            s.append("\n");
        }
        assert(s@ =~= self.drawn(done, done_mb@, total_mb@) + (if self.tty {
            "\n"@
        } else {
            Seq::empty()
        }));
        s
    }
}

/// A share of something that fits in a word fits in it too.
proof fn lemma_share_fits(n: int, size: int)
    requires
        0 <= n <= u64::MAX,
        1 <= size,
    ensures
        0 <= n / size <= n,
{
    assert(0 <= n / size <= n) by (nonlinear_arith)
        requires
            0 <= n,
            1 <= size,
    ;
}

/// The bar has one width, whatever is done.
pub proof fn bars_share_one_width(done: u64, total: u64)
    ensures
        bar(percent(done, total)).len() == BAR_WIDTH,
        0 <= percent(done, total) <= 100,
{
    let size = whole(total);
    assert(0 <= done * 100 / size) by (nonlinear_arith)
        requires
            size >= 1,
            done >= 0,
    ;
}

/// Progress never goes back while a download grows.
pub proof fn progress_grows(total: u64, a: u64, b: u64)
    requires
        a <= b,
    ensures
        percent(a, total) <= percent(b, total),
        decile(Some(total), a) <= decile(Some(total), b),
{
    let size = whole(total);
    vstd::arithmetic::div_mod::lemma_div_is_ordered(a * 100, b * 100, size);
    vstd::arithmetic::div_mod::lemma_div_is_ordered(a * 10, b * 10, size);
}

/// A complete download is drawn as complete, and took ten steps at most.
pub proof fn complete_downloads_look_complete(total: u64, done: u64)
    requires
        total > 0,
        done <= total,
    ensures
        percent(total, total) == 100,
        0 <= decile(Some(total), done) <= 10,
{
    assert(total * 100 / (total as int) == 100) by (nonlinear_arith)
        requires
            total > 0,
    ;
    assert(total * 10 / (total as int) == 10) by (nonlinear_arith)
        requires
            total > 0,
    ;
    progress_grows(total, done, total);
    progress_grows(total, 0, done);
}

// ---------------------------------------------------------------------------
// Laws
// ---------------------------------------------------------------------------

/// A path lies below its directory, with one slash between them, unless it is
/// absolute and stands for itself.
pub proof fn paths_lie_below_their_directory(base: &str, path: &str, r: String)
    requires
        call_ensures(join, (base, path), r),
    ensures
        path@.len() > 0 && path@[0] == '/' ==> r@ == path@,
        path@.len() == 0 || path@[0] != '/' ==> {
            &&& base@.len() == 0 ==> r@ == path@
            &&& base@.len() > 0 && base@.last() == '/' ==> r@ == base@ + path@
            &&& base@.len() > 0 && base@.last() != '/' ==> r@ == base@ + "/"@ + path@
        },
{
    assert(base@.len() == 0 ==> base@ + path@ =~= path@);
}

/// The data directory is the one that the variable names, else one called
/// `neko` in the platform's own; without either there is none.
pub proof fn data_lies_where_it_was_put(
    env: &str,
    platform: &str,
    other: Option<&str>,
    below: String,
    named: Result<String, NoDataDirectory>,
    usual: Result<String, NoDataDirectory>,
    none: Result<String, NoDataDirectory>,
)
    requires
        call_ensures(join, (platform, "neko"), below),
        call_ensures(data_dir, (Some(env), other), named),
        call_ensures(data_dir, (None, Some(platform)), usual),
        call_ensures(data_dir, (None, None), none),
    ensures
        named matches Ok(dir) && dir@ == env@,
        usual matches Ok(dir) && dir@ == below@,
        none is Err,
{
}

/// In a directory, the index is `neko.db`, and the image of a checkpoint is
/// called by its id, below `checkpoints`.
pub proof fn data_is_laid_out(dir: &str, id: &str, db: String, image: String)
    requires
        dir@.len() > 0,
        dir@.last() != '/',
        id@.len() > 0,
        id@[0] != '/',
        call_ensures(db_path, (dir,), db),
        call_ensures(checkpoint_image, (dir, id), image),
    ensures
        db@ == dir@ + "/"@ + "neko.db"@,
        image@ == dir@ + "/"@ + "checkpoints"@ + "/"@ + (id@ + ".ext4"@),
{
    reveal_strlit("neko.db");
    reveal_strlit("checkpoints");
    assert((id@ + ".ext4"@)[0] == id@[0]);
    let below = dir@ + "/"@ + "checkpoints"@;
    assert(below.last() == 's');
}

/// In any directory, paths are put together in one way: the index, the image of
/// a checkpoint and what is being downloaded lie where joining puts them.
pub proof fn data_is_put_together_alike(
    dir: &str,
    id: &str,
    file: &str,
    part: &str,
    db: String,
    below: String,
    base: &str,
    image: String,
    download: String,
    at_db: String,
    at_image: String,
    at_download: String,
)
    requires
        file@ == id@ + ".ext4"@,
        part@ == id@ + ".part"@,
        call_ensures(join, (dir, "neko.db"), db),
        call_ensures(join, (dir, "checkpoints"), below),
        base@ == below@,
        call_ensures(join, (base, file), image),
        call_ensures(join, (dir, part), download),
        call_ensures(db_path, (dir,), at_db),
        call_ensures(checkpoint_image, (dir, id), at_image),
        call_ensures(part_path, (dir, id), at_download),
    ensures
        at_db@ == db@,
        at_image@ == image@,
        at_download@ == download@,
{
}

/// A directory carries the base VM exactly where it names the pinned version,
/// and holds both the kernel and the root file system.
pub proof fn the_base_vm_is_recognised(
    own: &Assets,
    kept: &str,
    pinned: bool,
    present: bool,
    r: bool,
)
    requires
        own.version matches Some(v) ==> kept@ == text::trimmed(v@),
        call_ensures(Assets::pinned, (own,), pinned),
        call_ensures(Assets::present, (own,), present),
        call_ensures(Assets::provisioned, (own,), r),
    ensures
        pinned <==> own.version is Some && kept@ == "0.6.4"@,
        present <==> own.image && own.rootfs,
        r <==> own.version is Some && kept@ == "0.6.4"@ && own.image && own.rootfs,
{
}

/// Nothing is done where the base VM is there; else it is linked where a shuru
/// install names the pinned version, and downloaded where none does.
pub proof fn the_base_vm_is_fetched_when_needed(
    own: &Assets,
    shuru: Option<&str>,
    kept: &str,
    there: bool,
    r: Provision,
)
    requires
        shuru matches Some(v) ==> kept@ == text::trimmed(v@),
        call_ensures(Assets::provisioned, (own,), there),
        call_ensures(provision, (own, shuru), r),
    ensures
        r is Ready <==> there,
        r is Link <==> !there && shuru is Some && kept@ == "0.6.4"@,
        r is Download <==> !there && !(shuru is Some && kept@ == "0.6.4"@),
{
}

/// Links are adopted where they made the base VM complete, and a download
/// follows where they did not.
pub proof fn links_are_adopted_when_complete(own: &Assets, r: Provision)
    requires
        call_ensures(after_links, (own,), r),
    ensures
        r is Adopt <==> own.image && own.rootfs,
        r is Download <==> !(own.image && own.rootfs),
{
}

/// What is there to link and not here yet is linked: the root file system by a
/// hard link, and everything else by a symbolic one.
pub proof fn assets_are_linked(here: bool, there: bool, name: &str, needed: bool, kind: Kind)
    requires
        call_ensures(needs_link, (here, there), needed),
        call_ensures(link_kind, (name,), kind),
    ensures
        needed <==> there && !here,
        kind is Hardlink <==> name@ == "rootfs.ext4"@,
        kind is Symlink <==> name@ != "rootfs.ext4"@,
{
}

/// The base image is that of the pinned release, and what is downloaded is
/// written beside it until it is complete.
pub proof fn the_pinned_image_is_downloaded(
    dir: &str,
    r: (String, String, String),
    version: String,
    tarball: &str,
    part: String,
)
    requires
        dir@.len() > 0,
        dir@.last() != '/',
        call_ensures(base_image, (), r),
        call_ensures(version_text, (), version),
        tarball@ == r.1@,
        call_ensures(part_path, (dir, tarball), part),
    ensures
        r.0@ == "v"@ + "0.6.4"@,
        r.1@ == "shuru-os-"@ + ("v"@ + "0.6.4"@) + "-aarch64.tar.gz"@,
        r.2@ == "https://github.com/"@ + "superhq-ai/shuru"@ + "/releases/download/"@ + r.0@ + "/"@
            + r.1@,
        version@ == "0.6.4"@ + "\n"@,
        part@ == dir@ + "/"@ + (r.1@ + ".part"@),
{
    reveal_strlit("shuru-os-");
    assert((r.1@ + ".part"@)[0] == 's');
}

/// The percentage is the share that is done, rounded down, and never more than
/// a hundred.
pub proof fn percentages_are_shares(done: u64, total: u64)
    requires
        total > 0,
    ensures
        done >= total ==> percent(done, total) == 100,
        done < total ==> {
            &&& 0 <= percent(done, total) < 100
            &&& percent(done, total) * total <= done * 100
            &&& done * 100 < (percent(done, total) + 1) * total
        },
{
    let n = done * 100;
    let size = total as int;
    vstd::arithmetic::div_mod::lemma_fundamental_div_mod(n, size);
    vstd::arithmetic::div_mod::lemma_mod_bound(n, size);
    let q = n / size;
    assert(size * q == q * size) by (nonlinear_arith);
    assert((q + 1) * size == q * size + size) by (nonlinear_arith);
    if done >= total {
        assert(q >= 100) by (nonlinear_arith)
            requires
                n < (q + 1) * size,
                n >= size * 100,
                size > 0,
        ;
    } else {
        assert(0 <= q < 100) by (nonlinear_arith)
            requires
                q * size <= n,
                n < size * 100,
                n >= 0,
                n < (q + 1) * size,
                size > 0,
        ;
    }
    if q < 100 {
        assert(percent(done, total) == q);
    }
}

/// An empty download is done as soon as it has a byte.
pub proof fn empty_downloads_are_done_at_once(done: u64)
    ensures
        percent(0, 0) == 0,
        done > 0 ==> percent(done, 0) == 100,
        decile(Some(0), done) == done * 10,
{
    assert(whole(0) == 1);
    assert(done * 10 / 1 == done * 10);
    assert(done * 100 / 1 == done * 100);
}

/// A download is drawn anew for every tenth of its size that it reaches, and
/// for every four megabytes where its size is not known.
pub proof fn tenths_are_drawn(done: u64, total: u64)
    requires
        total > 0,
    ensures
        decile(Some(total), done) * total <= done * 10,
        done * 10 < (decile(Some(total), done) + 1) * total,
        decile(None, done) * 4194304 <= done,
        done < (decile(None, done) + 1) * 4194304,
{
    let n = done * 10;
    let size = total as int;
    vstd::arithmetic::div_mod::lemma_fundamental_div_mod(n, size);
    vstd::arithmetic::div_mod::lemma_mod_bound(n, size);
    let q = n / size;
    assert(size * q == q * size) by (nonlinear_arith);
    assert((q + 1) * size == q * size + size) by (nonlinear_arith);
}

/// The bar has twenty-four places, full from the left by the share that is
/// done, rounded down, and empty from there on.
pub proof fn bars_show_the_share(pct: int, full: int)
    requires
        0 <= pct <= 100,
        full * 100 <= pct * 24,
        pct * 24 < (full + 1) * 100,
    ensures
        bar(pct).len() == 24,
        forall|i: int| 0 <= i < full ==> #[trigger] bar(pct)[i] == '#',
        forall|i: int| full <= i < 24 ==> #[trigger] bar(pct)[i] == '-',
{
    assert(pct * BAR_WIDTH / 100 == full);
}

/// Progress is drawn in one line: with a bar, a percentage and both sizes on a
/// terminal, and as a percentage elsewhere; where the size is not known, what
/// is done is all that is said.
pub proof fn progress_is_drawn(p: &Progress, done: u64, done_mb: &str, total_mb: &str, r: String)
    requires
        call_ensures(Progress::draw, (p, done, done_mb, total_mb), r),
    ensures
        p.total is None && p.tty ==> r@ == "\r"@ + p.label@ + " "@ + done_mb@ + " MB"@,
        p.total is None && !p.tty ==> r@ == p.label@ + " "@ + done_mb@ + " MB\n"@,
        p.total matches Some(total) ==> {
            let pct = percent(done, total);
            let digits = number::decimal(pct as nat);
            &&& !p.tty ==> r@ == p.label@ + " "@ + digits + "%\n"@
            &&& p.tty ==> r@ == "\r"@ + p.label@ + " ["@ + bar(pct) + "] "@
                + number::right_aligned(digits, 3) + "% ("@ + done_mb@ + "/"@ + total_mb@ + " MB)"@
        },
{
}

/// What is drawn last is what is drawn, and a new line on a terminal, where
/// what is drawn has none.
pub proof fn the_last_line_ends(
    p: &Progress,
    done: u64,
    done_mb: &str,
    total_mb: &str,
    drawn: String,
    last: String,
)
    requires
        call_ensures(Progress::draw, (p, done, done_mb, total_mb), drawn),
        call_ensures(Progress::finish, (p, done, done_mb, total_mb), last),
    ensures
        p.tty ==> last@ == drawn@ + "\n"@,
        !p.tty ==> last@ == drawn@,
{
}

/// The first update is always drawn: a new download has reached no step yet.
pub proof fn new_downloads_are_drawn(label: &str, total: Option<u64>, tty: bool, r: Progress, done: u64)
    requires
        call_ensures(Progress::new, (label, total, tty), r),
        total is Some ==> done * 10 <= u64::MAX && total->Some_0 > 1,
    ensures
        r.label@ == label@,
        r.total == total,
        r.tty == tty,
        decile(total, done) != r.last_decile,
{
    match total {
        Some(t) => {
            let n = done * 10;
            let size = t as int;
            assert(n / size <= n / 2) by (nonlinear_arith)
                requires
                    n >= 0,
                    size >= 2,
            ;
        },
        None => {},
    }
}

/// A step is drawn once: the bytes that reach a new step are drawn, and more of
/// the same step are not, whatever the size.
pub proof fn steps_are_drawn_once(
    p: &mut Progress,
    later: &mut Progress,
    done: u64,
    more: u64,
    first: bool,
    second: bool,
)
    requires
        call_ensures(Progress::update, (p, done), first),
        *later == *final(p),
        call_ensures(Progress::update, (later, more), second),
    ensures
        first <==> decile(old(p).total, done) != old(p).last_decile,
        second <==> decile(old(p).total, more) != decile(old(p).total, done),
        final(p).label == old(p).label,
        final(p).total == old(p).total,
        final(p).tty == old(p).tty,
{
}

} // verus!
