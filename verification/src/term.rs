//! The web terminal page, embedded in the binary so the page and the shell
//! bridge it speaks to always ship together.

use crate::text;
use crate::text::{same, starts_with, strip_prefix, tail_of, trim_start_char};
use include_dir::Dir;
use vstd::prelude::*;

verus! {

broadcast use vstd::string::group_string_axioms;

/// Where the terminal page is served.
pub const PREFIX: &'static str = "/__neko/term";

/// Where the page opens its WebSocket.
pub const WS_PATH: &'static str = "/__neko/term/ws";

/// A directory embedded in the binary.
#[verifier::external_type_specification]
#[verifier::external_body]
pub struct ExDir<'a>(include_dir::Dir<'a>);

/// The contents of the files that an embedded directory finds, by the paths
/// that it finds them under.
pub uninterp spec fn files_in(dir: Dir<'static>) -> Map<Seq<char>, Seq<u8>>;

/// `Dir::get_file` and the `File::contents` of what it finds.
#[verifier::external_body]
fn get_file(dir: &Dir<'static>, path: &str) -> (r: Option<&'static [u8]>)
    ensures
        match r {
            Some(bytes) => files_in(*dir).contains_pair(path@, bytes@),
            None => !files_in(*dir).contains_key(path@),
        },
{
    dir.get_file(path).map(|file| file.contents())
}

/// The file that a request path asks for: the page itself for the prefix, and
/// nothing for a path outside it.
pub open spec fn file_for(path: Seq<char>) -> Option<Seq<char>> {
    if PREFIX@.is_prefix_of(path) {
        let rel = text::without_leading_char(path.skip(PREFIX@.len() as int), '/');
        Some(
            if rel.len() == 0 {
                "index.html"@
            } else {
                rel
            },
        )
    } else {
        None
    }
}

/// The content type of a file, by the ending of its name.
pub open spec fn kind_of(file: Seq<char>) -> Seq<char> {
    let ending = text::after_last(file, '.');
    if ending == "html"@ {
        "text/html; charset=utf-8"@
    } else if ending == "js"@ {
        "text/javascript; charset=utf-8"@
    } else if ending == "css"@ {
        "text/css; charset=utf-8"@
    } else if ending == "svg"@ {
        "image/svg+xml"@
    } else {
        "application/octet-stream"@
    }
}

/// How long a file may be cached. Vendor files change only with a release; the
/// page itself stays fresh.
pub open spec fn cache_of(file: Seq<char>) -> Seq<char> {
    if ("vendor/"@).is_prefix_of(file) {
        "public, max-age=86400"@
    } else {
        "no-cache"@
    }
}

/// The file that a request path asks for.
pub fn asset_path<'a>(path: &'a str) -> (r: Option<&'a str>)
    ensures
        match r {
            Some(file) => file_for(path@) == Some(file@),
            None => file_for(path@) is None,
        },
{
    match strip_prefix(path, PREFIX) {
        None => None,
        Some(rest) => {
            let rel = trim_start_char(rest, '/');
            if rel.is_empty() {
                Some("index.html")
            } else {
                Some(rel)
            }
        },
    }
}

/// The content type of a file.
pub fn content_type(file: &str) -> (r: &'static str)
    ensures
        r@ == kind_of(file@),
{
    let ending = tail_of(file, '.');
    if same(ending, "html") {
        "text/html; charset=utf-8"
    } else if same(ending, "js") {
        "text/javascript; charset=utf-8"
    } else if same(ending, "css") {
        "text/css; charset=utf-8"
    } else if same(ending, "svg") {
        "image/svg+xml"
    } else {
        "application/octet-stream"
    }
}

/// How long a file may be cached.
pub fn cache_control(file: &str) -> (r: &'static str)
    ensures
        r@ == cache_of(file@),
{
    if starts_with(file, "vendor/") {
        "public, max-age=86400"
    } else {
        "no-cache"
    }
}

/// Resolves a request path to the bytes of a file, its content type and how
/// long it may be cached.
pub fn asset(assets: &Dir<'static>, path: &str) -> (r: Option<
    (&'static [u8], &'static str, &'static str),
>)
    ensures
        match file_for(path@) {
            None => r is None,
            Some(file) => match r {
                None => !files_in(*assets).contains_key(file),
                Some((bytes, kind, cache)) => {
                    &&& files_in(*assets).contains_pair(file, bytes@)
                    &&& kind@ == kind_of(file)
                    &&& cache@ == cache_of(file)
                },
            },
        },
{
    let file = match asset_path(path) {
        None => return None,
        Some(file) => file,
    };
    match get_file(assets, file) {
        None => None,
        Some(bytes) => Some((bytes, content_type(file), cache_control(file))),
    }
}

// ---------------------------------------------------------------------------
// Laws
// ---------------------------------------------------------------------------

/// Which file a path under the prefix asks for.
pub(crate) proof fn lemma_file_under_prefix(path: Seq<char>, name: Seq<char>)
    requires
        name.len() > 0,
        name[0] != '/',
        path == "/__neko/term/"@ + name || (path == "/__neko/term"@ || path == "/__neko/term/"@)
            && name == "index.html"@,
    ensures
        file_for(path) == Some(name),
{
    reveal_strlit("/__neko/term");
    reveal_strlit("/__neko/term/");
    let rest = path.skip(12);
    assert(path.subrange(0, 12) =~= PREFIX@);
    let rel = text::without_leading_char(rest, '/');
    if path == "/__neko/term"@ {
        assert(rest =~= Seq::empty());
    } else if path == "/__neko/term/"@ {
        assert(rest =~= seq!['/']);
        assert(rest.drop_first() =~= Seq::empty());
        reveal_with_fuel(text::without_leading, 2);
    } else {
        assert(rest =~= seq!['/'] + name);
        assert(rest.drop_first() =~= name);
        reveal_with_fuel(text::without_leading, 2);
    }
}

/// Under the prefix, a path asks for the file of the name behind it, however
/// many slashes stand between; the prefix alone asks for the page.
pub proof fn paths_name_their_files(path: &str, slashes: Seq<char>, name: Seq<char>, r: Option<&str>)
    requires
        forall|i: int| 0 <= i < slashes.len() ==> slashes[i] == '/',
        name.len() == 0 || name[0] != '/',
        path@ == "/__neko/term"@ + slashes + name,
        call_ensures(asset_path, (path,), r),
    ensures
        r is Some,
        name.len() > 0 ==> r->Some_0@ == name,
        name.len() == 0 ==> r->Some_0@ == "index.html"@,
{
    reveal_strlit("/__neko/term");
    let rest = path@.skip(12);
    assert(path@.subrange(0, 12) =~= PREFIX@);
    assert(rest =~= slashes + name);
    lemma_slashes_go(slashes, name);
}

/// Slashes in front are cut.
proof fn lemma_slashes_go(slashes: Seq<char>, name: Seq<char>)
    requires
        forall|i: int| 0 <= i < slashes.len() ==> slashes[i] == '/',
        name.len() == 0 || name[0] != '/',
    ensures
        text::without_leading_char(slashes + name, '/') == name,
    decreases slashes.len(),
{
    let s = slashes + name;
    if slashes.len() > 0 {
        assert(s[0] == '/');
        assert(s.drop_first() =~= slashes.drop_first() + name);
        lemma_slashes_go(slashes.drop_first(), name);
    } else {
        assert(s =~= name);
    }
}

/// A path outside the prefix asks for no file.
pub proof fn other_paths_name_no_file(path: &str, r: Option<&str>)
    requires
        call_ensures(asset_path, (path,), r),
    ensures
        r is Some <==> ("/__neko/term"@).is_prefix_of(path@),
{
}

/// The ending of a file decides its content type, whatever stands before it.
pub proof fn endings_decide_the_content_type(start: Seq<char>, ending: Seq<char>, file: &str, r: &str)
    requires
        !ending.contains('.'),
        file@ == start + seq!['.'] + ending || file@ == ending,
        call_ensures(content_type, (file,), r),
    ensures
        ending == "html"@ ==> r@ == "text/html; charset=utf-8"@,
        ending == "js"@ ==> r@ == "text/javascript; charset=utf-8"@,
        ending == "css"@ ==> r@ == "text/css; charset=utf-8"@,
        ending == "svg"@ ==> r@ == "image/svg+xml"@,
        ending != "html"@ && ending != "js"@ && ending != "css"@ && ending != "svg"@ ==> r@
            == "application/octet-stream"@,
{
    text::lemma_after_last(start, ending, '.', file@);
    reveal_strlit("html");
    reveal_strlit("js");
    reveal_strlit("css");
    reveal_strlit("svg");
    assert("css"@[0] != "svg"@[0]);
}

/// Files of the vendor directory may be kept for a day, and every other file is
/// asked for anew.
pub proof fn vendor_files_may_be_kept(file: &str, r: &str)
    requires
        call_ensures(cache_control, (file,), r),
    ensures
        r@ == "public, max-age=86400"@ <==> ("vendor/"@).is_prefix_of(file@),
        r@ == "no-cache"@ <==> !("vendor/"@).is_prefix_of(file@),
{
    reveal_strlit("public, max-age=86400");
    reveal_strlit("no-cache");
    assert("public, max-age=86400"@.len() != "no-cache"@.len());
}

/// A file is found under the name that a path asks for, with its own bytes, and
/// with the content type and the caching of that name.
pub proof fn found_files_are_the_ones_asked_for(
    assets: &Dir<'static>,
    path: &str,
    file: Option<&str>,
    kind: &str,
    cache: &str,
    r: Option<(&'static [u8], &'static str, &'static str)>,
)
    requires
        call_ensures(asset_path, (path,), file),
        file is Some,
        call_ensures(content_type, (file->Some_0,), kind),
        call_ensures(cache_control, (file->Some_0,), cache),
        call_ensures(asset, (assets, path), r),
    ensures
        r is Some <==> files_in(*assets).contains_key(file->Some_0@),
        r matches Some((bytes, k, c)) ==> bytes@ == files_in(*assets)[file->Some_0@] && k@ == kind@
            && c@ == cache@,
{
}

} // verus!
