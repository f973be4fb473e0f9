//! Signing in, the session that is kept, and the workspaces of an account.

use crate::dist::AUTH;
use crate::json;
use crate::json::{as_flag, as_list, member, member_text, parse, record, to_document};
use crate::text;
use crate::text::{same, trim};
use serde_json::Value;
use vstd::prelude::*;
use vstd::string::StringExecFns;
use vstd::utf8;

verus! {

broadcast use vstd::string::group_string_axioms;

/// Who this program is to the identity provider.
pub const CLIENT_ID: &'static str = "neko";

/// The grant that a device asks for.
pub const DEVICE_GRANT: &'static str = "urn:ietf:params:oauth:grant-type:device_code";

/// Where a device code is asked for, below the auth base.
pub const DEVICE_CODE_PATH: &'static str = "/api/auth/device/code";

/// Where a device code is traded for a token.
pub const DEVICE_TOKEN_PATH: &'static str = "/api/auth/device/token";

/// Where the workspaces of an account are listed.
pub const WORKSPACES_PATH: &'static str = "/api/workspaces";

/// Where a session is traded for a short-lived token.
pub const TOKEN_PATH: &'static str = "/api/auth/token";

/// What goes wrong about an account.
#[derive(Debug)]
pub enum LoginError {
    NoToken,
    DeviceLogin(String),
    NotSignedIn,
    IssuedElsewhere { issued_by: String, wanted: String },
    SessionExpired,
    /// A response that is no JSON, with what the parser says of it.
    Unreadable(String),
    Unexpected(String),
    NoTokenInResponse,
    NoPersonalWorkspace,
    NotAMember(String),
    Conflict { owner: String, audience: String },
}

impl LoginError {
    /// The error as the user reads it.
    pub open spec fn text(self) -> Seq<char> {
        match self {
            LoginError::NoToken => "no token in token response"@,
            LoginError::DeviceLogin(why) => "device login failed: "@ + why@,
            LoginError::NotSignedIn => "not signed in, run: neko login"@,
            LoginError::IssuedElsewhere { issued_by, wanted } => "stored session was issued by "@
                + issued_by@ + ", not "@ + wanted@ + "; run: neko login"@,
            LoginError::SessionExpired => "session expired, run: neko login"@,
            LoginError::Unreadable(_) => "error decoding response body"@,
            LoginError::Unexpected(base) => "unexpected response from "@ + base@,
            LoginError::NoTokenInResponse => "no token in response"@,
            LoginError::NoPersonalWorkspace => "no personal workspace on this account"@,
            LoginError::NotAMember(
                slug,
            ) => "you are not a member of a workspace with the slug "@ + slug@,
            LoginError::Conflict { owner, audience } => "--workspace "@ + owner@
                + " conflicts with --private "@ + audience@
                + "; a private tunnel's owner and audience must match"@,
        }
    }

    /// The error as the user reads it.
    pub fn message(&self) -> (r: String)
        ensures
            r@ == self.text(),
    {
        match self {
            LoginError::NoToken => "no token in token response".to_owned(),
            LoginError::DeviceLogin(why) => {
                let mut s = "device login failed: ".to_owned();
                s.append(why.as_str());
                s
            },
            LoginError::NotSignedIn => "not signed in, run: neko login".to_owned(),
            LoginError::IssuedElsewhere { issued_by, wanted } => {
                let mut s = "stored session was issued by ".to_owned();
                s.append(issued_by.as_str());
                s.append(", not ");
                s.append(wanted.as_str());
                s.append("; run: neko login");
                s
            },
            LoginError::SessionExpired => "session expired, run: neko login".to_owned(),
            LoginError::Unreadable(_) => "error decoding response body".to_owned(),
            LoginError::Unexpected(base) => {
                let mut s = "unexpected response from ".to_owned();
                s.append(base.as_str());
                s
            },
            LoginError::NoTokenInResponse => "no token in response".to_owned(),
            LoginError::NoPersonalWorkspace => "no personal workspace on this account".to_owned(),
            LoginError::NotAMember(slug) => {
                let mut s = "you are not a member of a workspace with the slug ".to_owned();
                s.append(slug.as_str());
                s
            },
            LoginError::Conflict { owner, audience } => {
                let mut s = "--workspace ".to_owned();
                s.append(owner.as_str());
                s.append(" conflicts with --private ");
                s.append(audience.as_str());
                s.append("; a private tunnel's owner and audience must match");
                s
            },
        }
    }
}

impl LoginError {
    /// What caused the error, where something outside of it did.
    pub fn cause(&self) -> (r: Option<&str>)
        ensures
            match self {
                LoginError::Unreadable(why) => r matches Some(s) && s@ == why@,
                _ => r is None,
            },
    {
        match self {
            LoginError::Unreadable(why) => Some(why.as_str()),
            _ => None,
        }
    }
}

/// An address below the auth base.
pub fn endpoint(auth_base: &str, path: &str) -> (r: String)
    ensures
        r@ == auth_base@ + path@,
{
    let mut out = auth_base.to_owned();
    out.append(path);
    out
}

/// What the identity provider hands out to a device that wants to sign in.
pub struct DeviceCode {
    pub device_code: String,
    pub user_code: String,
    pub verification_uri: String,
    pub verification_uri_complete: Option<String>,
    pub interval: Option<u64>,
}

impl DeviceCode {
    /// The address that the user opens: the complete one where there is one.
    pub fn uri(&self) -> (r: &str)
        ensures
            r@ == (match self.verification_uri_complete {
                Some(s) => s@,
                None => self.verification_uri@,
            }),
    {
        match &self.verification_uri_complete {
            Some(s) => s.as_str(),
            None => self.verification_uri.as_str(),
        }
    }

    /// The seconds between two questions whether the user is done.
    pub fn wait(&self) -> (r: u64)
        ensures
            r == (match self.interval {
                Some(n) => n,
                None => 5,
            }),
    {
        match self.interval {
            Some(n) => n,
            None => 5,
        }
    }
}

/// The token in a response: under the first of three keys that holds a text,
/// else in its session.
pub open spec fn token_in(tree: json::Json) -> Option<Seq<char>> {
    match tree.member_text("access_token"@) {
        Some(s) => Some(s),
        None => match tree.member_text("token"@) {
            Some(s) => Some(s),
            None => match tree.member_text("session_token"@) {
                Some(s) => Some(s),
                None => match tree.member("session"@) {
                    Some(session) => session.member_text("token"@),
                    None => None,
                },
            },
        },
    }
}

/// The token in a response.
pub fn extract_token(body: &Value) -> (r: Option<String>)
    ensures
        text::text_of(r) == token_in(json::json_tree(*body)),
{
    match member_text(body, "access_token") {
        Some(s) => return Some(s),
        None => {},
    }
    match member_text(body, "token") {
        Some(s) => return Some(s),
        None => {},
    }
    match member_text(body, "session_token") {
        Some(s) => return Some(s),
        None => {},
    }
    match member(body, "session") {
        Some(session) => member_text(session, "token"),
        None => None,
    }
}

/// What a device does next, after asking whether the user is done.
pub enum Poll {
    /// The user is signed in with a token.
    SignedIn(String),
    /// Ask again.
    Pending,
    /// Ask again, five seconds later than usual.
    SlowDown,
    Failed(LoginError),
}

impl Poll {
    /// The seconds to wait on top of the usual ones before asking again.
    pub fn pause(&self) -> (r: u64)
        ensures
            r == (if self is SlowDown {
                5u64
            } else {
                0
            }),
    {
        match self {
            Poll::SlowDown => 5,
            _ => 0,
        }
    }
}

/// `r` is what a response to the question whether the user is done says.
pub open spec fn poll_says(ok: bool, tree: json::Json, r: Poll) -> bool {
    if ok {
        match token_in(tree) {
            Some(token) => r matches Poll::SignedIn(t) && t@ == token,
            None => r matches Poll::Failed(LoginError::NoToken),
        }
    } else {
        let error = match tree.member_text("error"@) {
            Some(s) => s,
            None => ""@,
        };
        if error == "authorization_pending"@ {
            r is Pending
        } else if error == "slow_down"@ {
            r is SlowDown
        } else {
            r matches Poll::Failed(LoginError::DeviceLogin(why)) && why@ == error
        }
    }
}

/// What a document holds; one that is no JSON holds nothing.
pub open spec fn tree_or_null(doc: Option<json::Json>) -> json::Json {
    match doc {
        Some(tree) => tree,
        None => json::Json::Null,
    }
}

/// What a parsed response to the question whether the user is done says.
pub fn poll_value(ok: bool, body: Option<&Value>) -> (r: Poll)
    ensures
        poll_says(
            ok,
            match body {
                Some(v) => json::json_tree(*v),
                None => json::Json::Null,
            },
            r,
        ),
{
    if ok {
        let token = match body {
            Some(v) => extract_token(v),
            None => None,
        };
        return match token {
            Some(t) => Poll::SignedIn(t),
            None => Poll::Failed(LoginError::NoToken),
        };
    }
    let error = match body {
        Some(v) => member_text(v, "error"),
        None => None,
    };
    let error = match error {
        Some(s) => s,
        None => "".to_owned(),
    };
    if same(error.as_str(), "authorization_pending") {
        Poll::Pending
    } else if same(error.as_str(), "slow_down") {
        Poll::SlowDown
    } else {
        Poll::Failed(LoginError::DeviceLogin(error))
    }
}

/// What a response to the question whether the user is done says.
pub fn poll(ok: bool, body: &[u8]) -> (r: Poll)
    ensures
        poll_says(ok, tree_or_null(json::json_document(body@)), r),
{
    match parse(body) {
        Ok(v) => poll_value(ok, Some(&v)),
        Err(_) => poll_value(ok, None),
    }
}

/// The record of a session: the token and the auth base that issued it.
pub open spec fn session_record(auth_base: Seq<char>, token: Seq<char>) -> json::Json {
    json::Json::Object(
        map!["auth"@ => json::Json::Text(auth_base), "token"@ => json::Json::Text(token)],
    )
}

/// The session file for a token. It records which auth base issued the token,
/// so a binary pointed at a different endpoint refuses the stale session
/// instead of sending it there.
pub fn session_document(auth_base: &str, token: &str) -> (r: String)
    ensures
        json::json_document(utf8::encode_utf8(r@)) == Some(session_record(auth_base@, token@)),
{
    proof {
        reveal_strlit("auth");
        reveal_strlit("token");
        assert("auth"@.len() != "token"@.len());
    }
    let v = record("auth", auth_base, "token", token);
    to_document(&v)
}

/// Who issued the session in a file with the text `raw`, which reads as the
/// document `doc`, and its token. Sessions saved before the auth base was
/// recorded are a bare token from the built-in default endpoint.
pub open spec fn session_in(doc: Option<json::Json>, raw: Seq<char>) -> (Seq<char>, Seq<char>) {
    match doc {
        Some(tree) => if tree.member("token"@) is Some {
            (
                match tree.member_text("auth"@) {
                    Some(s) => s,
                    None => AUTH@,
                },
                match tree.member_text("token"@) {
                    Some(s) => s,
                    None => ""@,
                },
            )
        } else {
            (AUTH@, text::trimmed(raw))
        },
        None => (AUTH@, text::trimmed(raw)),
    }
}

/// `r` is what a session by `session.0` with the token `session.1` gives to a
/// binary pointed at `auth_base`.
pub open spec fn loads(
    session: (Seq<char>, Seq<char>),
    auth_base: Seq<char>,
    r: Result<String, LoginError>,
) -> bool {
    match r {
        Ok(token) => session.0 == auth_base && token@ == session.1,
        Err(LoginError::IssuedElsewhere { issued_by, wanted }) => session.0 != auth_base
            && issued_by@ == session.0 && wanted@ == auth_base,
        Err(_) => false,
    }
}

/// Who issued the session in a file, and its token.
fn session_of(doc: Option<&Value>, raw: &str) -> (r: (String, String))
    ensures
        (r.0@, r.1@) == session_in(
            match doc {
                Some(v) => Some(json::json_tree(*v)),
                None => None,
            },
            raw@,
        ),
{
    match doc {
        Some(v) => match member(v, "token") {
            Some(_) => {
                let issued_by = match member_text(v, "auth") {
                    Some(s) => s,
                    None => AUTH.to_owned(),
                };
                let token = match member_text(v, "token") {
                    Some(s) => s,
                    None => "".to_owned(),
                };
                (issued_by, token)
            },
            None => (AUTH.to_owned(), trim(raw).to_owned()),
        },
        None => (AUTH.to_owned(), trim(raw).to_owned()),
    }
}

/// The token in a session file that was parsed, for a binary pointed at
/// `auth_base`.
pub fn load_session_value(doc: Option<&Value>, raw: &str, auth_base: &str) -> (r: Result<
    String,
    LoginError,
>)
    ensures
        loads(
            session_in(
                match doc {
                    Some(v) => Some(json::json_tree(*v)),
                    None => None,
                },
                raw@,
            ),
            auth_base@,
            r,
        ),
{
    let (issued_by, token) = session_of(doc, raw);
    if same(issued_by.as_str(), auth_base) {
        Ok(token)
    } else {
        Err(LoginError::IssuedElsewhere { issued_by, wanted: auth_base.to_owned() })
    }
}

/// The token in a session file, where there is one, for a binary pointed at
/// `auth_base`.
pub fn load_session_token(raw: Option<&str>, auth_base: &str) -> (r: Result<String, LoginError>)
    ensures
        match raw {
            Some(s) => loads(
                session_in(json::json_document(utf8::encode_utf8(s@)), s@),
                auth_base@,
                r,
            ),
            None => r matches Err(LoginError::NotSignedIn),
        },
{
    match raw {
        None => Err(LoginError::NotSignedIn),
        Some(s) => match parse(s.as_bytes()) {
            Ok(v) => load_session_value(Some(&v), s, auth_base),
            Err(_) => load_session_value(None, s, auth_base),
        },
    }
}

/// A session that was stored loads back with its token for the auth base that
/// issued it, and is refused for any other.
pub proof fn sessions_stay_with_their_issuer(
    stored: Seq<char>,
    auth_base: Seq<char>,
    token: Seq<char>,
    wanted: Seq<char>,
    r: Result<String, LoginError>,
)
    requires
        json::json_document(utf8::encode_utf8(stored)) == Some(session_record(auth_base, token)),
        loads(
            session_in(json::json_document(utf8::encode_utf8(stored)), stored),
            wanted,
            r,
        ),
    ensures
        r is Ok <==> wanted == auth_base,
        r matches Ok(t) ==> t@ == token,
{
    reveal_strlit("auth");
    reveal_strlit("token");
    assert("auth"@.len() != "token"@.len());
    let tree = session_record(auth_base, token);
    assert(tree.member("token"@) == Some(json::Json::Text(token)));
    assert(tree.member("auth"@) == Some(json::Json::Text(auth_base)));
}

/// A workspace that an account belongs to.
pub struct Workspace {
    pub id: String,
    pub slug: String,
    pub personal: bool,
}

impl Workspace {
    /// The id, the slug, and whether it is the account's own.
    pub open spec fn parts(self) -> (Seq<char>, Seq<char>, bool) {
        (self.id@, self.slug@, self.personal)
    }
}

/// The workspaces in a list.
pub open spec fn workspace_parts(list: Seq<Workspace>) -> Seq<(Seq<char>, Seq<char>, bool)> {
    Seq::new(list.len(), |i: int| list[i].parts())
}

/// The workspace that an item of the console's list describes.
pub open spec fn workspace_in(item: json::Json) -> Option<(Seq<char>, Seq<char>, bool)> {
    match (item.member_text("id"@), item.member_text("slug"@)) {
        (Some(id), Some(slug)) => Some(
            (id, slug, item.member("personal"@) == Some(json::Json::Bool(true))),
        ),
        _ => None,
    }
}

/// The workspaces that the items of the console's list describe, in their
/// order; an item that describes none is passed over.
pub open spec fn workspaces_in(items: Seq<json::Json>) -> Seq<(Seq<char>, Seq<char>, bool)>
    decreases items.len(),
{
    if items.len() == 0 {
        Seq::empty()
    } else {
        let earlier = workspaces_in(items.drop_last());
        match workspace_in(items.last()) {
            Some(w) => earlier.push(w),
            None => earlier,
        }
    }
}

/// `r` is what the console's response says of an account's workspaces.
pub open spec fn lists_workspaces(
    ok: bool,
    doc: Result<json::Json, Seq<char>>,
    auth_base: Seq<char>,
    r: Result<Vec<Workspace>, LoginError>,
) -> bool {
    if !ok {
        r matches Err(LoginError::SessionExpired)
    } else {
        match doc {
            Err(why) => r matches Err(LoginError::Unreadable(said)) && said@ == why,
            Ok(tree) => match tree.member("workspaces"@) {
                Some(json::Json::List(items)) => r matches Ok(list) && workspace_parts(list@)
                    == workspaces_in(items),
                _ => r matches Err(LoginError::Unexpected(base)) && base@ == auth_base,
            },
        }
    }
}

/// The workspace that an item of the console's list describes.
fn workspace(item: &Value) -> (r: Option<Workspace>)
    ensures
        match r {
            Some(w) => workspace_in(json::json_tree(*item)) == Some(w.parts()),
            None => workspace_in(json::json_tree(*item)) is None,
        },
{
    let id = match member_text(item, "id") {
        Some(s) => s,
        None => return None,
    };
    let slug = match member_text(item, "slug") {
        Some(s) => s,
        None => return None,
    };
    let personal = match member(item, "personal") {
        Some(v) => match as_flag(v) {
            Some(b) => b,
            None => false,
        },
        None => false,
    };
    Some(Workspace { id, slug, personal })
}

/// The workspaces in the console's parsed response.
pub fn workspaces_value(ok: bool, doc: Result<&Value, &str>, auth_base: &str) -> (r: Result<
    Vec<Workspace>,
    LoginError,
>)
    ensures
        lists_workspaces(ok, json::outcome_of(doc), auth_base@, r),
{
    if !ok {
        return Err(LoginError::SessionExpired);
    }
    let body = match doc {
        Ok(v) => v,
        Err(why) => return Err(LoginError::Unreadable(why.to_owned())),
    };
    let items = match member(body, "workspaces") {
        Some(v) => match as_list(v) {
            Some(items) => items,
            None => return Err(LoginError::Unexpected(auth_base.to_owned())),
        },
        None => return Err(LoginError::Unexpected(auth_base.to_owned())),
    };
    let ghost trees = Seq::new(items@.len(), |i: int| json::json_tree(items@[i]));
    let mut out: Vec<Workspace> = Vec::new();
    let mut i: usize = 0;
    assert(trees.take(0) =~= Seq::empty());
    assert(workspace_parts(out@) =~= Seq::empty());
    while i < items.len()
        invariant
            i <= items.len(),
            trees == Seq::new(items@.len(), |i: int| json::json_tree(items@[i])),
            workspace_parts(out@) == workspaces_in(trees.take(i as int)),
        decreases items.len() - i,
    {
        assert(trees.take(i + 1).drop_last() =~= trees.take(i as int));
        assert(trees.take(i + 1).last() == trees[i as int]);
        match workspace(&items[i]) {
            Some(w) => {
                let ghost before = out@;
                out.push(w);
                assert(workspace_parts(out@) =~= workspace_parts(before).push(w.parts()));
            },
            None => {},
        }
        i += 1;
    }
    assert(trees.take(items.len() as int) =~= trees);
    Ok(out)
}

/// The workspaces that the signed-in account belongs to, from the console's
/// response.
pub fn workspaces(ok: bool, body: &[u8], auth_base: &str) -> (r: Result<
    Vec<Workspace>,
    LoginError,
>)
    ensures
        lists_workspaces(ok, json::json_outcome(body@), auth_base@, r),
{
    if !ok {
        return Err(LoginError::SessionExpired);
    }
    match parse(body) {
        Ok(v) => workspaces_value(ok, Ok(&v), auth_base),
        Err(why) => workspaces_value(ok, Err(why.as_str()), auth_base),
    }
}

/// `i` is where the first workspace stands that a selector means: the personal
/// one for an empty selector, else the one with that slug.
pub open spec fn selects(all: Seq<Workspace>, selector: Seq<char>, i: int) -> bool {
    &&& 0 <= i < all.len()
    &&& meant_by(all[i], selector)
    &&& forall|j: int| 0 <= j < i ==> !meant_by(#[trigger] all[j], selector)
}

/// A selector means a workspace.
pub open spec fn meant_by(w: Workspace, selector: Seq<char>) -> bool {
    if selector.len() == 0 {
        w.personal
    } else {
        w.slug@ == selector
    }
}

/// `r` is the workspace that a selector means, by its id and its label.
pub open spec fn resolves_to(
    all: Seq<Workspace>,
    selector: Seq<char>,
    r: Result<(String, String), LoginError>,
) -> bool {
    match r {
        Ok((id, label)) => exists|i: int| #[trigger]
            selects(all, selector, i) && id@ == all[i].id@ && label@ == (if selector.len() == 0 {
                "your personal workspace"@
            } else {
                selector + " members"@
            }),
        Err(LoginError::NoPersonalWorkspace) => selector.len() == 0 && forall|i: int|
            0 <= i < all.len() ==> !meant_by(#[trigger] all[i], selector),
        Err(LoginError::NotAMember(slug)) => selector.len() > 0 && slug@ == selector && forall|
            i: int,
        |
            0 <= i < all.len() ==> !meant_by(#[trigger] all[i], selector),
        Err(_) => false,
    }
}

/// Resolves a selector: empty means the personal workspace, anything else is a
/// slug of a workspace that the account must belong to. Gives its id and what
/// to call its members.
pub fn resolve_workspace(all: &Vec<Workspace>, selector: &str) -> (r: Result<
    (String, String),
    LoginError,
>)
    ensures
        resolves_to(all@, selector@, r),
{
    let own = selector.is_empty();
    let mut i: usize = 0;
    while i < all.len()
        invariant
            i <= all.len(),
            own == (selector@.len() == 0),
            forall|j: int| 0 <= j < i ==> !meant_by(#[trigger] all@[j], selector@),
        decreases all.len() - i,
    {
        let w = &all[i];
        let meant = if own {
            w.personal
        } else {
            same(w.slug.as_str(), selector)
        };
        if meant {
            assert(selects(all@, selector@, i as int));
            let label = if own {
                "your personal workspace".to_owned()
            } else {
                let mut s = w.slug.clone();
                s.append(" members");
                s
            };
            return Ok((w.id.clone(), label));
        }
        i += 1;
    }
    if own {
        Err(LoginError::NoPersonalWorkspace)
    } else {
        Err(LoginError::NotAMember(selector.to_owned()))
    }
}

/// The workspace that `--private` names, where it names one.
pub open spec fn audience_of(private: Option<Seq<char>>) -> Option<Seq<char>> {
    match private {
        Some(s) => if s.len() > 0 {
            Some(s)
        } else {
            None
        },
        None => None,
    }
}

/// `r` selects the workspace of a tunnel.
pub open spec fn selects_tunnel(
    workspace: Option<Seq<char>>,
    private: Option<Seq<char>>,
    r: Result<String, LoginError>,
) -> bool {
    match (workspace, audience_of(private)) {
        (Some(owner), Some(audience)) => if owner != audience {
            r matches Err(LoginError::Conflict { owner: o, audience: a }) && o@ == owner && a@
                == audience
        } else {
            r matches Ok(s) && s@ == audience
        },
        (None, Some(audience)) => r matches Ok(s) && s@ == audience,
        (Some(owner), None) => r matches Ok(s) && s@ == owner,
        (None, None) => r matches Ok(s) && s@.len() == 0,
    }
}

/// Ownership and visibility are separate. `workspace` names the owner;
/// `private` keeps its shorthand, and omission selects the personal workspace
/// without a prompt.
pub fn tunnel_workspace_selector(workspace: Option<&str>, private: Option<&str>) -> (r: Result<
    String,
    LoginError,
>)
    ensures
        selects_tunnel(text::slice_of(workspace), text::slice_of(private), r),
{
    let audience = match private {
        Some(s) => if s.is_empty() {
            None
        } else {
            Some(s)
        },
        None => None,
    };
    match (workspace, audience) {
        (Some(owner), Some(audience)) => if same(owner, audience) {
            Ok(audience.to_owned())
        } else {
            Err(
                LoginError::Conflict { owner: owner.to_owned(), audience: audience.to_owned() },
            )
        },
        (None, Some(audience)) => Ok(audience.to_owned()),
        (Some(owner), None) => Ok(owner.to_owned()),
        (None, None) => {
            proof {
                reveal_strlit("");
            }
            Ok("".to_owned())
        },
    }
}

/// The workspace of a tunnel, by its id and what to call its members.
pub fn resolve_tunnel_workspace(
    all: &Vec<Workspace>,
    workspace: Option<&str>,
    private: Option<&str>,
) -> (r: Result<(String, String), LoginError>)
    ensures
        exists|selector: Result<String, LoginError>| #[trigger]
            selects_tunnel(text::slice_of(workspace), text::slice_of(private), selector) && match selector {
                Ok(s) => resolves_to(all@, s@, r),
                Err(e) => r == Err::<(String, String), LoginError>(e),
            },
{
    match tunnel_workspace_selector(workspace, private) {
        Ok(s) => {
            let r = resolve_workspace(all, s.as_str());
            let ghost selector: Result<String, LoginError> = Ok(s);
            assert(selects_tunnel(text::slice_of(workspace), text::slice_of(private), selector));
            r
        },
        Err(e) => {
            let ghost selector: Result<String, LoginError> = Err(e);
            assert(selects_tunnel(text::slice_of(workspace), text::slice_of(private), selector));
            Err(e)
        },
    }
}

/// `r` is the short-lived token in a response.
pub open spec fn grants(
    ok: bool,
    doc: Result<json::Json, Seq<char>>,
    r: Result<String, LoginError>,
) -> bool {
    if !ok {
        r matches Err(LoginError::SessionExpired)
    } else {
        match doc {
            Err(why) => r matches Err(LoginError::Unreadable(said)) && said@ == why,
            Ok(tree) => match tree.member_text("token"@) {
                Some(token) => r matches Ok(t) && t@ == token,
                None => r matches Err(LoginError::NoTokenInResponse),
            },
        }
    }
}

/// The short-lived token in a parsed response.
pub fn access_jwt_value(ok: bool, doc: Result<&Value, &str>) -> (r: Result<String, LoginError>)
    ensures
        grants(ok, json::outcome_of(doc), r),
{
    if !ok {
        return Err(LoginError::SessionExpired);
    }
    match doc {
        Err(why) => Err(LoginError::Unreadable(why.to_owned())),
        Ok(v) => match member_text(v, "token") {
            Some(t) => Ok(t),
            None => Err(LoginError::NoTokenInResponse),
        },
    }
}

/// The short-lived token that the edge verifies, from the response to the
/// stored session.
pub fn access_jwt(ok: bool, body: &[u8]) -> (r: Result<String, LoginError>)
    ensures
        grants(ok, json::json_outcome(body@), r),
{
    if !ok {
        return Err(LoginError::SessionExpired);
    }
    match parse(body) {
        Ok(v) => access_jwt_value(ok, Ok(&v)),
        Err(why) => access_jwt_value(ok, Err(why.as_str())),
    }
}

/// Which workspace a selector means depends on nothing but the account's own
/// list: two answers agree.
pub proof fn selection_is_deterministic(
    all: Seq<Workspace>,
    selector: Seq<char>,
    a: Result<(String, String), LoginError>,
    b: Result<(String, String), LoginError>,
)
    requires
        resolves_to(all, selector, a),
        resolves_to(all, selector, b),
    ensures
        a is Ok <==> b is Ok,
        a matches Ok((id, label)) ==> (b matches Ok((id_b, label_b)) && id@ == id_b@ && label@
            == label_b@),
{
    if a is Ok {
        let i = choose|i: int| #[trigger] selects(all, selector, i) && (a->Ok_0).0@ == all[i].id@;
        assert(meant_by(all[i], selector));
        if b is Ok {
            let j = choose|j: int| #[trigger]
                selects(all, selector, j) && (b->Ok_0).0@ == all[j].id@;
            assert(meant_by(all[j], selector));
            assert(i == j);
        }
    }
    if b is Ok {
        let j = choose|j: int| #[trigger] selects(all, selector, j) && (b->Ok_0).0@ == all[j].id@;
        assert(meant_by(all[j], selector));
    }
}

// ---------------------------------------------------------------------------
// Laws
// ---------------------------------------------------------------------------

/// Where a selector names a workspace of the account, it means the first one
/// with just that slug, and its members are named by it. Where no workspace has
/// that slug, the account is not a member of one.
pub proof fn slugs_mean_their_workspace(
    all: &Vec<Workspace>,
    selector: &str,
    r: Result<(String, String), LoginError>,
)
    requires
        selector@.len() > 0,
        call_ensures(resolve_workspace, (all, selector), r),
    ensures
        r matches Ok((id, label)) ==> label@ == selector@ + " members"@ && exists|i: int|
            {
                &&& 0 <= i < all@.len()
                &&& (#[trigger] all@[i]).slug@ == selector@
                &&& all@[i].id@ == id@
                &&& forall|j: int| 0 <= j < i ==> (#[trigger] all@[j]).slug@ != selector@
            },
        r matches Err(e) ==> (e matches LoginError::NotAMember(slug) && slug@ == selector@),
        r is Err <==> forall|i: int| 0 <= i < all@.len() ==> (#[trigger] all@[i]).slug@ != selector@,
{
    match r {
        Ok((id, label)) => {
            let i = choose|i: int| #[trigger] selects(all@, selector@, i) && id@ == all@[i].id@;
            assert(all@[i].slug@ == selector@);
            assert forall|j: int| 0 <= j < i implies (#[trigger] all@[j]).slug@ != selector@ by {
                assert(!meant_by(all@[j], selector@));
            }
        },
        Err(_) => {
            assert forall|i: int| 0 <= i < all@.len() implies (#[trigger] all@[i]).slug@
                != selector@ by {
                assert(!meant_by(all@[i], selector@));
            }
        },
    }
}

/// An empty selector means the first workspace that is the account's own,
/// whatever the slugs are.
pub proof fn the_empty_selector_means_the_personal_workspace(
    all: &Vec<Workspace>,
    selector: &str,
    r: Result<(String, String), LoginError>,
)
    requires
        selector@.len() == 0,
        call_ensures(resolve_workspace, (all, selector), r),
    ensures
        r matches Ok((id, label)) ==> label@ == "your personal workspace"@ && exists|i: int|
            {
                &&& 0 <= i < all@.len()
                &&& (#[trigger] all@[i]).personal
                &&& all@[i].id@ == id@
                &&& forall|j: int| 0 <= j < i ==> !(#[trigger] all@[j]).personal
            },
        r matches Err(e) ==> e is NoPersonalWorkspace,
        r is Err <==> forall|i: int| 0 <= i < all@.len() ==> !(#[trigger] all@[i]).personal,
{
    match r {
        Ok((id, label)) => {
            let i = choose|i: int| #[trigger] selects(all@, selector@, i) && id@ == all@[i].id@;
            assert(all@[i].personal);
            assert forall|j: int| 0 <= j < i implies !(#[trigger] all@[j]).personal by {
                assert(!meant_by(all@[j], selector@));
            }
        },
        Err(_) => {
            assert forall|i: int| 0 <= i < all@.len() implies !(#[trigger] all@[i]).personal by {
                assert(!meant_by(all@[i], selector@));
            }
        },
    }
}

/// The owner of a tunnel is who was named, by either flag; both may name it, if
/// they agree, and where neither does it is the personal workspace. A bare
/// `--private` names nobody.
pub proof fn owners_are_who_was_named(
    workspace: Option<&str>,
    private: Option<&str>,
    r: Result<String, LoginError>,
)
    requires
        call_ensures(tunnel_workspace_selector, (workspace, private), r),
    ensures
        ({
            let named = private is Some && private->Some_0@.len() > 0;
            let conflict = named && workspace is Some && workspace->Some_0@ != private->Some_0@;
            &&& r is Err <==> conflict
            &&& r is Ok && named ==> r->Ok_0@ == private->Some_0@
            &&& r is Ok && workspace is Some ==> r->Ok_0@ == workspace->Some_0@
            &&& r is Ok && !named && workspace is None ==> r->Ok_0@.len() == 0
            &&& r matches Err(e) ==> (e matches LoginError::Conflict { owner, audience } && owner@
                == workspace->Some_0@ && audience@ == private->Some_0@)
        }),
{
}

/// The workspace of a tunnel is the one that its flags select: resolving the
/// selector by itself gives the same answer.
pub proof fn tunnels_belong_to_the_selected_workspace(
    all: &Vec<Workspace>,
    workspace: Option<&str>,
    private: Option<&str>,
    selector: Result<String, LoginError>,
    name: &str,
    alone: Result<(String, String), LoginError>,
    r: Result<(String, String), LoginError>,
)
    requires
        call_ensures(tunnel_workspace_selector, (workspace, private), selector),
        call_ensures(resolve_tunnel_workspace, (all, workspace, private), r),
        selector matches Ok(s) ==> name@ == s@ && call_ensures(resolve_workspace, (all, name), alone),
    ensures
        selector is Err ==> (r matches Err(e) && e is Conflict),
        selector is Ok ==> (r is Ok <==> alone is Ok),
        selector is Ok && r is Ok ==> r->Ok_0.0@ == alone->Ok_0.0@ && r->Ok_0.1@ == alone->Ok_0.1@,
{
    let other = choose|other: Result<String, LoginError>| #[trigger]
        selects_tunnel(text::slice_of(workspace), text::slice_of(private), other) && match other {
            Ok(s) => resolves_to(all@, s@, r),
            Err(e) => r == Err::<(String, String), LoginError>(e),
        };
    if selector is Ok {
        assert(other->Ok_0@ =~= selector->Ok_0@);
        selection_is_deterministic(all@, name@, r, alone);
    }
}

/// A JSON object's member that is a text.
pub open spec fn holds_text(tree: json::Json, key: Seq<char>, value: Seq<char>) -> bool {
    tree matches json::Json::Object(members) && members.contains_key(key) && members[key]
        == json::Json::Text(value)
}

/// A JSON object's member, if any, is no text.
pub open spec fn lacks_text(tree: json::Json, key: Seq<char>) -> bool {
    tree matches json::Json::Object(members) ==> members.contains_key(key) ==> !(members[key]
        is Text)
}

/// A token is found under any of the keys that a provider may use, the first of
/// them before the others.
pub proof fn tokens_are_found_under_their_keys(body: &Value, token: Seq<char>, r: Option<String>)
    requires
        call_ensures(extract_token, (body,), r),
    ensures
        ({
            let tree = json::json_tree(*body);
            &&& holds_text(tree, "access_token"@, token) ==> text::text_of(r) == Some(token)
            &&& lacks_text(tree, "access_token"@) ==> {
                &&& holds_text(tree, "token"@, token) ==> text::text_of(r) == Some(token)
                &&& lacks_text(tree, "token"@) ==> {
                    &&& holds_text(tree, "session_token"@, token) ==> text::text_of(r) == Some(
                        token,
                    )
                    &&& lacks_text(tree, "session_token"@) ==> {
                        let inner = tree is Object && tree->Object_0.contains_key("session"@);
                        let session = tree->Object_0["session"@];
                        &&& inner && holds_text(session, "token"@, token) ==> text::text_of(r)
                            == Some(token)
                        &&& !inner || lacks_text(session, "token"@) ==> r is None
                    }
                }
            }
        }),
{
}

/// A device is signed in with the token that a granted response holds, fails
/// where it holds none, and asks again only where it was told to wait.
pub proof fn devices_wait_until_they_are_signed_in(
    ok: bool,
    body: &Value,
    token: Option<String>,
    error: Seq<char>,
    r: Poll,
)
    requires
        call_ensures(poll_value, (ok, Some(body)), r),
        call_ensures(extract_token, (body,), token),
    ensures
        ok && token is Some ==> (r matches Poll::SignedIn(t) && t@ == token->Some_0@),
        ok && token is None ==> (r matches Poll::Failed(e) && e is NoToken),
        !ok && holds_text(json::json_tree(*body), "error"@, error) ==> {
            &&& r is Pending <==> error == "authorization_pending"@
            &&& r is SlowDown <==> error == "slow_down"@
            &&& error != "authorization_pending"@ && error != "slow_down"@ ==> (
            r matches Poll::Failed(e) && (e matches LoginError::DeviceLogin(why) && why@ == error))
        },
        !ok && lacks_text(json::json_tree(*body), "error"@) ==> (r matches Poll::Failed(e) && (
        e matches LoginError::DeviceLogin(why) && why@.len() == 0)),
{
    reveal_strlit("authorization_pending");
    reveal_strlit("slow_down");
    reveal_strlit("");
    assert("authorization_pending"@.len() != "slow_down"@.len());
}

/// A response that is no JSON is taken as one without a token and without an
/// error of its own.
pub proof fn unreadable_answers_fail(ok: bool, r: Poll)
    requires
        call_ensures(poll_value, (ok, None), r),
    ensures
        ok ==> (r matches Poll::Failed(e) && e is NoToken),
        !ok ==> (r matches Poll::Failed(e) && (e matches LoginError::DeviceLogin(why) && why@.len()
            == 0)),
{
    reveal_strlit("authorization_pending");
    reveal_strlit("slow_down");
    reveal_strlit("");
    assert(""@.len() != "authorization_pending"@.len());
    assert(""@.len() != "slow_down"@.len());
}

/// What is read from a response is what is read from its JSON.
pub proof fn answers_are_read_as_json(ok: bool, body: &[u8], v: &Value, a: Poll, b: Poll)
    requires
        json::json_outcome(body@) == Ok::<json::Json, Seq<char>>(json::json_tree(*v)),
        call_ensures(poll, (ok, body), a),
        call_ensures(poll_value, (ok, Some(v)), b),
    ensures
        a is SignedIn <==> b is SignedIn,
        a is SignedIn ==> a->SignedIn_0@ == b->SignedIn_0@,
        a is Pending <==> b is Pending,
        a is SlowDown <==> b is SlowDown,
        a is Failed && a->Failed_0 is DeviceLogin <==> b is Failed && b->Failed_0 is DeviceLogin,
        a is Failed && a->Failed_0 is DeviceLogin ==> a->Failed_0->DeviceLogin_0@
            == b->Failed_0->DeviceLogin_0@,
{
}

/// A response that is no JSON is read as such.
pub proof fn answers_that_are_no_json_fail(ok: bool, body: &[u8], a: Poll)
    requires
        json::json_outcome(body@) is Err,
        call_ensures(poll, (ok, body), a),
    ensures
        ok ==> (a matches Poll::Failed(e) && e is NoToken),
        !ok ==> (a matches Poll::Failed(e) && (e matches LoginError::DeviceLogin(why) && why@.len()
            == 0)),
{
    reveal_strlit("authorization_pending");
    reveal_strlit("slow_down");
    reveal_strlit("");
    assert(""@.len() != "authorization_pending"@.len());
    assert(""@.len() != "slow_down"@.len());
}

/// Being told to slow down adds five seconds, and nothing else adds any.
pub proof fn slowing_down_takes_five_seconds(p: &Poll, r: u64)
    requires
        call_ensures(Poll::pause, (p,), r),
    ensures
        p is SlowDown ==> r == 5,
        !(p is SlowDown) ==> r == 0,
{
}

/// A device opens the complete address where it was given one, and waits as
/// long as it was told, else five seconds.
pub proof fn devices_follow_their_code(code: &DeviceCode, uri: &str, wait: u64)
    requires
        call_ensures(DeviceCode::uri, (code,), uri),
        call_ensures(DeviceCode::wait, (code,), wait),
    ensures
        code.verification_uri_complete matches Some(s) ==> uri@ == s@,
        code.verification_uri_complete is None ==> uri@ == code.verification_uri@,
        code.interval matches Some(n) ==> wait == n,
        code.interval is None ==> wait == 5,
{
}

/// A stored session loads for the auth base that issued it with the token that
/// was stored, and is refused for any other with both named; this holds of
/// every token and every base.
pub proof fn stored_sessions_load(
    auth_base: &str,
    token: &str,
    wanted: &str,
    stored: String,
    text: &str,
    r: Result<String, LoginError>,
)
    requires
        call_ensures(session_document, (auth_base, token), stored),
        text@ == stored@,
        call_ensures(load_session_token, (Some(text), wanted), r),
    ensures
        wanted@ == auth_base@ ==> (r matches Ok(t) && t@ == token@),
        wanted@ != auth_base@ ==> (r matches Err(e) && (e matches LoginError::IssuedElsewhere {
            issued_by,
            wanted: w,
        } && issued_by@ == auth_base@ && w@ == wanted@)),
{
    sessions_stay_with_their_issuer(stored@, auth_base@, token@, wanted@, r);
    reveal_strlit("auth");
    reveal_strlit("token");
    assert("auth"@.len() != "token"@.len());
    let tree = session_record(auth_base@, token@);
    assert(tree.member("auth"@) == Some(json::Json::Text(auth_base@)));
}

/// A file that is no record of a session is a bare token of the built-in auth
/// base, without white space around it; no file is no session.
pub proof fn bare_tokens_load(
    raw: &str,
    kept: &str,
    wanted: &str,
    r: Result<String, LoginError>,
    none: Result<String, LoginError>,
)
    requires
        json::json_outcome(vstd::utf8::encode_utf8(raw@)) matches Ok(tree) ==> !(tree is Object)
            || !tree->Object_0.contains_key("token"@),
        call_ensures(trim, (raw,), kept),
        call_ensures(load_session_token, (Some(raw), wanted), r),
        call_ensures(load_session_token, (None, wanted), none),
    ensures
        wanted@ == "https://app.superhq.ai"@ ==> (r matches Ok(t) && t@ == kept@),
        wanted@ != "https://app.superhq.ai"@ ==> r is Err,
        none matches Err(e) && e is NotSignedIn,
{
}

/// A record of a session without an auth base belongs to the built-in one.
pub proof fn sessions_without_a_base_are_the_builtin_ones(
    doc: &Value,
    raw: &str,
    token: Seq<char>,
    wanted: &str,
    r: Result<String, LoginError>,
)
    requires
        holds_text(json::json_tree(*doc), "token"@, token),
        lacks_text(json::json_tree(*doc), "auth"@),
        call_ensures(load_session_value, (Some(doc), raw, wanted), r),
    ensures
        wanted@ == "https://app.superhq.ai"@ ==> (r matches Ok(t) && t@ == token),
        wanted@ != "https://app.superhq.ai"@ ==> r is Err,
{
}

/// A workspace of the console's list: its id, its slug, and whether it is the
/// account's own, which it is only where it says so.
pub open spec fn describes(item: json::Json, id: Seq<char>, slug: Seq<char>, personal: bool) -> bool {
    &&& holds_text(item, "id"@, id)
    &&& holds_text(item, "slug"@, slug)
    &&& personal == (item->Object_0.contains_key("personal"@) && item->Object_0["personal"@]
        == json::Json::Bool(true))
}

/// The workspaces of an account are listed one after the other, as they are
/// described: a list with one item more has one workspace more at its end, or
/// the same ones where that item describes none.
pub proof fn workspaces_are_listed_in_order(
    items: Seq<json::Json>,
    item: json::Json,
    id: Seq<char>,
    slug: Seq<char>,
    personal: bool,
)
    ensures
        workspaces_in(Seq::empty()).len() == 0,
        describes(item, id, slug, personal) ==> workspaces_in(items.push(item)) == workspaces_in(
            items,
        ).push((id, slug, personal)),
        lacks_text(item, "id"@) || lacks_text(item, "slug"@) ==> workspaces_in(items.push(item))
            == workspaces_in(items),
{
    assert(items.push(item).drop_last() =~= items);
}

/// What the console says of an account's workspaces is its list: a refused
/// request means that the session is over, a response that is no JSON is handed
/// on with the reason, and one without a list is not expected.
pub proof fn the_console_is_believed(
    ok: bool,
    body: &[u8],
    auth_base: &str,
    i: int,
    r: Result<Vec<Workspace>, LoginError>,
)
    requires
        call_ensures(workspaces, (ok, body, auth_base), r),
    ensures
        !ok ==> (r matches Err(e) && e is SessionExpired),
        ok ==> match json::json_outcome(body@) {
            Err(why) => r matches Err(e) && (e matches LoginError::Unreadable(said) && said@ == why),
            Ok(tree) => {
                let lists = tree is Object && tree->Object_0.contains_key("workspaces"@)
                    && tree->Object_0["workspaces"@] is List;
                &&& lists ==> (r matches Ok(list) && {
                    let described = workspaces_in(tree->Object_0["workspaces"@]->List_0);
                    &&& list@.len() == described.len()
                    &&& 0 <= i < list@.len() ==> list@[i].id@ == described[i].0 && list@[i].slug@
                        == described[i].1 && list@[i].personal == described[i].2
                })
                &&& !lists ==> (r matches Err(e) && (e matches LoginError::Unexpected(base) && base@
                    == auth_base@))
            },
        },
{
    if r is Ok {
        let list = r->Ok_0@;
        assert(workspace_parts(list).len() == list.len());
        if 0 <= i < list.len() {
            assert(workspace_parts(list)[i] == (list[i].id@, list[i].slug@, list[i].personal));
        }
    }
}

/// A session is traded for just the token that the console gives for it.
pub proof fn sessions_are_traded_for_tokens(
    ok: bool,
    body: &[u8],
    token: Seq<char>,
    r: Result<String, LoginError>,
)
    requires
        call_ensures(access_jwt, (ok, body), r),
    ensures
        !ok ==> (r matches Err(e) && e is SessionExpired),
        ok ==> match json::json_outcome(body@) {
            Err(why) => r matches Err(e) && (e matches LoginError::Unreadable(said) && said@ == why),
            Ok(tree) => {
                &&& holds_text(tree, "token"@, token) ==> (r matches Ok(t) && t@ == token)
                &&& lacks_text(tree, "token"@) ==> (r matches Err(e) && e is NoTokenInResponse)
            },
        },
{
}

/// An address below the auth base is the base and the path.
pub proof fn endpoints_lie_below_the_base(auth_base: &str, path: &str, r: String)
    requires
        call_ensures(endpoint, (auth_base, path), r),
    ensures
        r@ == auth_base@ + path@,
{
}

/// A record of a session whose token is no text holds an empty one.
pub proof fn sessions_without_a_text_are_empty(
    doc: &Value,
    raw: &str,
    auth_base: Seq<char>,
    wanted: &str,
    r: Result<String, LoginError>,
)
    requires
        lacks_text(json::json_tree(*doc), "token"@),
        json::json_tree(*doc) is Object,
        json::json_tree(*doc)->Object_0.contains_key("token"@),
        holds_text(json::json_tree(*doc), "auth"@, auth_base),
        call_ensures(load_session_value, (Some(doc), raw, wanted), r),
    ensures
        wanted@ == auth_base ==> (r matches Ok(t) && t@.len() == 0),
        wanted@ != auth_base ==> (r matches Err(e) && (e matches LoginError::IssuedElsewhere {
            issued_by,
            wanted: w,
        } && issued_by@ == auth_base && w@ == wanted@)),
{
    reveal_strlit("");
}

/// What is read from the console's bytes is what is read from their JSON.
pub proof fn consoles_are_read_as_json(
    ok: bool,
    body: &[u8],
    v: &Value,
    auth_base: &str,
    a: Result<String, LoginError>,
    b: Result<String, LoginError>,
    c: Result<Vec<Workspace>, LoginError>,
    d: Result<Vec<Workspace>, LoginError>,
)
    requires
        json::json_outcome(body@) == Ok::<json::Json, Seq<char>>(json::json_tree(*v)),
        call_ensures(access_jwt, (ok, body), a),
        call_ensures(access_jwt_value, (ok, Ok(v)), b),
        call_ensures(workspaces, (ok, body, auth_base), c),
        call_ensures(workspaces_value, (ok, Ok(v), auth_base), d),
    ensures
        a is Ok <==> b is Ok,
        a is Ok ==> a->Ok_0@ == b->Ok_0@,
        c is Ok <==> d is Ok,
        c is Ok ==> workspace_parts(c->Ok_0@) == workspace_parts(d->Ok_0@),
{
}

/// An error says what went wrong and of what, and only a response that could
/// not be read has a cause, which is what the parser said.
pub proof fn login_errors_speak(
    s: String,
    t: String,
    no_token: String,
    device: String,
    not_signed_in: String,
    elsewhere: String,
    expired: String,
    unreadable: String,
    unexpected: String,
    no_grant: String,
    nobody: String,
    stranger: String,
    conflict: String,
    cause: Option<&str>,
)
    requires
        call_ensures(LoginError::message, (&LoginError::NoToken,), no_token),
        call_ensures(LoginError::message, (&LoginError::DeviceLogin(s),), device),
        call_ensures(LoginError::message, (&LoginError::NotSignedIn,), not_signed_in),
        call_ensures(
            LoginError::message,
            (&(LoginError::IssuedElsewhere { issued_by: s, wanted: t }),),
            elsewhere,
        ),
        call_ensures(LoginError::message, (&LoginError::SessionExpired,), expired),
        call_ensures(LoginError::message, (&LoginError::Unreadable(s),), unreadable),
        call_ensures(LoginError::message, (&LoginError::Unexpected(s),), unexpected),
        call_ensures(LoginError::message, (&LoginError::NoTokenInResponse,), no_grant),
        call_ensures(LoginError::message, (&LoginError::NoPersonalWorkspace,), nobody),
        call_ensures(LoginError::message, (&LoginError::NotAMember(s),), stranger),
        call_ensures(
            LoginError::message,
            (&(LoginError::Conflict { owner: s, audience: t }),),
            conflict,
        ),
        call_ensures(LoginError::cause, (&LoginError::Unreadable(s),), cause),
    ensures
        no_token@ == "no token in token response"@,
        device@ == "device login failed: "@ + s@,
        not_signed_in@ == "not signed in, run: neko login"@,
        elsewhere@ == "stored session was issued by "@ + s@ + ", not "@ + t@
            + "; run: neko login"@,
        expired@ == "session expired, run: neko login"@,
        unreadable@ == "error decoding response body"@,
        unexpected@ == "unexpected response from "@ + s@,
        no_grant@ == "no token in response"@,
        nobody@ == "no personal workspace on this account"@,
        stranger@ == "you are not a member of a workspace with the slug "@ + s@,
        conflict@ == "--workspace "@ + s@ + " conflicts with --private "@ + t@
            + "; a private tunnel's owner and audience must match"@,
        cause matches Some(why) && why@ == s@,
{
}

} // verus!
