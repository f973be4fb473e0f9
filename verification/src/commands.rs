//! The commands that manage computers and checkpoints: what they do to the
//! store, and what they print.

use crate::calendar;
use crate::calendar::fmt_time;
use crate::number;
use crate::number::{decimal_text, pad};
use crate::store;
use crate::store::{Checkpoint, Computer, ComputerRow, Store, StoreError};
use crate::text;
use crate::text::is_among;
use std::time::UNIX_EPOCH;
use vstd::prelude::*;
use vstd::string::{StringExecFns, StringSliceAdditionalSpecFns};
use vstd::utf8;

verus! {

broadcast use {vstd::string::group_string_axioms, crate::text::views_push};

// ---------------------------------------------------------------------------
// The clock
// ---------------------------------------------------------------------------

/// `SystemTime::elapsed` of the Unix epoch: whole seconds since then, or
/// nothing where the clock stands before it.
#[verifier::external_body]
fn seconds_since_epoch() -> Option<u64> {
    UNIX_EPOCH.elapsed().ok().map(|d| d.as_secs())
}

/// Seconds since the epoch as a signed number, as far as one holds them; a
/// clock that stands before the epoch counts as the epoch.
pub open spec fn unix_time(elapsed: Option<u64>) -> i64 {
    match elapsed {
        Some(secs) => if secs <= i64::MAX {
            secs as i64
        } else {
            i64::MAX
        },
        None => 0,
    }
}

/// Seconds since the epoch as a signed number.
pub fn unix_seconds(elapsed: Option<u64>) -> (r: i64)
    ensures
        r == unix_time(elapsed),
{
    match elapsed {
        Some(secs) => if secs <= i64::MAX as u64 {
            secs as i64
        } else {
            i64::MAX
        },
        None => 0,
    }
}

/// The time, in Unix seconds: never before the epoch.
pub fn now() -> (r: i64)
    ensures
        r >= 0,
        exists|elapsed: Option<u64>| r == #[trigger] unix_time(elapsed),
{
    let elapsed = seconds_since_epoch();
    assert(unix_time(elapsed) == unix_time(elapsed));
    unix_seconds(elapsed)
}

// ---------------------------------------------------------------------------
// Short ids
// ---------------------------------------------------------------------------

/// Where a short id ends: after eight bytes, or where the id ends.
pub open spec fn short_len(id: Seq<char>) -> int {
    if utf8::encode_utf8(id).len() <= 8 {
        utf8::encode_utf8(id).len() as int
    } else {
        8
    }
}

/// Whether an id can be cut there without splitting a character.
pub open spec fn cuttable(id: Seq<char>) -> bool {
    utf8::is_char_boundary(utf8::encode_utf8(id), short_len(id))
}

/// The first eight bytes of an id.
pub open spec fn short_id(id: Seq<char>) -> Seq<char> {
    utf8::decode_utf8(utf8::encode_utf8(id).take(short_len(id)))
}

/// The first eight bytes of an id, or all of it.
pub fn short<'a>(id: &'a str) -> (r: &'a str)
    requires
        cuttable(id@),
    ensures
        r@ == short_id(id@),
{
    broadcast use utf8::encode_utf8_decode_utf8;

    let total = id.as_bytes().len();
    let n: usize = if total <= 8 {
        total
    } else {
        8
    };
    let (head, _) = id.split_at(n);
    assert(head.spec_bytes() =~= id.spec_bytes().take(n as int));
    head
}

/// Whether an id can be cut without splitting a character.
pub fn can_cut(id: &str) -> (r: bool)
    ensures
        r == cuttable(id@),
{
    let total = id.as_bytes().len();
    let n: usize = if total <= 8 {
        total
    } else {
        8
    };
    id.is_char_boundary(n)
}

/// An id of ASCII characters can be cut, and is cut after eight of them.
pub proof fn plain_ids_are_cut_after_eight(id: Seq<char>)
    requires
        utf8::is_ascii_chars(id),
    ensures
        cuttable(id),
        short_id(id) == id.take(if id.len() <= 8 {
            id.len() as int
        } else {
            8
        }),
{
    let n = if id.len() <= 8 {
        id.len() as int
    } else {
        8
    };
    utf8::is_ascii_chars_encode_utf8(id);
    utf8::is_ascii_chars_encode_utf8(id.take(n));
    assert(utf8::encode_utf8(id).take(n) =~= utf8::encode_utf8(id.take(n)));
    utf8::encode_utf8_decode_utf8(id.take(n));
    utf8::encode_utf8_valid_utf8(id);
    if n < id.len() {
        utf8::is_char_boundary_iff_not_is_continuation_byte(utf8::encode_utf8(id), n);
    } else {
        utf8::is_char_boundary_start_end_of_seq(utf8::encode_utf8(id));
    }
}

// ---------------------------------------------------------------------------
// Listings
// ---------------------------------------------------------------------------

/// A Unix time as a listing shows it.
pub open spec fn shown_time(secs: i64) -> Seq<char> {
    calendar::shown(secs as int)
}

/// Four columns of a listing of computers.
pub open spec fn columns(
    name: Seq<char>,
    state: Seq<char>,
    created: Seq<char>,
    head: Seq<char>,
) -> Seq<char> {
    number::padded(name, 20) + " "@ + number::padded(state, 10) + " "@ + number::padded(created, 18)
        + " "@ + head
}

/// The line of a listing for one computer.
pub open spec fn computer_line(c: Computer) -> Seq<char> {
    columns(
        c.name@,
        "stopped"@,
        shown_time(c.created_at),
        match c.head_id {
            Some(id) => short_id(id@),
            None => "-"@,
        },
    )
}

/// The listing of computers.
pub open spec fn ls_text(computers: Seq<Computer>) -> Seq<Seq<char>> {
    if computers.len() == 0 {
        seq!["no computers yet"@]
    } else {
        seq![columns("NAME"@, "STATE"@, "CREATED"@, "HEAD"@)] + Seq::new(
            computers.len(),
            |i: int| computer_line(computers[i]),
        )
    }
}

/// Lays out four columns.
fn column_text(name: &str, state: &str, created: &str, head: &str) -> (r: String)
    ensures
        r@ == columns(name@, state@, created@, head@),
{
    let mut s = pad(name, 20);
    s.append(" ");
    s.append(pad(state, 10).as_str());
    s.append(" ");
    s.append(pad(created, 18).as_str());
    s.append(" ");
    s.append(head);
    s
}

/// The lines that `neko ls` prints for the computers of the store.
pub fn ls(computers: &Vec<Computer>) -> (r: Vec<String>)
    requires
        forall|i: int|
            0 <= i < computers@.len() && (#[trigger] computers@[i]).head_id is Some ==> cuttable(
                computers@[i].head_id->Some_0@,
            ),
    ensures
        text::views(r@) == ls_text(computers@),
{
    let mut out: Vec<String> = Vec::new();
    if computers.len() == 0 {
        out.push("no computers yet".to_owned());
        assert(text::views(out@) =~= ls_text(computers@));
        return out;
    }
    out.push(column_text("NAME", "STATE", "CREATED", "HEAD"));
    let mut i: usize = 0;
    while i < computers.len()
        invariant
            i <= computers.len(),
            computers@.len() > 0,
            forall|i: int|
                0 <= i < computers@.len() && (#[trigger] computers@[i]).head_id is Some
                    ==> cuttable(computers@[i].head_id->Some_0@),
            text::views(out@) =~= ls_text(computers@).take(i + 1),
        decreases computers.len() - i,
    {
        let c = &computers[i];
        let head: &str = match &c.head_id {
            Some(id) => short(id.as_str()),
            None => "-",
        };
        let created = fmt_time(c.created_at);
        out.push(column_text(c.name.as_str(), "stopped", created.as_str(), head));
        assert(ls_text(computers@).take(i + 2) =~= ls_text(computers@).take(i + 1).push(
            computer_line(computers@[i as int]),
        ));
        i += 1;
    }
    assert(ls_text(computers@).take(computers@.len() as int + 1) =~= ls_text(computers@));
    out
}

/// The line of a history for one checkpoint.
pub open spec fn checkpoint_line(cp: Checkpoint) -> Seq<char> {
    short_id(cp.id@) + "  "@ + shown_time(cp.created_at) + "  "@ + match cp.label {
        Some(label) => label@,
        None => ""@,
    }
}

/// The history of a computer.
pub open spec fn history_text(name: Seq<char>, checkpoints: Seq<Checkpoint>) -> Seq<Seq<char>> {
    if checkpoints.len() == 0 {
        seq![name + " has no checkpoints yet"@]
    } else {
        Seq::new(checkpoints.len(), |i: int| checkpoint_line(checkpoints[i]))
    }
}

/// The lines that `neko history` prints for the history of a computer.
pub fn history(name: &str, checkpoints: &Vec<Checkpoint>) -> (r: Vec<String>)
    requires
        forall|i: int| 0 <= i < checkpoints@.len() ==> cuttable((#[trigger] checkpoints@[i]).id@),
    ensures
        text::views(r@) == history_text(name@, checkpoints@),
{
    let mut out: Vec<String> = Vec::new();
    if checkpoints.len() == 0 {
        let mut s = name.to_owned();
        s.append(" has no checkpoints yet");
        out.push(s);
        assert(text::views(out@) =~= history_text(name@, checkpoints@));
        return out;
    }
    let mut i: usize = 0;
    while i < checkpoints.len()
        invariant
            i <= checkpoints.len(),
            checkpoints@.len() > 0,
            forall|i: int|
                0 <= i < checkpoints@.len() ==> cuttable((#[trigger] checkpoints@[i]).id@),
            text::views(out@) =~= history_text(name@, checkpoints@).take(i as int),
        decreases checkpoints.len() - i,
    {
        let cp = &checkpoints[i];
        let mut s = short(cp.id.as_str()).to_owned();
        s.append("  ");
        s.append(fmt_time(cp.created_at).as_str());
        s.append("  ");
        match &cp.label {
            Some(label) => s.append(label.as_str()),
            None => s.append(""),
        }
        out.push(s);
        assert(history_text(name@, checkpoints@).take(i + 1) =~= history_text(
            name@,
            checkpoints@,
        ).take(i as int).push(checkpoint_line(checkpoints@[i as int])));
        i += 1;
    }
    assert(history_text(name@, checkpoints@).take(checkpoints@.len() as int) =~= history_text(
        name@,
        checkpoints@,
    ));
    out
}

// ---------------------------------------------------------------------------
// Removing and pruning
// ---------------------------------------------------------------------------

/// Why a command failed.
#[derive(Debug)]
pub enum CommandError {
    Store(StoreError),
    NoSuchComputer(String),
    NameTaken(String),
}

impl CommandError {
    /// The error as the user reads it; a database error speaks for itself.
    pub open spec fn text(self) -> Option<Seq<char>> {
        match self {
            CommandError::Store(e) => e.text(),
            CommandError::NoSuchComputer(name) => Some("no such computer: "@ + name@),
            CommandError::NameTaken(name) => Some("computer '"@ + name@ + "' already exists"@),
        }
    }

    /// The error as the user reads it; `None` for a database error.
    pub fn message(&self) -> (r: Option<String>)
        ensures
            text::text_of(r) == self.text(),
    {
        match self {
            CommandError::Store(e) => e.message(),
            CommandError::NoSuchComputer(name) => {
                let mut s = "no such computer: ".to_owned();
                s.append(name.as_str());
                Some(s)
            },
            CommandError::NameTaken(name) => {
                let mut s = "computer '".to_owned();
                s.append(name.as_str());
                s.append("' already exists");
                Some(s)
            },
        }
    }
}

/// `dead` is every checkpoint of the table that no computer leads to, once.
pub open spec fn is_dead_wood(
    computers: store::Computers,
    table: store::Checkpoints,
    dead: Seq<Checkpoint>,
) -> bool {
    &&& forall|i: int|
        0 <= i < dead.len() ==> {
            &&& table.contains_pair((#[trigger] dead[i]).id@, dead[i].row())
            &&& !store::reachable(computers, table, dead[i].id@)
        }
    &&& forall|id: Seq<char>|
        table.contains_key(id) && !#[trigger] store::reachable(computers, table, id) ==> exists|
            i: int,
        | 0 <= i < dead.len() && (#[trigger] dead[i]).id@ == id
    &&& forall|i: int, j: int|
        0 <= i < j < dead.len() ==> (#[trigger] dead[i]).id@ != (#[trigger] dead[j]).id@
}

/// The checkpoints of `all` that are not among the reachable ids.
pub open spec fn rest_of(all: Seq<Checkpoint>, reachable: Seq<String>) -> Seq<Checkpoint> {
    all.filter(|cp: Checkpoint| !text::among(reachable, cp.id@))
}

/// The checkpoints that are not among the reachable ids.
pub fn unreachable(all: Vec<Checkpoint>, reachable: &Vec<String>) -> (dead: Vec<Checkpoint>)
    ensures
        dead@ == rest_of(all@, reachable@),
{
    let mut dead: Vec<Checkpoint> = Vec::new();
    proof {
        reveal(Seq::filter);
    }
    for cp in it: all
        invariant
            it.seq() == all@,
            dead@ == rest_of(it.seq().take(it.index() as int), reachable@),
    {
        proof {
            reveal(Seq::filter);
            let longer = it.seq().take(it.index() + 1);
            assert(longer.drop_last() =~= it.seq().take(it.index() as int));
            assert(longer.last() == cp);
        }
        if !is_among(reachable, cp.id.as_str()) {
            dead.push(cp);
        }
    }
    assert(all@.take(all@.len() as int) =~= all@);
    dead
}

proof fn lemma_filter_distinct(all: Seq<Checkpoint>, keep: spec_fn(Checkpoint) -> bool)
    requires
        forall|i: int, j: int|
            0 <= i < j < all.len() ==> (#[trigger] all[i]).id@ != (#[trigger] all[j]).id@,
    ensures
        forall|i: int, j: int|
            0 <= i < j < all.filter(keep).len() ==> (#[trigger] all.filter(keep)[i]).id@ != (
            #[trigger] all.filter(keep)[j]).id@,
        forall|i: int|
            0 <= i < all.filter(keep).len() ==> all.contains(#[trigger] all.filter(keep)[i])
                && keep(all.filter(keep)[i]),
    decreases all.len(),
{
    reveal(Seq::filter);
    if all.len() > 0 {
        let front = all.drop_last();
        lemma_filter_distinct(front, keep);
        let kept = front.filter(keep);
        assert forall|i: int| 0 <= i < all.filter(keep).len() implies all.contains(
            #[trigger] all.filter(keep)[i],
        ) && keep(all.filter(keep)[i]) by {
            if i < kept.len() {
                assert(all.filter(keep)[i] == kept[i]);
                let k = choose|k: int| 0 <= k < front.len() && front[k] == kept[i];
                assert(all[k] == kept[i]);
            } else {
                assert(all[all.len() - 1] == all.filter(keep)[i]);
            }
        }
        assert forall|i: int, j: int| 0 <= i < j < all.filter(keep).len() implies (
        #[trigger] all.filter(keep)[i]).id@ != (#[trigger] all.filter(keep)[j]).id@ by {
            assert(all.filter(keep)[i] == kept[i]);
            let k = choose|k: int| 0 <= k < front.len() && front[k] == kept[i];
            assert(all[k] == kept[i]);
            if j < kept.len() {
                assert(all.filter(keep)[j] == kept[j]);
            } else {
                assert(all.filter(keep)[j] == all[all.len() - 1]);
            }
        }
    }
}

proof fn lemma_rest_is_dead(
    computers: store::Computers,
    table: store::Checkpoints,
    all: Seq<Checkpoint>,
    ids: Seq<String>,
)
    requires
        store::lists_checkpoints(table, all),
        forall|id: Seq<char>| #[trigger]
            text::among(ids, id) <==> store::reachable(computers, table, id),
    ensures
        is_dead_wood(computers, table, rest_of(all, ids)),
{
    let keep = |cp: Checkpoint| !text::among(ids, cp.id@);
    let dead = rest_of(all, ids);
    lemma_filter_distinct(all, keep);
    assert forall|i: int| 0 <= i < dead.len() implies {
        &&& table.contains_pair((#[trigger] dead[i]).id@, dead[i].row())
        &&& !store::reachable(computers, table, dead[i].id@)
    } by {
        assert(all.contains(all.filter(keep)[i]));
        let k = choose|k: int| 0 <= k < all.len() && all[k] == dead[i];
        assert(table.contains_pair(all[k].id@, all[k].row()));
        assert(!text::among(ids, dead[i].id@));
    }
    assert forall|id: Seq<char>|
        table.contains_key(id) && !#[trigger] store::reachable(
            computers,
            table,
            id,
        ) implies exists|i: int| 0 <= i < dead.len() && (#[trigger] dead[i]).id@ == id by {
        assert(!text::among(ids, id));
        let k = choose|k: int| 0 <= k < all.len() && (#[trigger] all[k]).id@ == id;
        all.lemma_filter_contains(keep, k);
        let i = choose|i: int| 0 <= i < dead.len() && dead[i] == all[k];
        assert(dead[i].id@ == id);
    }
}

/// The checkpoints that no computer leads to, which `neko gc` deletes.
pub fn gc(store: &mut Store) -> (r: Result<Vec<Checkpoint>, CommandError>)
    ensures
        final(store).unchanged_since(*old(store)),
        match r {
            Ok(dead) => old(store).exclusive() ==> is_dead_wood(
                old(store).computers(),
                old(store).checkpoints(),
                dead@,
            ),
            Err(e) => e is Store && e->Store_0 is Database,
        },
{
    let reachable = match store.reachable_checkpoints() {
        Err(e) => return Err(CommandError::Store(e)),
        Ok(ids) => ids,
    };
    let all = match store.all_checkpoints() {
        Err(e) => return Err(CommandError::Store(e)),
        Ok(all) => all,
    };
    proof {
        if old(store).exclusive() {
            lemma_rest_is_dead(
                old(store).computers(),
                old(store).checkpoints(),
                all@,
                reachable@,
            );
        }
    }
    Ok(unreachable(all, &reachable))
}

/// The ids of a list of checkpoints.
pub open spec fn ids_of(list: Seq<Checkpoint>) -> Seq<Seq<char>> {
    Seq::new(list.len(), |i: int| list[i].id@)
}

/// `table` without the checkpoints in `dead`.
pub open spec fn felled(table: store::Checkpoints, dead: Seq<Checkpoint>) -> store::Checkpoints {
    table.restrict(
        Set::new(|id: Seq<char>| table.contains_key(id) && !ids_of(dead).contains(id)),
    )
}

proof fn lemma_among_ids(ids: Seq<String>, dead: Seq<Checkpoint>)
    requires
        text::views(ids) == ids_of(dead),
    ensures
        forall|id: Seq<char>| #[trigger] text::among(ids, id) == ids_of(dead).contains(id),
{
    assert forall|id: Seq<char>| #[trigger] text::among(ids, id) == ids_of(dead).contains(id) by {
        if text::among(ids, id) {
            let i = choose|i: int| 0 <= i < ids.len() && (#[trigger] ids[i])@ == id;
            assert(text::views(ids)[i] == id);
        }
        if ids_of(dead).contains(id) {
            let i = choose|i: int| 0 <= i < ids_of(dead).len() && ids_of(dead)[i] == id;
            assert(text::views(ids)[i] == ids[i]@);
        }
    }
}

/// Deletes the rows of the given checkpoints, and counts them.
pub fn forget(store: &mut Store, dead: &Vec<Checkpoint>) -> (r: Result<usize, CommandError>)
    ensures
        final(store).on_database_of(*old(store)),
        match r {
            Ok(n) => n == dead@.len() && (old(store).exclusive() ==> {
                &&& final(store).computers() == old(store).computers()
                &&& final(store).checkpoints() == felled(old(store).checkpoints(), dead@)
            }),
            Err(e) => e is Store && e->Store_0 is Database && (old(store).exclusive() ==> {
                &&& final(store).computers() == old(store).computers()
                &&& final(store).checkpoints().submap_of(old(store).checkpoints())
                &&& felled(old(store).checkpoints(), dead@).submap_of(final(store).checkpoints())
            }),
        },
{
    let mut ids: Vec<String> = Vec::new();
    let mut i: usize = 0;
    while i < dead.len()
        invariant
            i <= dead.len(),
            text::views(ids@) =~= ids_of(dead@).take(i as int),
        decreases dead.len() - i,
    {
        ids.push(dead[i].id.clone());
        assert(ids_of(dead@).take(i + 1) =~= ids_of(dead@).take(i as int).push(
            dead@[i as int].id@,
        ));
        i += 1;
    }
    proof {
        assert(text::views(ids@) =~= ids_of(dead@));
        lemma_among_ids(ids@, dead@);
        assert(store::without(store.checkpoints(), ids@) =~= felled(store.checkpoints(), dead@));
    }
    match store.delete_checkpoints(&ids) {
        Err(e) => Err(CommandError::Store(e)),
        Ok(_) => Ok(dead.len()),
    }
}

/// Forgetting what `gc` found leaves exactly the checkpoints that some
/// computer leads to.
pub proof fn gc_prunes(
    computers: store::Computers,
    table: store::Checkpoints,
    dead: Seq<Checkpoint>,
)
    requires
        is_dead_wood(computers, table, dead),
    ensures
        felled(table, dead) == store::pruned(computers, table),
{
    assert forall|id: Seq<char>| felled(table, dead).contains_key(id) == store::pruned(
        computers,
        table,
    ).contains_key(id) by {
        if table.contains_key(id) {
            if ids_of(dead).contains(id) {
                let i = choose|i: int| 0 <= i < ids_of(dead).len() && ids_of(dead)[i] == id;
                assert(dead[i].id@ == id);
            } else if !store::reachable(computers, table, id) {
                let i = choose|i: int| 0 <= i < dead.len() && (#[trigger] dead[i]).id@ == id;
                assert(ids_of(dead)[i] == id);
            }
        }
    }
    assert(felled(table, dead) =~= store::pruned(computers, table));
}

/// Refuses the removal of a computer that was not there.
pub fn gone(was_there: bool, name: &str) -> (r: Result<(), CommandError>)
    ensures
        if was_there {
            r is Ok
        } else {
            r matches Err(CommandError::NoSuchComputer(n)) && n@ == name@
        },
{
    if was_there {
        Ok(())
    } else {
        Err(CommandError::NoSuchComputer(name.to_owned()))
    }
}

/// Removes a computer, and finds the checkpoints that then lead nowhere unless
/// they are to be kept.
pub fn rm(store: &mut Store, name: &str, keep_checkpoints: bool) -> (r: Result<
    Vec<Checkpoint>,
    CommandError,
>)
    ensures
        final(store).follows(*old(store)),
        match r {
            Ok(dead) => {
                &&& keep_checkpoints ==> dead@.len() == 0
                &&& old(store).exclusive() ==> {
                    &&& old(store).computers().contains_key(name@)
                    &&& final(store).computers() == old(store).computers().remove(name@)
                    &&& final(store).checkpoints() == old(store).checkpoints()
                    &&& !keep_checkpoints ==> is_dead_wood(
                        final(store).computers(),
                        final(store).checkpoints(),
                        dead@,
                    )
                }
            },
            Err(CommandError::NoSuchComputer(n)) => n@ == name@ && (old(store).exclusive()
                ==> !old(store).computers().contains_key(name@) && final(store).computers()
                == old(store).computers() && final(store).checkpoints()
                == old(store).checkpoints()),
            Err(e) => e is Store && e->Store_0 is Database && (old(store).exclusive() ==> {
                &&& final(store).computers() == old(store).computers() || final(store).computers()
                    == old(store).computers().remove(name@)
                &&& final(store).checkpoints() == old(store).checkpoints()
            }),
        },
{
    match store.delete_computer(name) {
        Err(e) => return Err(CommandError::Store(e)),
        Ok(was_there) => match gone(was_there, name) {
            Err(e) => {
                proof {
                    if old(store).exclusive() {
                        assert(old(store).computers().remove(name@) =~= old(store).computers());
                    }
                }
                return Err(e);
            },
            Ok(_) => {},
        },
    }
    if keep_checkpoints {
        Ok(Vec::new())
    } else {
        gc(store)
    }
}

/// What `neko rm` prints: how many checkpoints were reclaimed, unless they
/// were kept.
pub open spec fn removed_text(name: Seq<char>, reclaimed: Option<usize>) -> Seq<char> {
    match reclaimed {
        None => "removed computer "@ + name + " (checkpoints kept as orphans)"@,
        Some(n) => "removed computer "@ + name + ", reclaimed "@ + number::decimal(n as nat)
            + " checkpoint(s)"@,
    }
}

/// The line that `neko rm` prints.
pub fn removed_line(name: &str, reclaimed: Option<usize>) -> (r: String)
    ensures
        r@ == removed_text(name@, reclaimed),
{
    let mut s = "removed computer ".to_owned();
    s.append(name);
    match reclaimed {
        None => {
            s.append(" (checkpoints kept as orphans)");
        },
        Some(n) => {
            s.append(", reclaimed ");
            s.append(decimal_text(n as u64).as_str());
            s.append(" checkpoint(s)");
        },
    }
    s
}

/// What `neko gc` prints.
pub open spec fn gc_text(n: usize) -> Seq<char> {
    if n == 0 {
        "nothing to prune"@
    } else {
        "pruned "@ + number::decimal(n as nat) + " checkpoint(s)"@
    }
}

/// The line that `neko gc` prints.
pub fn gc_line(n: usize) -> (r: String)
    ensures
        r@ == gc_text(n),
{
    if n == 0 {
        "nothing to prune".to_owned()
    } else {
        let mut s = "pruned ".to_owned();
        s.append(decimal_text(n as u64).as_str());
        s.append(" checkpoint(s)");
        s
    }
}

// ---------------------------------------------------------------------------
// Cloning
// ---------------------------------------------------------------------------

/// Refuses a name that a computer was found under.
pub fn free(found: Option<Computer>, name: &str) -> (r: Result<(), CommandError>)
    ensures
        match found {
            Some(_) => r matches Err(CommandError::NameTaken(n)) && n@ == name@,
            None => r is Ok,
        },
{
    match found {
        Some(_) => Err(CommandError::NameTaken(name.to_owned())),
        None => Ok(()),
    }
}

/// Refuses a name that a computer already has.
pub fn check_free(store: &mut Store, name: &str) -> (r: Result<(), CommandError>)
    ensures
        final(store).unchanged_since(*old(store)),
        match r {
            Ok(_) => !final(store).computers().contains_key(name@),
            Err(CommandError::NameTaken(n)) => n@ == name@
                && final(store).computers().contains_key(name@),
            Err(e) => e is Store && e->Store_0 is Database,
        },
{
    match store.get_computer(name) {
        Err(e) => Err(CommandError::Store(e)),
        Ok(found) => free(found, name),
    }
}

/// Creates a computer whose head is the checkpoint that a reference names: a
/// new name for a shared checkpoint. Returns the id of the checkpoint.
pub fn clone(store: &mut Store, source: &str, name: &str, created_at: i64) -> (r: Result<
    String,
    CommandError,
>)
    ensures
        final(store).follows(*old(store)),
        match r {
            Ok(id) => {
                &&& final(store).computers().contains_pair(
                    name@,
                    ComputerRow { head: Some(id@), created_at },
                )
                &&& old(store).exclusive() ==> {
                    &&& exists|cp: Checkpoint|
                        cp.id@ == id@ && #[trigger] store::resolves(*old(store), source@, Ok(cp))
                    &&& store::computer_added(
                        *old(store),
                        *final(store),
                        name@,
                        ComputerRow { head: Some(id@), created_at },
                    )
                }
            },
            Err(e) => {
                &&& final(store).unchanged_since(*old(store))
                &&& old(store).exclusive() ==> match e {
                    CommandError::NameTaken(n) => n@ == name@
                        && old(store).computers().contains_key(name@),
                    CommandError::Store(e) => {
                        &&& store::resolves(*old(store), source@, Err(e))
                        &&& e is Database || !old(store).computers().contains_key(name@)
                    },
                    CommandError::NoSuchComputer(_) => false,
                }
            },
        },
{
    match check_free(store, name) {
        Err(e) => return Err(e),
        Ok(_) => {},
    }
    let cp = match store.resolve_ref(source) {
        Err(e) => return Err(CommandError::Store(e)),
        Ok(cp) => cp,
    };
    proof {
        assert(old(store).exclusive() ==> store::resolves(*old(store), source@, Ok(cp)));
    }
    match store.create_computer(name, Some(cp.id.as_str()), created_at) {
        Err(e) => Err(CommandError::Store(e)),
        Ok(_) => Ok(cp.id),
    }
}

/// Adds an image file as a new root checkpoint, and a computer with it as its
/// head.
pub fn adopt_image(
    store: &mut Store,
    id: &str,
    image_path: &str,
    name: &str,
    added_at: i64,
    created_at: i64,
) -> (r: Result<(), CommandError>)
    ensures
        final(store).follows(*old(store)),
        match r {
            Ok(_) => {
                let root = store::checkpoint_row(None, None, image_path, added_at);
                let row = ComputerRow { head: Some(id@), created_at };
                &&& final(store).computers().contains_pair(name@, row)
                &&& old(store).exclusive() ==> {
                    &&& !old(store).computers().contains_key(name@)
                    &&& !old(store).checkpoints().contains_key(id@)
                    &&& final(store).computers() == old(store).computers().insert(name@, row)
                    &&& final(store).checkpoints() == old(store).checkpoints().insert(id@, root)
                }
            },
            Err(e) => {
                let root = store::checkpoint_row(None, None, image_path, added_at);
                &&& e is Store && e->Store_0 is Database
                &&& old(store).exclusive() ==> {
                    &&& final(store).computers() == old(store).computers()
                    &&& final(store).checkpoints() == old(store).checkpoints() || final(store).checkpoints() == old(store).checkpoints().insert(id@, root)
                }
            },
        },
{
    match store.add_checkpoint(id, None, None, image_path, added_at) {
        Err(e) => return Err(CommandError::Store(e)),
        Ok(_) => {},
    }
    match store.create_computer(name, Some(id), created_at) {
        Err(e) => Err(CommandError::Store(e)),
        Ok(_) => Ok(()),
    }
}

/// What `neko clone` prints.
pub open spec fn cloned_text(
    from_image: bool,
    source: Seq<char>,
    name: Seq<char>,
    id: Seq<char>,
) -> Seq<char> {
    if from_image {
        "cloned image "@ + source + " -> computer "@ + name + " (root "@ + short_id(id) + ")"@
    } else {
        "cloned "@ + source + " -> computer "@ + name + " (at "@ + short_id(id) + ")"@
    }
}

/// The line that `neko clone` prints.
pub fn cloned_line(from_image: bool, source: &str, name: &str, id: &str) -> (r: String)
    requires
        cuttable(id@),
    ensures
        r@ == cloned_text(from_image, source@, name@, id@),
{
    let mut s = if from_image {
        "cloned image ".to_owned()
    } else {
        "cloned ".to_owned()
    };
    s.append(source);
    s.append(" -> computer ");
    s.append(name);
    if from_image {
        s.append(" (root ");
    } else {
        s.append(" (at ");
    }
    s.append(short(id));
    s.append(")");
    s
}

/// A clone is a new name for a shared checkpoint: its history is the history
/// of the computer that it was cloned from.
pub proof fn clones_share_history(
    before: Store,
    after: Store,
    source: Seq<char>,
    name: Seq<char>,
    cp: Checkpoint,
    created_at: i64,
    list: Seq<Checkpoint>,
)
    requires
        before.exclusive(),
        store::ref_parts(source) == (source, None::<Seq<char>>),
        store::resolves(before, source, Ok(cp)),
        store::computer_added(
            before,
            after,
            name,
            ComputerRow { head: Some(cp.id@), created_at },
        ),
    ensures
        store::is_line(before.checkpoints(), before.computers()[source].head, list)
            <==> store::is_line(after.checkpoints(), after.computers()[name].head, list),
{
}

/// A clone outlives the computer that it was cloned from: removing that one
/// and reclaiming what then leads nowhere leaves the clone's history whole.
pub proof fn clones_outlive_their_source(
    computers: store::Computers,
    table: store::Checkpoints,
    source: Seq<char>,
    name: Seq<char>,
    list: Seq<Checkpoint>,
)
    requires
        computers.contains_key(name),
        source != name,
        store::is_line(table, computers[name].head, list),
    ensures
        ({
            let left = computers.remove(source);
            &&& left.contains_key(name)
            &&& store::is_line(store::pruned(left, table), left[name].head, list)
        }),
{
    store::pruning_keeps_history(computers.remove(source), table, name, list);
}

/// Collecting again finds nothing: once what leads nowhere is forgotten, every
/// checkpoint leads somewhere.
pub proof fn collecting_twice_finds_nothing(
    computers: store::Computers,
    table: store::Checkpoints,
    dead: Seq<Checkpoint>,
    again: Seq<Checkpoint>,
)
    requires
        is_dead_wood(computers, table, dead),
        is_dead_wood(computers, felled(table, dead), again),
    ensures
        again.len() == 0,
{
    gc_prunes(computers, table, dead);
    store::pruning_is_thorough(computers, table);
    if again.len() > 0 {
        assert(felled(table, dead).contains_pair(again[0].id@, again[0].row()));
        store::pruning_keeps_reachability(computers, table, again[0].id@);
    }
}

// ---------------------------------------------------------------------------
// Laws
// ---------------------------------------------------------------------------

/// The clock is read as it stands: a number of seconds that a time can hold is
/// that time, a larger one is the last time there is, and a clock before the
/// epoch reads as the epoch.
pub proof fn clocks_are_read_as_they_stand(secs: u64, r: i64, none: i64)
    requires
        call_ensures(unix_seconds, (Some(secs),), r),
        call_ensures(unix_seconds, (None,), none),
    ensures
        secs <= i64::MAX ==> r == secs,
        secs > i64::MAX ==> r == i64::MAX,
        none == 0,
{
}

/// A short id is how the id begins: its first eight bytes, or all of it where
/// it has no more.
pub proof fn short_ids_begin_the_id(id: &str, r: &str)
    requires
        cuttable(id@),
        call_ensures(short, (id,), r),
    ensures
        utf8::encode_utf8(r@) == utf8::encode_utf8(id@).take(
            if utf8::encode_utf8(id@).len() <= 8 {
                utf8::encode_utf8(id@).len() as int
            } else {
                8
            },
        ),
        utf8::is_ascii_chars(id@) && id@.len() <= 8 ==> r@ == id@,
        utf8::is_ascii_chars(id@) && id@.len() > 8 ==> r@ == id@.take(8),
{
    lemma_cut_bytes(id@);
    if utf8::is_ascii_chars(id@) {
        plain_ids_are_cut_after_eight(id@);
        if id@.len() <= 8 {
            assert(id@.take(id@.len() as int) =~= id@);
        }
    }
}

/// Cutting an id between two characters leaves whole characters.
proof fn lemma_cut_bytes(id: Seq<char>)
    requires
        cuttable(id),
    ensures
        utf8::encode_utf8(short_id(id)) == utf8::encode_utf8(id).take(short_len(id)),
{
    let bytes = utf8::encode_utf8(id);
    utf8::encode_utf8_valid_utf8(id);
    utf8::valid_utf8_split(bytes, short_len(id));
    utf8::decode_utf8_encode_utf8(bytes.take(short_len(id)));
}

/// Line `i` of a history shows checkpoint `i`: its short id, its own time, and
/// its label or nothing.
pub proof fn history_lines_show_their_checkpoint(
    name: &str,
    checkpoints: &Vec<Checkpoint>,
    r: Vec<String>,
    i: int,
)
    requires
        call_ensures(history, (name, checkpoints), r),
        0 <= i < checkpoints@.len(),
    ensures
        r@.len() == checkpoints@.len(),
        checkpoints@[i].label is None ==> r@[i]@ == short_id(checkpoints@[i].id@) + "  "@
            + calendar::shown(checkpoints@[i].created_at as int) + "  "@ + ""@,
        checkpoints@[i].label matches Some(label) ==> r@[i]@ == short_id(checkpoints@[i].id@)
            + "  "@ + calendar::shown(checkpoints@[i].created_at as int) + "  "@ + label@,
{
    assert(text::views(r@).len() == r@.len());
    assert(text::views(r@)[i] == r@[i]@);
}

/// The line of a checkpoint depends on that checkpoint alone: histories that
/// agree at one place, of whatever computers, have the same line there.
pub proof fn history_lines_depend_on_their_checkpoint(
    name_a: &str,
    name_b: &str,
    a: &Vec<Checkpoint>,
    b: &Vec<Checkpoint>,
    lines_a: Vec<String>,
    lines_b: Vec<String>,
    i: int,
    j: int,
)
    requires
        call_ensures(history, (name_a, a), lines_a),
        call_ensures(history, (name_b, b), lines_b),
        0 <= i < a@.len(),
        0 <= j < b@.len(),
        a@[i].id@ == b@[j].id@,
        a@[i].created_at == b@[j].created_at,
        text::text_of(a@[i].label) == text::text_of(b@[j].label),
    ensures
        lines_a@.len() == a@.len(),
        lines_b@.len() == b@.len(),
        lines_a@[i]@ == lines_b@[j]@,
{
    assert(text::views(lines_a@).len() == lines_a@.len());
    assert(text::views(lines_b@).len() == lines_b@.len());
    assert(text::views(lines_a@)[i] == lines_a@[i]@);
    assert(text::views(lines_b@)[j] == lines_b@[j]@);
}

/// A computer without checkpoints is said to have none, in one line.
pub proof fn empty_histories_say_so(name: &str, checkpoints: &Vec<Checkpoint>, r: Vec<String>)
    requires
        checkpoints@.len() == 0,
        call_ensures(history, (name, checkpoints), r),
    ensures
        r@.len() == 1,
        r@[0]@ == name@ + " has no checkpoints yet"@,
{
    assert(text::views(r@).len() == r@.len());
    assert(text::views(r@)[0] == r@[0]@);
}

/// Each computer has its own line below the head of the listing: its name, that
/// it is stopped, its own time, and its head or a dash.
pub proof fn listings_show_each_computer(computers: &Vec<Computer>, r: Vec<String>, i: int)
    requires
        call_ensures(ls, (computers,), r),
        0 <= i < computers@.len(),
    ensures
        r@.len() == computers@.len() + 1,
        r@[0]@ == number::padded("NAME"@, 20) + " "@ + number::padded("STATE"@, 10) + " "@
            + number::padded("CREATED"@, 18) + " "@ + "HEAD"@,
        ({
            let start = number::padded(computers@[i].name@, 20) + " "@ + number::padded(
                "stopped"@,
                10,
            ) + " "@ + number::padded(calendar::shown(computers@[i].created_at as int), 18)
                + " "@;
            &&& computers@[i].head_id is None ==> r@[i + 1]@ == start + "-"@
            &&& computers@[i].head_id matches Some(id) ==> r@[i + 1]@ == start + short_id(id@)
        }),
{
    assert(text::views(r@).len() == r@.len());
    assert(text::views(r@)[0] == r@[0]@);
    assert(text::views(r@)[i + 1] == r@[i + 1]@);
}

/// The line of a computer depends on that computer alone.
pub proof fn listing_lines_depend_on_their_computer(
    a: &Vec<Computer>,
    b: &Vec<Computer>,
    lines_a: Vec<String>,
    lines_b: Vec<String>,
    i: int,
    j: int,
)
    requires
        call_ensures(ls, (a,), lines_a),
        call_ensures(ls, (b,), lines_b),
        0 <= i < a@.len(),
        0 <= j < b@.len(),
        a@[i].name@ == b@[j].name@,
        a@[i].row() == b@[j].row(),
    ensures
        lines_a@.len() == a@.len() + 1,
        lines_b@.len() == b@.len() + 1,
        lines_a@[i + 1]@ == lines_b@[j + 1]@,
{
    assert(text::views(lines_a@).len() == lines_a@.len());
    assert(text::views(lines_b@).len() == lines_b@.len());
    assert(text::views(lines_a@)[i + 1] == lines_a@[i + 1]@);
    assert(text::views(lines_b@)[j + 1] == lines_b@[j + 1]@);
    assert(a@[i].row().head == b@[j].row().head);
    assert(a@[i].row().created_at == b@[j].row().created_at);
}

/// Without computers the listing is one line that says so.
pub proof fn empty_listings_say_so(computers: &Vec<Computer>, r: Vec<String>)
    requires
        computers@.len() == 0,
        call_ensures(ls, (computers,), r),
    ensures
        r@.len() == 1,
        r@[0]@ == "no computers yet"@,
{
    assert(text::views(r@).len() == r@.len());
    assert(text::views(r@)[0] == r@[0]@);
}

/// What is not reachable is kept in its order: one checkpoint more is one more
/// at the end, unless its id is among the reachable ones; then nothing changes.
pub proof fn unreachable_checkpoints_keep_their_order(
    all: Vec<Checkpoint>,
    longer: Vec<Checkpoint>,
    reachable: &Vec<String>,
    dead: Vec<Checkpoint>,
    dead_longer: Vec<Checkpoint>,
)
    requires
        longer@.len() == all@.len() + 1,
        longer@.drop_last() == all@,
        call_ensures(unreachable, (all, reachable), dead),
        call_ensures(unreachable, (longer, reachable), dead_longer),
    ensures
        all@.len() == 0 ==> dead@.len() == 0,
        ({
            let added = longer@.last();
            let found = exists|i: int|
                0 <= i < reachable@.len() && (#[trigger] reachable@[i])@ == added.id@;
            &&& found ==> dead_longer@ == dead@
            &&& !found ==> dead_longer@ == dead@.push(added)
        }),
{
    reveal(Seq::filter);
}

/// What `gc` finds is exactly what no computer leads to: every checkpoint of
/// the table is found, as it is, or some computer leads to it, and never both.
pub proof fn dead_wood_is_what_nothing_leads_to(
    computers: store::Computers,
    table: store::Checkpoints,
    dead: Seq<Checkpoint>,
    id: Seq<char>,
)
    requires
        is_dead_wood(computers, table, dead),
        table.contains_key(id),
    ensures
        (exists|i: int| 0 <= i < dead.len() && (#[trigger] dead[i]).id@ == id)
            <==> !store::reachable(computers, table, id),
        forall|i: int| 0 <= i < dead.len() && (#[trigger] dead[i]).id@ == id ==> dead[i].row() == table[id],
        forall|i: int, j: int|
            0 <= i < dead.len() && 0 <= j < dead.len() && (#[trigger] dead[i]).id@ == (
            #[trigger] dead[j]).id@ ==> i == j,
{
    assert forall|i: int| 0 <= i < dead.len() && (#[trigger] dead[i]).id@ == id implies dead[i].row()
        == table[id] && !store::reachable(computers, table, id) by {
        assert(table.contains_pair(dead[i].id@, dead[i].row()));
    }
    assert forall|i: int, j: int|
        0 <= i < dead.len() && 0 <= j < dead.len() && (#[trigger] dead[i]).id@ == (
        #[trigger] dead[j]).id@ implies i == j by {
        if i < j {
            assert(dead[i].id@ != dead[j].id@);
        } else if j < i {
            assert(dead[j].id@ != dead[i].id@);
        }
    }
}

/// Forgetting takes away the checkpoints that are named and leaves every other
/// one as it was.
pub proof fn forgetting_takes_what_is_named(
    table: store::Checkpoints,
    dead: Seq<Checkpoint>,
    id: Seq<char>,
)
    ensures
        felled(table, dead).contains_key(id) <==> table.contains_key(id) && forall|i: int|
            0 <= i < dead.len() ==> (#[trigger] dead[i]).id@ != id,
        felled(table, dead).contains_key(id) ==> felled(table, dead)[id] == table[id],
{
    if ids_of(dead).contains(id) {
        let i = choose|i: int| 0 <= i < ids_of(dead).len() && ids_of(dead)[i] == id;
        assert(dead[i].id@ == id);
    } else {
        assert forall|i: int| 0 <= i < dead.len() implies (#[trigger] dead[i]).id@ != id by {
            assert(ids_of(dead)[i] == dead[i].id@);
        }
    }
}

/// Removing a computer says how many checkpoints went with it, or that they
/// were kept; collecting says how many went, or that there were none.
pub proof fn removals_are_counted(
    name: &str,
    n: usize,
    kept: String,
    removed: String,
    collected: String,
)
    requires
        call_ensures(removed_line, (name, None), kept),
        call_ensures(removed_line, (name, Some(n)), removed),
        call_ensures(gc_line, (n,), collected),
    ensures
        kept@ == "removed computer "@ + name@ + " (checkpoints kept as orphans)"@,
        removed@ == "removed computer "@ + name@ + ", reclaimed "@ + number::decimal(n as nat)
            + " checkpoint(s)"@,
        n == 0 ==> collected@ == "nothing to prune"@,
        n > 0 ==> collected@ == "pruned "@ + number::decimal(n as nat) + " checkpoint(s)"@,
{
}

/// A clone is announced by where it came from, by its name, and by the
/// checkpoint that it is at, which is its root where it came from an image.
pub proof fn clones_are_announced(
    source: &str,
    name: &str,
    id: &str,
    cut: &str,
    image: String,
    plain: String,
)
    requires
        call_ensures(short, (id,), cut),
        call_ensures(cloned_line, (true, source, name, id), image),
        call_ensures(cloned_line, (false, source, name, id), plain),
    ensures
        image@ == "cloned image "@ + source@ + " -> computer "@ + name@ + " (root "@ + cut@ + ")"@,
        plain@ == "cloned "@ + source@ + " -> computer "@ + name@ + " (at "@ + cut@ + ")"@,
{
}

/// A name is free exactly where no computer was found under it, and a computer
/// is gone exactly where one was there.
pub proof fn names_are_told_apart(
    c: Computer,
    name: &str,
    taken: Result<(), CommandError>,
    open: Result<(), CommandError>,
    removed: Result<(), CommandError>,
    missing: Result<(), CommandError>,
)
    requires
        call_ensures(free, (Some(c), name), taken),
        call_ensures(free, (None, name), open),
        call_ensures(gone, (true, name), removed),
        call_ensures(gone, (false, name), missing),
    ensures
        taken matches Err(e) && (e matches CommandError::NameTaken(n) && n@ == name@),
        open is Ok,
        removed is Ok,
        missing matches Err(e) && (e matches CommandError::NoSuchComputer(n) && n@ == name@),
{
}

/// A refusal names the computer that it is about.
pub proof fn command_refusals_speak(name: String, missing: Option<String>, taken: Option<String>)
    requires
        call_ensures(CommandError::message, (&CommandError::NoSuchComputer(name),), missing),
        call_ensures(CommandError::message, (&CommandError::NameTaken(name),), taken),
    ensures
        missing matches Some(s) && s@ == "no such computer: "@ + name@,
        taken matches Some(s) && s@ == "computer '"@ + name@ + "' already exists"@,
{
}

/// Collecting finds exactly what no computer leads to, and changes nothing by
/// itself.
pub proof fn gc_finds_what_nothing_leads_to(
    s: &mut Store,
    dead: Vec<Checkpoint>,
    id: Seq<char>,
)
    requires
        s.exclusive(),
        call_ensures(gc, (s,), Ok(dead)),
        s.checkpoints().contains_key(id),
    ensures
        (exists|i: int| 0 <= i < dead@.len() && (#[trigger] dead@[i]).id@ == id)
            <==> !store::reachable(old(s).computers(), old(s).checkpoints(), id),
        final(s).computers() == old(s).computers(),
        final(s).checkpoints() == old(s).checkpoints(),
{
    dead_wood_is_what_nothing_leads_to(old(s).computers(), old(s).checkpoints(), dead@, id);
}

/// Forgetting what collecting found leaves every checkpoint that some computer
/// leads to, as it was, and no other; it counts what went, and no computer
/// changes.
pub proof fn gc_leaves_what_something_leads_to(
    s: &mut Store,
    later: &mut Store,
    dead: Vec<Checkpoint>,
    n: usize,
    id: Seq<char>,
)
    requires
        s.exclusive(),
        call_ensures(gc, (s,), Ok(dead)),
        *later == *final(s),
        call_ensures(forget, (later, &dead), Ok(n)),
    ensures
        n == dead@.len(),
        final(later).computers() == old(s).computers(),
        final(later).checkpoints().contains_key(id) <==> old(s).checkpoints().contains_key(id)
            && store::reachable(old(s).computers(), old(s).checkpoints(), id),
        final(later).checkpoints().contains_key(id) ==> final(later).checkpoints()[id]
            == old(s).checkpoints()[id],
{
    gc_prunes(old(s).computers(), old(s).checkpoints(), dead@);
    store::pruning_keeps_the_reachable(old(s).computers(), old(s).checkpoints(), id);
}

/// Removing a computer removes that one, leaves every other one and every
/// checkpoint, and finds what then nothing leads to, unless checkpoints are to
/// be kept; a computer that is not there is refused, and nothing changes.
pub proof fn rm_removes_one_computer(
    s: &mut Store,
    name: &str,
    keep_checkpoints: bool,
    r: Result<Vec<Checkpoint>, CommandError>,
    other: Seq<char>,
    id: Seq<char>,
)
    requires
        s.exclusive(),
        call_ensures(rm, (s, name, keep_checkpoints), r),
        r is Ok || !(r->Err_0 is Store),
    ensures
        r is Ok <==> old(s).computers().contains_key(name@),
        r matches Err(e) ==> (e matches CommandError::NoSuchComputer(n) && n@ == name@),
        !final(s).computers().contains_key(name@),
        other != name@ ==> final(s).computers().contains_key(other)
            == old(s).computers().contains_key(other),
        other != name@ && old(s).computers().contains_key(other) ==> final(s).computers()[other]
            == old(s).computers()[other],
        final(s).checkpoints() == old(s).checkpoints(),
        r matches Ok(dead) ==> {
            &&& keep_checkpoints ==> dead@.len() == 0
            &&& !keep_checkpoints && old(s).checkpoints().contains_key(id) ==> ((exists|i: int|
                0 <= i < dead@.len() && (#[trigger] dead@[i]).id@ == id) <==> !store::reachable(
                old(s).computers().remove(name@),
                old(s).checkpoints(),
                id,
            ))
        },
{
    if r is Ok && !keep_checkpoints && old(s).checkpoints().contains_key(id) {
        dead_wood_is_what_nothing_leads_to(
            final(s).computers(),
            final(s).checkpoints(),
            r->Ok_0@,
            id,
        );
    }
}

/// A clone of a computer is a new name for the checkpoint that the computer is
/// at: nothing is copied, and everything else is as it was. A name that is
/// taken is refused, whatever the source.
pub proof fn clones_share_the_checkpoint(
    s: &mut Store,
    source: &str,
    name: &str,
    created_at: i64,
    r: Result<String, CommandError>,
    other: Seq<char>,
)
    requires
        s.exclusive(),
        !source@.contains('@'),
        call_ensures(clone, (s, source, name, created_at), r),
    ensures
        final(s).checkpoints() == old(s).checkpoints(),
        other != name@ ==> final(s).computers().contains_key(other)
            == old(s).computers().contains_key(other),
        other != name@ && old(s).computers().contains_key(other) ==> final(s).computers()[other]
            == old(s).computers()[other],
        r matches Ok(id) ==> {
            &&& !old(s).computers().contains_key(name@)
            &&& old(s).computers().contains_key(source@)
            &&& old(s).computers()[source@].head == Some(id@)
            &&& final(s).computers().contains_key(name@)
            &&& final(s).computers()[name@].head == Some(id@)
            &&& final(s).computers()[name@].created_at == created_at
        },
        r matches Err(e) ==> final(s).computers() == old(s).computers() && (
        e matches CommandError::NameTaken(n) ==> n@ == name@ && old(s).computers().contains_key(
            name@,
        )),
        old(s).computers().contains_key(name@) ==> r is Err,
{
    if r is Ok {
        let id = r->Ok_0@;
        let cp = choose|cp: Checkpoint|
            cp.id@ == id && #[trigger] store::resolves(*old(s), source@, Ok(cp));
    }
}

/// A clone of a label shares the checkpoint that the label means.
pub proof fn clones_of_labels_share_the_checkpoint(
    s: &mut Store,
    source: &str,
    computer: Seq<char>,
    label: Seq<char>,
    list: Seq<Checkpoint>,
    name: &str,
    created_at: i64,
    id: String,
)
    requires
        s.exclusive(),
        !computer.contains('@'),
        source@ == computer + "@"@ + label,
        s.computers().contains_key(computer),
        store::is_line(s.checkpoints(), s.computers()[computer].head, list),
        call_ensures(clone, (s, source, name, created_at), Ok(id)),
    ensures
        exists|i: int| #[trigger] store::newest_at(list, label, i) && list[i].id@ == id@,
        final(s).computers()[name@].head == Some(id@),
{
    let cp = choose|cp: Checkpoint|
        cp.id@ == id@ && #[trigger] store::resolves(*old(s), source@, Ok(cp));
    store::labels_mean_the_newest(*old(s), computer, label, list, Ok(cp));
    let i = choose|i: int| #[trigger]
        store::newest_at(list, label, i) && cp.id@ == list[i].id@ && cp.row() == list[i].row();
    assert(store::newest_at(list, label, i) && list[i].id@ == id@);
}

/// An image that is adopted is a checkpoint without a parent and without a
/// label, and the head of a new computer; everything else is as it was.
pub proof fn adopted_images_are_roots(
    s: &mut Store,
    id: &str,
    image_path: &str,
    name: &str,
    added_at: i64,
    created_at: i64,
    other: Seq<char>,
)
    requires
        s.exclusive(),
        call_ensures(adopt_image, (s, id, image_path, name, added_at, created_at), Ok(())),
    ensures
        final(s).computers().contains_key(name@),
        final(s).computers()[name@].head == Some(id@),
        final(s).computers()[name@].created_at == created_at,
        final(s).checkpoints().contains_key(id@),
        final(s).checkpoints()[id@].parent is None,
        final(s).checkpoints()[id@].label is None,
        final(s).checkpoints()[id@].image_path == image_path@,
        final(s).checkpoints()[id@].created_at == added_at,
        other != name@ && old(s).computers().contains_key(other) ==> final(s).computers()[other]
            == old(s).computers()[other],
        other != id@ && old(s).checkpoints().contains_key(other) ==> final(s).checkpoints()[other]
            == old(s).checkpoints()[other],
{
}

/// A name is free exactly where no computer has it, and asking changes nothing.
pub proof fn free_names_are_not_taken(s: &mut Store, name: &str, r: Result<(), CommandError>)
    requires
        s.exclusive(),
        call_ensures(check_free, (s, name), r),
    ensures
        final(s).computers() == old(s).computers(),
        final(s).checkpoints() == old(s).checkpoints(),
        r is Ok ==> !old(s).computers().contains_key(name@),
        r matches Err(e) ==> match e {
            CommandError::NameTaken(n) => n@ == name@ && old(s).computers().contains_key(name@),
            CommandError::Store(_) => true,
            CommandError::NoSuchComputer(_) => false,
        },
{
}

/// An id can be cut exactly where no character spans its eighth and its ninth
/// byte.
pub proof fn ids_are_cut_between_characters(id: &str, r: bool)
    requires
        call_ensures(can_cut, (id,), r),
    ensures
        r <==> utf8::is_char_boundary(
            utf8::encode_utf8(id@),
            if utf8::encode_utf8(id@).len() < 8 {
                utf8::encode_utf8(id@).len() as int
            } else {
                8
            },
        ),
{
}

/// What the store says of a failure is passed on as it is.
pub proof fn store_errors_are_passed_on(e: StoreError, a: Option<String>, b: Option<String>)
    requires
        call_ensures(StoreError::message, (&e,), a),
        call_ensures(CommandError::message, (&CommandError::Store(e),), b),
    ensures
        a is Some <==> b is Some,
        a is Some ==> a->Some_0@ == b->Some_0@,
        e is Database <==> a is None,
{
}

} // verus!
