//! The index of computers and checkpoints.
//!
//! A checkpoint is an immutable disk snapshot that names its parent; a
//! computer is a name for the newest checkpoint of a line of them. Both live
//! in the two tables of an SQLite database.

use crate::number;
use crate::number::{hexadecimal_text, zero_pad};
use crate::text;
use crate::text::{is_among, same, split_once};
use rand::Rng;
use rusqlite::Connection;
use rusqlite::OptionalExtension;
use vstd::prelude::*;
use vstd::string::StringExecFns;

verus! {

broadcast use vstd::string::group_string_axioms;

pub const SCHEMA: &'static str = "
create table if not exists checkpoint (
  id          text primary key,
  parent_id   text references checkpoint(id),
  label       text,
  created_at  integer not null,
  image_path  text not null,
  size        integer
);
create table if not exists computer (
  name        text primary key,
  head_id     text references checkpoint(id),
  created_at  integer not null,
  config_json text
);
";

// ---------------------------------------------------------------------------
// Models
// ---------------------------------------------------------------------------

/// What the table of computers holds for one name.
pub struct ComputerRow {
    pub head: Option<Seq<char>>,
    pub created_at: i64,
}

/// What the table of checkpoints holds for one id.
pub struct CheckpointRow {
    pub parent: Option<Seq<char>>,
    pub label: Option<Seq<char>>,
    pub created_at: i64,
    pub image_path: Seq<char>,
}

pub type Computers = Map<Seq<char>, ComputerRow>;

pub type Checkpoints = Map<Seq<char>, CheckpointRow>;

#[derive(Debug, Clone)]
pub struct Computer {
    pub name: String,
    pub head_id: Option<String>,
    pub created_at: i64,
}

#[derive(Debug, Clone)]
pub struct Checkpoint {
    pub id: String,
    pub parent_id: Option<String>,
    pub label: Option<String>,
    pub created_at: i64,
    pub image_path: String,
}

impl Computer {
    pub open spec fn row(self) -> ComputerRow {
        ComputerRow { head: text::text_of(self.head_id), created_at: self.created_at }
    }
}

impl Checkpoint {
    pub open spec fn row(self) -> CheckpointRow {
        CheckpointRow {
            parent: text::text_of(self.parent_id),
            label: text::text_of(self.label),
            created_at: self.created_at,
            image_path: self.image_path@,
        }
    }
}

/// The row that an insertion of a checkpoint writes.
pub open spec fn checkpoint_row(
    parent_id: Option<&str>,
    label: Option<&str>,
    image_path: &str,
    created_at: i64,
) -> CheckpointRow {
    CheckpointRow {
        parent: text::slice_of(parent_id),
        label: text::slice_of(label),
        created_at,
        image_path: image_path@,
    }
}

/// `list` is every computer of the table, in the order of their names.
pub open spec fn lists_computers(table: Computers, list: Seq<Computer>) -> bool {
    &&& forall|i: int|
        0 <= i < list.len() ==> table.contains_pair((#[trigger] list[i]).name@, list[i].row())
    &&& forall|name: Seq<char>| #[trigger]
        table.contains_key(name) ==> exists|i: int|
            0 <= i < list.len() && (#[trigger] list[i]).name@ == name
    &&& forall|i: int, j: int|
        0 <= i < j < list.len() ==> text::ordered_before(
            (#[trigger] list[i]).name@,
            (#[trigger] list[j]).name@,
        )
}

/// `list` is every checkpoint of the table, once.
pub open spec fn lists_checkpoints(table: Checkpoints, list: Seq<Checkpoint>) -> bool {
    &&& forall|i: int|
        0 <= i < list.len() ==> table.contains_pair((#[trigger] list[i]).id@, list[i].row())
    &&& forall|id: Seq<char>| #[trigger]
        table.contains_key(id) ==> exists|i: int|
            0 <= i < list.len() && (#[trigger] list[i]).id@ == id
    &&& forall|i: int, j: int|
        0 <= i < j < list.len() ==> (#[trigger] list[i]).id@ != (#[trigger] list[j]).id@
}

// ---------------------------------------------------------------------------
// The database
// ---------------------------------------------------------------------------

/// A connection to an SQLite database.
#[verifier::external_type_specification]
#[verifier::external_body]
pub struct ExConnection(rusqlite::Connection);

/// What SQLite reports when it cannot do what it was asked.
#[verifier::external_type_specification]
#[verifier::external_body]
pub struct ExError(rusqlite::Error);

/// The table of computers, as the connection's last call found or left it. This
/// is the table of the schema, in a database whose text is encoded as UTF-8,
/// which is SQLite's default: what is claimed of it is not claimed of a table
/// of the same name, or of a database, that another program made otherwise.
pub uninterp spec fn computers_in(conn: Connection) -> Map<Seq<char>, ComputerRow>;

/// The table of checkpoints, as the connection's last call found or left it.
/// This too is the table of the schema, in such a database.
pub uninterp spec fn checkpoints_in(conn: Connection) -> Map<Seq<char>, CheckpointRow>;

/// Whether the database belongs to this connection alone, with no tables but
/// those of the schema, so that nobody else changes them between two calls.
pub uninterp spec fn sole_writer(conn: Connection) -> bool;

/// The path that the connection was opened with.
pub uninterp spec fn opened_at(conn: Connection) -> Seq<char>;

/// Whether the connection is inside of a transaction that was begun on it.
pub uninterp spec fn in_transaction(conn: Connection) -> bool;

/// Whether the connection refuses a reference to a checkpoint that is not
/// there, in tables of the schema.
pub uninterp spec fn checks_references(conn: Connection) -> bool;

/// Whether the last journal mode that was asked for on the connection is the
/// write-ahead log.
pub uninterp spec fn asked_for_wal(conn: Connection) -> bool;

/// Whether the connection's last call found or left both tables in the
/// database.
pub uninterp spec fn has_tables(conn: Connection) -> bool;

/// Whether an error is the refusal of a statement for the sake of a reference
/// between the tables.
pub uninterp spec fn is_refusal(e: rusqlite::Error) -> bool;

/// `after` is a connection to the same database as `before`, and no
/// transaction was begun on it.
pub open spec fn same_database(before: Connection, after: Connection) -> bool {
    &&& sole_writer(after) == sole_writer(before)
    &&& sole_writer(before) && has_tables(before) ==> has_tables(after)
    &&& opened_at(after) == opened_at(before)
    &&& in_transaction(after) ==> in_transaction(before)
}

/// `after` is the connection `before`, whatever rows were written.
pub open spec fn same_session(before: Connection, after: Connection) -> bool {
    &&& same_database(before, after)
    &&& checks_references(after) == checks_references(before)
    &&& asked_for_wal(after) == asked_for_wal(before)
}

/// The rows of a database of its own are what they were.
pub open spec fn same_rows(before: Connection, after: Connection) -> bool {
    sole_writer(before) ==> {
        &&& computers_in(after) == computers_in(before)
        &&& checkpoints_in(after) == checkpoints_in(before)
    }
}

/// `after` is the connection `before` with nothing changed by this program:
/// a database of its own still holds what it held.
pub open spec fn undisturbed(before: Connection, after: Connection) -> bool {
    &&& same_session(before, after)
    &&& same_rows(before, after)
}

/// `Connection::open_in_memory`: a new, empty database that only the new
/// connection reaches, which is opened at `:memory:`. Whether it checks
/// references from the start is a choice of the build of SQLite, and left
/// unsaid.
#[verifier::external_body]
fn connect_in_memory() -> (r: Result<Connection, rusqlite::Error>)
    ensures
        r matches Ok(conn) ==> {
            &&& sole_writer(conn)
            &&& computers_in(conn) == Computers::empty()
            &&& checkpoints_in(conn) == Checkpoints::empty()
            &&& opened_at(conn) == ":memory:"@
            &&& !in_transaction(conn)
        },
{
    Connection::open_in_memory()
}

/// `Connection::open`: a connection to the database at a path, outside of any
/// transaction. Other programs may have the same file open, so nothing is
/// claimed of what it holds.
#[verifier::external_body]
fn connect(path: &str) -> (r: Result<Connection, rusqlite::Error>)
    ensures
        r matches Ok(conn) ==> opened_at(conn) == path@ && !in_transaction(conn),
{
    Connection::open(path)
}

/// `Connection::pragma_update` of the journal mode or of the check on foreign
/// keys, which touches no row. The check is switched unless a transaction has
/// begun. The journal mode is asked for; which one comes of it is left unsaid, as
/// a database that is not in a file keeps its own.
#[verifier::external_body]
fn set_pragma(conn: &mut Connection, name: &str, value: &str) -> (r: Result<(), rusqlite::Error>)
    requires
        name@ == "journal_mode"@ && value@ == "WAL"@ || name@ == "foreign_keys"@ && (value@
            == "ON"@ || value@ == "OFF"@),
    ensures
        same_database(*old(conn), *final(conn)),
        same_rows(*old(conn), *final(conn)),
        name@ == "journal_mode"@ ==> checks_references(*final(conn)) == checks_references(
            *old(conn),
        ),
        name@ == "foreign_keys"@ && r is Ok && !in_transaction(*old(conn)) ==> (checks_references(
            *final(conn),
        ) <==> value@ == "ON"@),
        name@ == "journal_mode"@ && r is Ok ==> asked_for_wal(*final(conn)),
        name@ == "foreign_keys"@ ==> asked_for_wal(*final(conn)) == asked_for_wal(*old(conn)),
        r matches Err(e) ==> !is_refusal(e),
{
    conn.pragma_update(None, name, value)
}

/// `Connection::execute_batch` with the schema: creates the tables that are
/// not there, and touches no row.
#[verifier::external_body]
fn create_tables(conn: &mut Connection) -> (r: Result<(), rusqlite::Error>)
    ensures
        undisturbed(*old(conn), *final(conn)),
        r is Ok ==> has_tables(*final(conn)),
{
    conn.execute_batch(SCHEMA)
}

/// `Connection::query_row` for the row with a name, if there is one.
#[verifier::external_body]
fn select_computer(conn: &mut Connection, name: &str) -> (r: Result<
    Option<Computer>,
    rusqlite::Error,
>)
    ensures
        undisturbed(*old(conn), *final(conn)),
        r matches Ok(Some(c)) ==> c.name@ == name@ && computers_in(*final(conn)).contains_pair(
            name@,
            c.row(),
        ),
        r matches Ok(None) ==> !computers_in(*final(conn)).contains_key(name@),
{
    let sql = "select name, head_id, created_at from computer where name = ?1";
    conn.query_row(
        sql,
        [name],
        |r| Ok(Computer { name: r.get(0)?, head_id: r.get(1)?, created_at: r.get(2)? }),
    ).optional()
}

/// `Connection::execute` of an insertion, which the primary key refuses where
/// the name is taken, and the foreign key where the head is not there; a
/// refused statement changes nothing.
#[verifier::external_body]
fn insert_computer(
    conn: &mut Connection,
    name: &str,
    head_id: Option<&str>,
    created_at: i64,
) -> (r: Result<usize, rusqlite::Error>)
    ensures
        same_session(*old(conn), *final(conn)),
        r is Ok ==> computers_in(*final(conn)).contains_pair(
            name@,
            (ComputerRow { head: text::slice_of(head_id), created_at }),
        ),
        r is Ok && sole_writer(*old(conn)) ==> {
            &&& !computers_in(*old(conn)).contains_key(name@)
            &&& checks_references(*old(conn)) ==> (head_id matches Some(h)
                ==> checkpoints_in(*old(conn)).contains_key(h@))
            &&& computers_in(*final(conn)) == computers_in(*old(conn)).insert(
                name@,
                (ComputerRow { head: text::slice_of(head_id), created_at }),
            )
            &&& checkpoints_in(*final(conn)) == checkpoints_in(*old(conn))
        },
        r is Err ==> undisturbed(*old(conn), *final(conn)),
{
    conn.execute(
        "insert into computer (name, head_id, created_at) values (?1, ?2, ?3)",
        (name, head_id, created_at),
    )
}

/// `Connection::execute` of an update of one row, which returns how many rows
/// it changed: one where the name is there and none where it is not. The foreign
/// key refuses a head that is not there.
#[verifier::external_body]
fn update_head(conn: &mut Connection, name: &str, head_id: &str) -> (r: Result<
    usize,
    rusqlite::Error,
>)
    ensures
        same_session(*old(conn), *final(conn)),
        r matches Ok(n) ==> {
            let table = computers_in(*final(conn));
            &&& n == 0 <==> !table.contains_key(name@)
            &&& n != 0 ==> table[name@].head == Some(head_id@)
        },
        r is Ok && sole_writer(*old(conn)) ==> {
            let table = computers_in(*old(conn));
            &&& computers_in(*final(conn)) == (if table.contains_key(name@) {
                table.insert(
                    name@,
                    ComputerRow { head: Some(head_id@), created_at: table[name@].created_at },
                )
            } else {
                table
            })
            &&& checkpoints_in(*final(conn)) == checkpoints_in(*old(conn))
            &&& checks_references(*old(conn)) && table.contains_key(name@) ==> checkpoints_in(
                *old(conn),
            ).contains_key(head_id@)
        },
        r is Err ==> undisturbed(*old(conn), *final(conn)),
{
    conn.execute("update computer set head_id = ?2 where name = ?1", (name, head_id))
}

/// `Statement::query_map` over all computers, in the order of their names.
#[verifier::external_body]
fn select_computers(conn: &mut Connection) -> (r: Result<Vec<Computer>, rusqlite::Error>)
    ensures
        undisturbed(*old(conn), *final(conn)),
        r matches Ok(list) ==> lists_computers(computers_in(*final(conn)), list@),
{
    let sql = "select name, head_id, created_at from computer order by name";
    let mut stmt = conn.prepare(sql)?;
    let rows = stmt.query_map(
        [],
        |r| Ok(Computer { name: r.get(0)?, head_id: r.get(1)?, created_at: r.get(2)? }),
    )?;
    rows.collect()
}

/// `Connection::execute` of a deletion, which returns how many rows went: one
/// where the name was there and none where it was not.
#[verifier::external_body]
fn delete_computer_row(conn: &mut Connection, name: &str) -> (r: Result<usize, rusqlite::Error>)
    ensures
        same_session(*old(conn), *final(conn)),
        r is Ok ==> !computers_in(*final(conn)).contains_key(name@),
        r is Ok && sole_writer(*old(conn)) ==> {
            &&& (r->Ok_0 > 0) == computers_in(*old(conn)).contains_key(name@)
            &&& computers_in(*final(conn)) == computers_in(*old(conn)).remove(name@)
            &&& checkpoints_in(*final(conn)) == checkpoints_in(*old(conn))
        },
        r is Err ==> undisturbed(*old(conn), *final(conn)),
{
    conn.execute("delete from computer where name = ?1", [name])
}

/// `Connection::execute` of an insertion, which the primary key refuses where
/// the id is taken, and the foreign key where the parent is not there; a
/// refused statement changes nothing.
#[verifier::external_body]
fn insert_checkpoint(
    conn: &mut Connection,
    id: &str,
    parent_id: Option<&str>,
    label: Option<&str>,
    image_path: &str,
    created_at: i64,
) -> (r: Result<usize, rusqlite::Error>)
    ensures
        same_session(*old(conn), *final(conn)),
        r is Ok ==> checkpoints_in(*final(conn)).contains_pair(
            id@,
            checkpoint_row(parent_id, label, image_path, created_at),
        ),
        r is Ok && sole_writer(*old(conn)) ==> {
            &&& !checkpoints_in(*old(conn)).contains_key(id@)
            &&& checks_references(*old(conn)) ==> (parent_id matches Some(p) ==> p@ == id@
                || checkpoints_in(*old(conn)).contains_key(p@))
            &&& checkpoints_in(*final(conn)) == checkpoints_in(*old(conn)).insert(
                id@,
                checkpoint_row(parent_id, label, image_path, created_at),
            )
            &&& computers_in(*final(conn)) == computers_in(*old(conn))
        },
        r is Err ==> undisturbed(*old(conn), *final(conn)),
{
    conn.execute(
        "insert into checkpoint (id, parent_id, label, created_at, image_path)
         values (?1, ?2, ?3, ?4, ?5)",
        (id, parent_id, label, created_at, image_path),
    )
}

/// `Connection::query_row` for the row with an id, if there is one.
#[verifier::external_body]
fn select_checkpoint(conn: &mut Connection, id: &str) -> (r: Result<
    Option<Checkpoint>,
    rusqlite::Error,
>)
    ensures
        undisturbed(*old(conn), *final(conn)),
        r matches Ok(Some(c)) ==> c.id@ == id@ && checkpoints_in(*final(conn)).contains_pair(
            id@,
            c.row(),
        ),
        r matches Ok(None) ==> !checkpoints_in(*final(conn)).contains_key(id@),
{
    let sql = "select id, parent_id, label, created_at, image_path from checkpoint where id = ?1";
    conn.query_row(
        sql,
        [id],
        |r| Ok(Checkpoint {
            id: r.get(0)?,
            parent_id: r.get(1)?,
            label: r.get(2)?,
            created_at: r.get(3)?,
            image_path: r.get(4)?,
        }),
    ).optional()
}

/// `Statement::query_map` over all checkpoints, in no promised order.
#[verifier::external_body]
fn select_checkpoints(conn: &mut Connection) -> (r: Result<Vec<Checkpoint>, rusqlite::Error>)
    ensures
        undisturbed(*old(conn), *final(conn)),
        r matches Ok(list) ==> lists_checkpoints(checkpoints_in(*final(conn)), list@),
{
    let sql = "select id, parent_id, label, created_at, image_path from checkpoint";
    let mut stmt = conn.prepare(sql)?;
    let rows = stmt.query_map(
        [],
        |r| Ok(Checkpoint {
            id: r.get(0)?,
            parent_id: r.get(1)?,
            label: r.get(2)?,
            created_at: r.get(3)?,
            image_path: r.get(4)?,
        }),
    )?;
    rows.collect()
}

/// `Connection::execute` of a deletion of the row with an id, if there is one.
/// It is refused for the sake of a reference only where references are checked.
#[verifier::external_body]
fn delete_checkpoint_row(conn: &mut Connection, id: &str) -> (r: Result<usize, rusqlite::Error>)
    ensures
        same_session(*old(conn), *final(conn)),
        r is Ok ==> !checkpoints_in(*final(conn)).contains_key(id@),
        r is Ok && sole_writer(*old(conn)) ==> {
            &&& checkpoints_in(*final(conn)) == checkpoints_in(*old(conn)).remove(id@)
            &&& computers_in(*final(conn)) == computers_in(*old(conn))
        },
        r matches Err(e) ==> (!checks_references(*old(conn)) ==> !is_refusal(e)),
        r is Err ==> undisturbed(*old(conn), *final(conn)),
{
    conn.execute("delete from checkpoint where id = ?1", [id])
}

// ---------------------------------------------------------------------------
// The store
// ---------------------------------------------------------------------------

/// Why the store did not do what it was asked.
#[derive(Debug)]
pub enum StoreError {
    /// The database failed; the error is its own.
    Database(rusqlite::Error),
    NoSuchComputer(String),
    NoCheckpoints(String),
    DanglingHead(String),
    NoLabel { name: String, label: String },
}

impl StoreError {
    /// The error as the user reads it; a database error speaks for itself.
    pub open spec fn text(self) -> Option<Seq<char>> {
        match self {
            StoreError::Database(_) => None,
            StoreError::NoSuchComputer(name) => Some("no such computer: "@ + name@),
            StoreError::NoCheckpoints(name) => Some(
                "computer '"@ + name@ + "' has no checkpoints yet"@,
            ),
            StoreError::DanglingHead(name) => Some("dangling head for '"@ + name@ + "'"@),
            StoreError::NoLabel { name, label } => Some(
                "no checkpoint labeled '"@ + label@ + "' in '"@ + name@ + "'"@,
            ),
        }
    }

    /// The error as the user reads it; `None` for a database error.
    pub fn message(&self) -> (r: Option<String>)
        ensures
            text::text_of(r) == self.text(),
    {
        match self {
            StoreError::Database(_) => None,
            StoreError::NoSuchComputer(name) => {
                let mut s = "no such computer: ".to_owned();
                s.append(name.as_str());
                Some(s)
            },
            StoreError::NoCheckpoints(name) => {
                let mut s = "computer '".to_owned();
                s.append(name.as_str());
                s.append("' has no checkpoints yet");
                Some(s)
            },
            StoreError::DanglingHead(name) => {
                let mut s = "dangling head for '".to_owned();
                s.append(name.as_str());
                s.append("'");
                Some(s)
            },
            StoreError::NoLabel { name, label } => {
                let mut s = "no checkpoint labeled '".to_owned();
                s.append(label.as_str());
                s.append("' in '");
                s.append(name.as_str());
                s.append("'");
                Some(s)
            },
        }
    }
}

/// The id that comes after `i` steps along `list` from `head`.
pub open spec fn cursor_at(head: Option<Seq<char>>, list: Seq<Checkpoint>, i: int) -> Option<
    Seq<char>,
> {
    if i == 0 {
        head
    } else {
        list[i - 1].row().parent
    }
}

/// `list` runs from `head` along the parent links.
pub open spec fn linked(head: Option<Seq<char>>, list: Seq<Checkpoint>) -> bool {
    forall|i: int|
        0 <= i < list.len() ==> cursor_at(head, list, i) == Some((#[trigger] list[i]).id@)
}

/// Each checkpoint of `list` is the parent of the one before it.
pub open spec fn chained(list: Seq<Checkpoint>) -> bool {
    forall|i: int| 0 < i < list.len() ==> list[i - 1].row().parent == Some((#[trigger] list[i]).id@)
}

/// `list` is the line of checkpoints from `head` back to its root, newest
/// first. It ends at a checkpoint without a parent, or whose parent is gone.
pub open spec fn is_line(
    table: Checkpoints,
    head: Option<Seq<char>>,
    list: Seq<Checkpoint>,
) -> bool {
    &&& forall|i: int|
        0 <= i < list.len() ==> table.contains_pair((#[trigger] list[i]).id@, list[i].row())
    &&& linked(head, list)
    &&& cursor_at(head, list, list.len() as int) matches Some(id) ==> !table.contains_key(id)
}

/// The name and the label in a reference: `name`, or `name@label`.
pub open spec fn ref_parts(reference: Seq<char>) -> (Seq<char>, Option<Seq<char>>) {
    match text::split_first(reference, '@') {
        Some((name, label)) => (name, Some(label)),
        None => (reference, None),
    }
}

/// `cp` is the newest checkpoint of `list` with a label.
pub open spec fn newest_labeled(list: Seq<Checkpoint>, label: Seq<char>, cp: Checkpoint) -> bool {
    exists|i: int|
        {
            &&& 0 <= i < list.len()
            &&& #[trigger] list[i] == cp
            &&& text::text_of(cp.label) == Some(label)
            &&& forall|j: int| 0 <= j < i ==> text::text_of((#[trigger] list[j]).label) != Some(label)
        }
}

/// No checkpoint of `list` has a label.
pub open spec fn none_labeled(list: Seq<Checkpoint>, label: Seq<char>) -> bool {
    forall|i: int| 0 <= i < list.len() ==> text::text_of((#[trigger] list[i]).label) != Some(label)
}

/// What resolving a reference gives: the head of the named computer, or the
/// newest checkpoint of its line with the label; or which of the two is
/// missing.
pub open spec fn resolves(
    store: Store,
    reference: Seq<char>,
    r: Result<Checkpoint, StoreError>,
) -> bool {
    let (name, label) = ref_parts(reference);
    let known = store.computers().contains_key(name);
    let head = store.computers()[name].head;
    let table = store.checkpoints();
    match r {
        Ok(cp) => {
            &&& label matches Some(label) ==> text::text_of(cp.label) == Some(label)
            &&& store.exclusive() ==> known && match label {
                None => head == Some(cp.id@) && table.contains_pair(cp.id@, cp.row()),
                Some(label) => exists|list: Seq<Checkpoint>| #[trigger]
                    is_line(table, head, list) && newest_labeled(list, label, cp),
            }
        },
        Err(StoreError::Database(_)) => true,
        Err(StoreError::NoSuchComputer(n)) => n@ == name && (store.exclusive() ==> !known),
        Err(StoreError::NoCheckpoints(n)) => n@ == name && label is None && (store.exclusive()
            ==> known && head is None),
        Err(StoreError::DanglingHead(n)) => n@ == name && label is None && (store.exclusive()
            ==> known && head is Some && !table.contains_key(head->Some_0)),
        Err(StoreError::NoLabel { name: n, label: l }) => n@ == name && label == Some(l@) && (
        store.exclusive() ==> known && exists|list: Seq<Checkpoint>| #[trigger]
            is_line(table, head, list) && forall|i: int|
                0 <= i < list.len() ==> text::text_of((#[trigger] list[i]).label) != Some(l@)),
    }
}

/// Each id of `path` is the parent of the one before it.
pub open spec fn is_path(table: Checkpoints, path: Seq<Seq<char>>) -> bool {
    &&& path.len() > 0
    &&& forall|i: int|
        0 <= i < path.len() - 1 ==> table.contains_key(#[trigger] path[i])
            && table[path[i]].parent == Some(path[i + 1])
}

/// The head of some computer leads to `id` along the parent links.
pub open spec fn reachable(computers: Computers, table: Checkpoints, id: Seq<char>) -> bool {
    exists|name: Seq<char>, path: Seq<Seq<char>>|
        {
            &&& #[trigger] computers.contains_key(name)
            &&& #[trigger] is_path(table, path)
            &&& computers[name].head == Some(path[0])
            &&& path.last() == id
        }
}

/// `ids` are the ids that some computer leads to.
pub open spec fn are_reachable_ids(
    computers: Computers,
    table: Checkpoints,
    ids: Seq<String>,
) -> bool {
    forall|id: Seq<char>| #[trigger] text::among(ids, id) <==> reachable(computers, table, id)
}

/// No text occurs twice in `ids`.
pub open spec fn each_once(ids: Seq<String>) -> bool {
    forall|i: int, j: int|
        0 <= i < j < ids.len() ==> (#[trigger] ids[i])@ != (#[trigger] ids[j])@
}

/// `table` without the checkpoints whose ids are in `ids`.
pub open spec fn without(table: Checkpoints, ids: Seq<String>) -> Checkpoints {
    table.restrict(Set::new(|id: Seq<char>| table.contains_key(id) && !text::among(ids, id)))
}

proof fn lemma_without_more(table: Checkpoints, ids: Seq<String>, n: int)
    requires
        0 <= n < ids.len(),
    ensures
        without(table, ids.take(n)).remove(ids[n]@) == without(table, ids.take(n + 1)),
        without(table, ids.take(n)).submap_of(table),
        without(table, ids).submap_of(without(table, ids.take(n))),
{
    assert forall|id: Seq<char>|
        text::among(ids.take(n + 1), id) == (text::among(ids.take(n), id) || id == ids[n]@) by {
        if text::among(ids.take(n), id) {
            let i = choose|i: int| 0 <= i < n && (#[trigger] ids.take(n)[i])@ == id;
            assert(ids.take(n + 1)[i]@ == id);
        }
        if id == ids[n]@ {
            assert(ids.take(n + 1)[n]@ == id);
        }
        if text::among(ids.take(n + 1), id) {
            let i = choose|i: int| 0 <= i < n + 1 && (#[trigger] ids.take(n + 1)[i])@ == id;
            if i < n {
                assert(ids.take(n)[i]@ == id);
            }
        }
    }
    assert forall|id: Seq<char>| text::among(ids.take(n), id) implies text::among(ids, id) by {
        let i = choose|i: int| 0 <= i < n && (#[trigger] ids.take(n)[i])@ == id;
        assert(ids[i]@ == id);
    }
    assert(without(table, ids.take(n)).remove(ids[n]@) =~= without(table, ids.take(n + 1)));
}

/// `table` without the checkpoints that no computer leads to.
pub open spec fn pruned(computers: Computers, table: Checkpoints) -> Checkpoints {
    table.restrict(
        Set::new(|id: Seq<char>| table.contains_key(id) && reachable(computers, table, id)),
    )
}

/// Every parent of an id in `ids` is in `ids` too, or is `open_end`.
spec fn closed_but(table: Checkpoints, ids: Seq<String>, open_end: Option<Seq<char>>) -> bool {
    forall|i: int|
        0 <= i < ids.len() && table.contains_key((#[trigger] ids[i])@) ==> {
            let parent = table[ids[i]@].parent;
            parent is None || parent == open_end || text::among(ids, parent->Some_0)
        }
}

proof fn lemma_path_stays(table: Checkpoints, ids: Seq<String>, path: Seq<Seq<char>>, n: int)
    requires
        closed_but(table, ids, None),
        is_path(table, path),
        text::among(ids, path[0]),
        0 <= n < path.len(),
    ensures
        text::among(ids, path[n]),
    decreases n,
{
    if n > 0 {
        lemma_path_stays(table, ids, path, n - 1);
        let i = choose|i: int| 0 <= i < ids.len() && (#[trigger] ids[i])@ == path[n - 1];
        assert(table[ids[i]@].parent == Some(path[n]));
    }
}

/// What leads to a checkpoint leads to its parent too.
pub proof fn parents_are_reachable(
    computers: Computers,
    table: Checkpoints,
    id: Seq<char>,
    parent: Seq<char>,
)
    requires
        reachable(computers, table, id),
        table.contains_key(id),
        table[id].parent == Some(parent),
    ensures
        reachable(computers, table, parent),
{
    let (name, path) = choose|name: Seq<char>, path: Seq<Seq<char>>|
        {
            &&& #[trigger] computers.contains_key(name)
            &&& #[trigger] is_path(table, path)
            &&& computers[name].head == Some(path[0])
            &&& path.last() == id
        };
    let longer = path.push(parent);
    assert forall|i: int| 0 <= i < longer.len() - 1 implies table.contains_key(#[trigger] longer[i])
        && table[longer[i]].parent == Some(longer[i + 1]) by {
        assert(longer[i] == path[i]);
        if i < path.len() - 1 {
            assert(longer[i + 1] == path[i + 1]);
        }
    }
    assert(computers.contains_key(name) && is_path(table, longer));
    assert(longer[0] == path[0] && longer.last() == parent);
}

proof fn lemma_head_reachable(
    computers: Computers,
    table: Checkpoints,
    name: Seq<char>,
    head: Seq<char>,
)
    requires
        computers.contains_key(name),
        computers[name].head == Some(head),
    ensures
        reachable(computers, table, head),
{
    let path = seq![head];
    assert(computers.contains_key(name) && is_path(table, path));
    assert(path.last() == head);
}

/// `left` is `table` after the deletion of some of `ids`, from the first one on.
pub open spec fn deleted_in_order(table: Checkpoints, ids: Seq<String>, left: Checkpoints) -> bool {
    exists|k: int| 0 <= k <= ids.len() && left == without(table, #[trigger] ids.take(k))
}

/// What is left after a number of deletions.
proof fn lemma_deleted_in_order(table: Checkpoints, ids: Seq<String>, k: int)
    requires
        0 <= k <= ids.len(),
    ensures
        deleted_in_order(table, ids, without(table, ids.take(k))),
{
}

/// What looking a computer up gives.
pub open spec fn computer_found(
    store: Store,
    name: Seq<char>,
    r: Result<Option<Computer>, StoreError>,
) -> bool {
    match r {
        Ok(Some(c)) => c.name@ == name && store.computers().contains_pair(name, c.row()),
        Ok(None) => !store.computers().contains_key(name),
        Err(e) => e is Database,
    }
}

/// What looking a checkpoint up gives.
pub open spec fn checkpoint_found(
    store: Store,
    id: Seq<char>,
    r: Result<Option<Checkpoint>, StoreError>,
) -> bool {
    match r {
        Ok(Some(c)) => c.id@ == id && store.checkpoints().contains_pair(id, c.row()),
        Ok(None) => !store.checkpoints().contains_key(id),
        Err(e) => e is Database,
    }
}

/// A computer was added under a name that was free.
pub open spec fn computer_added(
    before: Store,
    after: Store,
    name: Seq<char>,
    row: ComputerRow,
) -> bool {
    &&& after.computers().contains_pair(name, row)
    &&& before.exclusive() ==> {
        &&& !before.computers().contains_key(name)
        &&& after.computers() == before.computers().insert(name, row)
        &&& after.checkpoints() == before.checkpoints()
    }
}

/// A checkpoint was added under an id that was free.
pub open spec fn checkpoint_added(
    before: Store,
    after: Store,
    id: Seq<char>,
    row: CheckpointRow,
) -> bool {
    &&& after.checkpoints().contains_pair(id, row)
    &&& before.exclusive() ==> {
        &&& !before.checkpoints().contains_key(id)
        &&& after.checkpoints() == before.checkpoints().insert(id, row)
        &&& after.computers() == before.computers()
    }
}

/// A computer was pointed at another checkpoint, and nothing else changed.
pub open spec fn head_moved(
    before: Store,
    after: Store,
    name: Seq<char>,
    head: Seq<char>,
) -> bool {
    &&& after.computers().contains_key(name)
    &&& after.computers()[name].head == Some(head)
    &&& before.exclusive() ==> {
        &&& before.computers().contains_key(name)
        &&& after.computers() == before.computers().insert(
            name,
            ComputerRow {
                head: Some(head),
                created_at: before.computers()[name].created_at,
            },
        )
        &&& after.checkpoints() == before.checkpoints()
    }
}

/// The id for 64 random bits: the low 56 of them in base sixteen, at least
/// twelve digits.
pub open spec fn id_text(bits: u64) -> Seq<char> {
    number::zero_padded(number::hexadecimal((bits % 0x100_0000_0000_0000) as nat), 12)
}

/// `Rng::gen` on the thread's generator: 64 random bits.
#[verifier::external_body]
fn random_bits() -> u64 {
    rand::thread_rng().gen()
}

/// The checkpoint id for 64 random bits.
pub fn checkpoint_id(bits: u64) -> (r: String)
    ensures
        r@ == id_text(bits),
{
    let kept = bits % 0x100_0000_0000_0000;
    zero_pad(hexadecimal_text(kept), 12)
}

/// The newest checkpoint with a label in a line of checkpoints.
pub fn find_label(list: Vec<Checkpoint>, label: &str) -> (r: Option<Checkpoint>)
    ensures
        match r {
            Some(cp) => newest_labeled(list@, label@, cp),
            None => forall|i: int|
                0 <= i < list@.len() ==> text::text_of((#[trigger] list@[i]).label) != Some(label@),
        },
        r is None ==> none_labeled(list@, label@),
{
    let mut rest = list;
    let mut i: usize = 0;
    while i < rest.len()
        invariant
            i <= rest.len(),
            rest@ == list@,
            forall|j: int| 0 <= j < i ==> text::text_of((#[trigger] list@[j]).label) != Some(label@),
        decreases rest.len() - i,
    {
        let found = match &rest[i].label {
            Some(l) => same(l.as_str(), label),
            None => false,
        };
        if found {
            let cp = rest.remove(i);
            assert(list@[i as int] == cp);
            return Some(cp);
        }
        i += 1;
    }
    None
}

/// What was found under the name of a computer, which has to be there.
pub fn known(found: Option<Computer>, name: &str) -> (r: Result<Computer, StoreError>)
    ensures
        match found {
            Some(c) => r == Ok::<Computer, StoreError>(c),
            None => r matches Err(StoreError::NoSuchComputer(n)) && n@ == name@,
        },
{
    match found {
        Some(c) => Ok(c),
        None => Err(StoreError::NoSuchComputer(name.to_owned())),
    }
}

/// The head of a computer, which has to have one.
pub fn headed(head: Option<String>, name: &str) -> (r: Result<String, StoreError>)
    ensures
        match head {
            Some(id) => r == Ok::<String, StoreError>(id),
            None => r matches Err(StoreError::NoCheckpoints(n)) && n@ == name@,
        },
{
    match head {
        Some(id) => Ok(id),
        None => Err(StoreError::NoCheckpoints(name.to_owned())),
    }
}

/// What was found under the head of a computer, which has to be there.
pub fn placed(found: Option<Checkpoint>, name: &str) -> (r: Result<Checkpoint, StoreError>)
    ensures
        match found {
            Some(cp) => r == Ok::<Checkpoint, StoreError>(cp),
            None => r matches Err(StoreError::DanglingHead(n)) && n@ == name@,
        },
{
    match found {
        Some(cp) => Ok(cp),
        None => Err(StoreError::DanglingHead(name.to_owned())),
    }
}

/// The newest checkpoint with a label in the line of a computer, which has to
/// have one.
pub fn labeled(list: Vec<Checkpoint>, name: &str, label: &str) -> (r: Result<
    Checkpoint,
    StoreError,
>)
    ensures
        match r {
            Ok(cp) => newest_labeled(list@, label@, cp),
            Err(StoreError::NoLabel { name: n, label: l }) => {
                &&& n@ == name@
                &&& l@ == label@
                &&& forall|i: int|
                    0 <= i < list@.len() ==> text::text_of((#[trigger] list@[i]).label) != Some(
                        label@,
                    )
            },
            Err(_) => false,
        },
{
    match find_label(list, label) {
        Some(cp) => Ok(cp),
        None => Err(StoreError::NoLabel { name: name.to_owned(), label: label.to_owned() }),
    }
}

/// One step back along a line: what was found is added to the line, and its
/// parent comes next; nothing does where nothing was found.
pub fn step(out: &mut Vec<Checkpoint>, found: Option<Checkpoint>) -> (next: Option<String>)
    ensures
        match found {
            Some(cp) => final(out)@ == old(out)@.push(cp) && text::text_of(next) == text::text_of(
                cp.parent_id,
            ),
            None => final(out)@ == old(out)@ && next is None,
        },
{
    match found {
        Some(cp) => {
            let next = cp.parent_id.clone();
            out.push(cp);
            next
        },
        None => None,
    }
}

/// Takes note of an id, and says whether it is a new one.
pub fn note(seen: &mut Vec<String>, id: &str) -> (new: bool)
    ensures
        new == !text::among(old(seen)@, id@),
        new ==> final(seen)@.len() == old(seen)@.len() + 1,
        new ==> final(seen)@.drop_last() == old(seen)@ && final(seen)@.last()@ == id@,
        !new ==> final(seen)@ == old(seen)@,
{
    if is_among(seen, id) {
        return false;
    }
    let ghost before = seen@;
    seen.push(id.to_owned());
    assert(seen@.drop_last() =~= before);
    true
}

/// The id that comes after a checkpoint on the way to its root; none does where
/// no checkpoint was found.
pub fn parent_of(found: Option<Checkpoint>) -> (next: Option<String>)
    ensures
        match found {
            Some(cp) => next == cp.parent_id,
            None => next is None,
        },
{
    match found {
        Some(cp) => cp.parent_id,
        None => None,
    }
}

/// Whether a head was moved, by the number of rows that were changed.
pub fn moved(rows: usize, name: &str) -> (r: Result<(), StoreError>)
    ensures
        if rows == 0 {
            r matches Err(StoreError::NoSuchComputer(n)) && n@ == name@
        } else {
            r is Ok
        },
{
    if rows == 0 {
        Err(StoreError::NoSuchComputer(name.to_owned()))
    } else {
        Ok(())
    }
}

/// Whether something was removed, by the number of rows that went.
pub fn removed(rows: usize) -> (r: bool)
    ensures
        r == (rows > 0),
{
    rows > 0
}

/// Computers and checkpoints in one database.
pub struct Store {
    conn: Connection,
}

impl Store {
    /// The computers, as the last call found or left them.
    pub closed spec fn computers(self) -> Computers {
        computers_in(self.conn)
    }

    /// The checkpoints, as the last call found or left them.
    pub closed spec fn checkpoints(self) -> Checkpoints {
        checkpoints_in(self.conn)
    }

    /// Whether nobody else writes to the database.
    pub closed spec fn exclusive(self) -> bool {
        sole_writer(self.conn)
    }

    /// The path that the store was opened with.
    pub closed spec fn path(self) -> Seq<char> {
        opened_at(self.conn)
    }

    /// Whether no transaction was begun on the store.
    pub closed spec fn idle(self) -> bool {
        !in_transaction(self.conn)
    }

    /// Whether the store refuses a reference to a checkpoint that is not there.
    pub closed spec fn checked(self) -> bool {
        checks_references(self.conn)
    }

    /// Whether the last call found or left the tables in the database.
    pub closed spec fn ready(self) -> bool {
        has_tables(self.conn)
    }

    /// Whether the store asked for the write-ahead log as its journal.
    pub closed spec fn journaled(self) -> bool {
        asked_for_wal(self.conn)
    }

    /// This is the store `before` on the same database.
    pub open spec fn on_database_of(self, before: Store) -> bool {
        &&& self.exclusive() == before.exclusive()
        &&& self.path() == before.path()
        &&& self.journaled() == before.journaled()
        &&& before.idle() ==> self.idle()
        &&& before.exclusive() && before.ready() ==> self.ready()
    }

    /// This is the store `before`, whatever was written to it.
    pub open spec fn follows(self, before: Store) -> bool {
        &&& self.on_database_of(before)
        &&& self.checked() == before.checked()
    }

    /// Nothing was changed through this store since `before`.
    pub open spec fn unchanged_since(self, before: Store) -> bool {
        &&& self.follows(before)
        &&& before.exclusive() ==> {
            &&& self.computers() == before.computers()
            &&& self.checkpoints() == before.checkpoints()
        }
    }

    /// Opens the store in a file, and creates its tables where it has none. It
    /// refuses references to checkpoints that are not there.
    pub fn open(path: &str) -> (r: Result<Store, StoreError>)
        ensures
            match r {
                Ok(store) => {
                    &&& store.path() == path@
                    &&& store.idle()
                    &&& store.checked()
                    &&& store.journaled()
                    &&& store.ready()
                },
                Err(e) => e is Database,
            },
    {
        match connect(path) {
            Err(e) => Err(StoreError::Database(e)),
            Ok(conn) => {
                let mut conn = conn;
                match set_pragma(&mut conn, "journal_mode", "WAL") {
                    Err(e) => return Err(StoreError::Database(e)),
                    Ok(_) => {},
                }
                match set_pragma(&mut conn, "foreign_keys", "ON") {
                    Err(e) => return Err(StoreError::Database(e)),
                    Ok(_) => {},
                }
                match create_tables(&mut conn) {
                    Err(e) => Err(StoreError::Database(e)),
                    Ok(_) => Ok(Store { conn }),
                }
            },
        }
    }

    /// A store of its own in memory, empty.
    pub fn in_memory() -> (r: Result<Store, StoreError>)
        ensures
            match r {
                Ok(store) => {
                    &&& store.exclusive()
                    &&& store.computers() == Computers::empty()
                    &&& store.checkpoints() == Checkpoints::empty()
                    &&& store.path() == ":memory:"@
                    &&& store.idle()
                    &&& store.ready()
                },
                Err(e) => e is Database,
            },
    {
        match connect_in_memory() {
            Err(e) => Err(StoreError::Database(e)),
            Ok(conn) => {
                let mut conn = conn;
                match create_tables(&mut conn) {
                    Err(e) => Err(StoreError::Database(e)),
                    Ok(_) => Ok(Store { conn }),
                }
            },
        }
    }

    /// A new checkpoint id, drawn at random.
    pub fn new_checkpoint_id() -> (r: String)
        ensures
            exists|bits: u64| r@ == #[trigger] id_text(bits),
    {
        checkpoint_id(random_bits())
    }

    /// The computer with a name.
    pub fn get_computer(&mut self, name: &str) -> (r: Result<Option<Computer>, StoreError>)
        ensures
            final(self).unchanged_since(*old(self)),
            computer_found(*final(self), name@, r),
    {
        match select_computer(&mut self.conn, name) {
            Ok(found) => Ok(found),
            Err(e) => Err(StoreError::Database(e)),
        }
    }

    /// Adds a computer; refused where the name is taken, or the head is not there.
    pub fn create_computer(
        &mut self,
        name: &str,
        head_id: Option<&str>,
        created_at: i64,
    ) -> (r: Result<(), StoreError>)
        ensures
            final(self).follows(*old(self)),
            match r {
                Ok(_) => computer_added(
                    *old(self),
                    *final(self),
                    name@,
                    (ComputerRow { head: text::slice_of(head_id), created_at }),
                ) && (old(self).exclusive() && old(self).checked() ==> (head_id matches Some(h)
                    ==> old(self).checkpoints().contains_key(h@))),
                Err(e) => e is Database && final(self).unchanged_since(*old(self)),
            },
    {
        match insert_computer(&mut self.conn, name, head_id, created_at) {
            Ok(_) => Ok(()),
            Err(e) => Err(StoreError::Database(e)),
        }
    }

    /// Points a computer at another checkpoint; refused where that is not there.
    pub fn set_head(&mut self, name: &str, head_id: &str) -> (r: Result<(), StoreError>)
        ensures
            final(self).follows(*old(self)),
            match r {
                Ok(_) => head_moved(*old(self), *final(self), name@, head_id@) && (
                old(self).exclusive() && old(self).checked()
                    ==> old(self).checkpoints().contains_key(head_id@)),
                Err(StoreError::NoSuchComputer(n)) => {
                    &&& n@ == name@
                    &&& !final(self).computers().contains_key(name@)
                    &&& final(self).unchanged_since(*old(self))
                },
                Err(e) => e is Database && final(self).unchanged_since(*old(self)),
            },
    {
        match update_head(&mut self.conn, name, head_id) {
            Ok(n) => moved(n, name),
            Err(e) => Err(StoreError::Database(e)),
        }
    }

    /// All computers, in the order of their names.
    pub fn list_computers(&mut self) -> (r: Result<Vec<Computer>, StoreError>)
        ensures
            final(self).unchanged_since(*old(self)),
            match r {
                Ok(list) => lists_computers(final(self).computers(), list@),
                Err(e) => e is Database,
            },
    {
        match select_computers(&mut self.conn) {
            Ok(list) => Ok(list),
            Err(e) => Err(StoreError::Database(e)),
        }
    }

    /// Removes a computer, and says whether it was there.
    pub fn delete_computer(&mut self, name: &str) -> (r: Result<bool, StoreError>)
        ensures
            final(self).follows(*old(self)),
            match r {
                Ok(gone) => {
                    &&& !final(self).computers().contains_key(name@)
                    &&& old(self).exclusive() ==> {
                        &&& gone == old(self).computers().contains_key(name@)
                        &&& final(self).computers() == old(self).computers().remove(name@)
                        &&& final(self).checkpoints() == old(self).checkpoints()
                    }
                },
                Err(e) => e is Database && final(self).unchanged_since(*old(self)),
            },
    {
        match delete_computer_row(&mut self.conn, name) {
            Ok(n) => Ok(removed(n)),
            Err(e) => Err(StoreError::Database(e)),
        }
    }

    /// Adds a checkpoint; refused where the id is taken, or the parent is not
    /// there.
    pub fn add_checkpoint(
        &mut self,
        id: &str,
        parent_id: Option<&str>,
        label: Option<&str>,
        image_path: &str,
        created_at: i64,
    ) -> (r: Result<(), StoreError>)
        ensures
            final(self).follows(*old(self)),
            match r {
                Ok(_) => checkpoint_added(
                    *old(self),
                    *final(self),
                    id@,
                    checkpoint_row(parent_id, label, image_path, created_at),
                ) && (old(self).exclusive() && old(self).checked() ==> (parent_id matches Some(p)
                    ==> p@ == id@ || old(self).checkpoints().contains_key(p@))),
                Err(e) => e is Database && final(self).unchanged_since(*old(self)),
            },
    {
        match insert_checkpoint(&mut self.conn, id, parent_id, label, image_path, created_at) {
            Ok(_) => Ok(()),
            Err(e) => Err(StoreError::Database(e)),
        }
    }

    /// The checkpoint with an id.
    pub fn get_checkpoint(&mut self, id: &str) -> (r: Result<Option<Checkpoint>, StoreError>)
        ensures
            final(self).unchanged_since(*old(self)),
            checkpoint_found(*final(self), id@, r),
    {
        match select_checkpoint(&mut self.conn, id) {
            Ok(found) => Ok(found),
            Err(e) => Err(StoreError::Database(e)),
        }
    }

    /// All checkpoints, in no promised order.
    pub fn all_checkpoints(&mut self) -> (r: Result<Vec<Checkpoint>, StoreError>)
        ensures
            final(self).unchanged_since(*old(self)),
            match r {
                Ok(list) => lists_checkpoints(final(self).checkpoints(), list@),
                Err(e) => e is Database,
            },
    {
        match select_checkpoints(&mut self.conn) {
            Ok(list) => Ok(list),
            Err(e) => Err(StoreError::Database(e)),
        }
    }

    /// Checkpoints from a computer's head back to its root, newest first.
    pub fn history(&mut self, name: &str) -> (r: Result<Vec<Checkpoint>, StoreError>)
        ensures
            final(self).unchanged_since(*old(self)),
            match r {
                Ok(list) => {
                    &&& chained(list@)
                    &&& old(self).exclusive() ==> {
                        &&& old(self).computers().contains_key(name@)
                        &&& is_line(
                            old(self).checkpoints(),
                            old(self).computers()[name@].head,
                            list@,
                        )
                    }
                },
                Err(StoreError::NoSuchComputer(n)) => n@ == name@ && (old(self).exclusive()
                    ==> !old(self).computers().contains_key(name@)),
                Err(e) => e is Database,
            },
    {
        let found = match self.get_computer(name) {
            Err(e) => return Err(e),
            Ok(found) => found,
        };
        let computer = match known(found, name) {
            Err(e) => return Err(e),
            Ok(c) => c,
        };
        let ghost head = text::text_of(computer.head_id);
        let mut out: Vec<Checkpoint> = Vec::new();
        let mut cursor: Option<String> = computer.head_id;
        loop
            invariant
                self.unchanged_since(*old(self)),
                old(self).exclusive() ==> old(self).computers().contains_key(name@)
                    && old(self).computers()[name@].head == head,
                linked(head, out@),
                text::text_of(cursor) == cursor_at(head, out@, out@.len() as int),
                old(self).exclusive() ==> forall|i: int|
                    0 <= i < out@.len() ==> old(self).checkpoints().contains_pair(
                        (#[trigger] out@[i]).id@,
                        out@[i].row(),
                    ),
            decreases usize::MAX - out.len(),
        {
            assert(chained(out@)) by {
                assert forall|i: int| 0 < i < out@.len() implies out@[i - 1].row().parent == Some(
                    (#[trigger] out@[i]).id@,
                ) by {
                    assert(cursor_at(head, out@, i) == Some(out@[i].id@));
                }
            }
            let id = match cursor {
                None => return Ok(out),
                Some(id) => id,
            };
            let found = match self.get_checkpoint(id.as_str()) {
                Err(e) => return Err(e),
                Ok(found) => found,
            };
            let ends = found.is_none();
            let ghost before = out@;
            cursor = step(&mut out, found);
            if ends {
                return Ok(out);
            }
            proof {
                assert forall|i: int| 0 <= i < out@.len() implies cursor_at(head, out@, i) == Some(
                    (#[trigger] out@[i]).id@,
                ) by {
                    if i < before.len() {
                        assert(out@[i] == before[i]);
                        assert(cursor_at(head, before, i) == Some(before[i].id@));
                    } else {
                        assert(cursor_at(head, before, before.len() as int) == Some(id@));
                    }
                }
            }
        }
    }

    /// Resolves a reference, `name` for a computer's head or `name@label` for a
    /// labeled checkpoint in that computer's line, to a checkpoint.
    pub fn resolve_ref(&mut self, reference: &str) -> (r: Result<Checkpoint, StoreError>)
        ensures
            final(self).unchanged_since(*old(self)),
            resolves(*old(self), reference@, r),
    {
        let (name, label) = match split_once(reference, '@') {
            Some((n, l)) => (n, Some(l)),
            None => (reference, None),
        };
        match label {
            None => {
                let found = match self.get_computer(name) {
                    Err(e) => return Err(e),
                    Ok(found) => found,
                };
                let computer = match known(found, name) {
                    Err(e) => return Err(e),
                    Ok(c) => c,
                };
                let head = match headed(computer.head_id, name) {
                    Err(e) => return Err(e),
                    Ok(head) => head,
                };
                match self.get_checkpoint(head.as_str()) {
                    Err(e) => Err(e),
                    Ok(found) => placed(found, name),
                }
            },
            Some(label) => match self.history(name) {
                Err(e) => Err(e),
                Ok(list) => labeled(list, name, label),
            },
        }
    }

    /// Every id that some computer's head leads to along the parent links,
    /// each once.
    pub fn reachable_checkpoints(&mut self) -> (r: Result<Vec<String>, StoreError>)
        ensures
            final(self).unchanged_since(*old(self)),
            match r {
                Ok(ids) => {
                    &&& forall|i: int, j: int|
                        0 <= i < j < ids@.len() ==> (#[trigger] ids@[i])@ != (#[trigger] ids@[j])@
                    &&& old(self).exclusive() ==> forall|id: Seq<char>| #[trigger]
                        text::among(ids@, id) <==> reachable(
                            old(self).computers(),
                            old(self).checkpoints(),
                            id,
                        )
                },
                Err(e) => e is Database,
            },
            r matches Ok(ids) ==> each_once(ids@) && (old(self).exclusive() ==> are_reachable_ids(
                old(self).computers(),
                old(self).checkpoints(),
                ids@,
            )),
    {
        let computers = match self.list_computers() {
            Err(e) => return Err(e),
            Ok(list) => list,
        };
        let mut out: Vec<String> = Vec::new();
        let mut k: usize = 0;
        while k < computers.len()
            invariant
                k <= computers.len(),
                self.unchanged_since(*old(self)),
                forall|i: int, j: int|
                    0 <= i < j < out@.len() ==> (#[trigger] out@[i])@ != (#[trigger] out@[j])@,
                old(self).exclusive() ==> {
                    &&& lists_computers(old(self).computers(), computers@)
                    &&& closed_but(old(self).checkpoints(), out@, None)
                    &&& forall|i: int|
                        0 <= i < out@.len() ==> reachable(
                            old(self).computers(),
                            old(self).checkpoints(),
                            (#[trigger] out@[i])@,
                        )
                    &&& forall|i: int|
                        0 <= i < k && (#[trigger] computers@[i]).head_id is Some ==> text::among(
                            out@,
                            computers@[i].head_id->Some_0@,
                        )
                },
            decreases computers.len() - k,
        {
            let mut cursor: Option<String> = computers[k].head_id.clone();
            let ghost head = text::text_of(computers@[k as int].head_id);
            proof {
                if old(self).exclusive() && head is Some {
                    assert(computers@[k as int].row().head == head);
                    lemma_head_reachable(
                        old(self).computers(),
                        old(self).checkpoints(),
                        computers@[k as int].name@,
                        head->Some_0,
                    );
                }
            }
            loop
                invariant_except_break
                    old(self).exclusive() ==> {
                        &&& closed_but(old(self).checkpoints(), out@, text::text_of(cursor))
                        &&& cursor is Some ==> reachable(
                            old(self).computers(),
                            old(self).checkpoints(),
                            cursor->Some_0@,
                        )
                        &&& head is Some ==> text::text_of(cursor) == head || text::among(
                            out@,
                            head->Some_0,
                        )
                    },
                invariant
                    k < computers.len(),
                    self.unchanged_since(*old(self)),
                    head == text::text_of(computers@[k as int].head_id),
                    forall|i: int, j: int|
                        0 <= i < j < out@.len() ==> (#[trigger] out@[i])@ != (
                        #[trigger] out@[j])@,
                    old(self).exclusive() ==> {
                        &&& forall|i: int|
                            0 <= i < out@.len() ==> reachable(
                                old(self).computers(),
                                old(self).checkpoints(),
                                (#[trigger] out@[i])@,
                            )
                        &&& forall|i: int|
                            0 <= i < k && (#[trigger] computers@[i]).head_id is Some ==> text::among(
                                out@,
                                computers@[i].head_id->Some_0@,
                            )
                    },
                ensures
                    old(self).exclusive() ==> {
                        &&& closed_but(old(self).checkpoints(), out@, None)
                        &&& head is Some ==> text::among(out@, head->Some_0)
                    },
                decreases usize::MAX - out.len(),
            {
                let id = match cursor {
                    None => break,
                    Some(id) => id,
                };
                let ghost before = out@;
                if !note(&mut out, id.as_str()) {
                    break;
                }
                proof {
                    assert(out@ =~= out@.drop_last().push(out@.last()));
                    assert(out@ == before.push(out@.last()));
                    assert(out@[before.len() as int]@ == id@);
                    assert forall|i: int, j: int| 0 <= i < j < out@.len() implies (
                    #[trigger] out@[i])@ != (#[trigger] out@[j])@ by {
                        assert(out@[i] == before[i]);
                        if j < before.len() {
                            assert(out@[j] == before[j]);
                        } else {
                            assert(text::among(before, before[i]@));
                        }
                    }
                    assert forall|s: Seq<char>| text::among(before, s) implies text::among(out@, s) by {
                        let i = choose|i: int| 0 <= i < before.len() && (#[trigger] before[i])@
                            == s;
                        assert(out@[i]@ == s);
                    }
                    assert(text::among(out@, id@));
                }
                let found = match self.get_checkpoint(id.as_str()) {
                    Err(e) => return Err(e),
                    Ok(found) => found,
                };
                let ghost stored = found is Some;
                cursor = parent_of(found);
                proof {
                    if old(self).exclusive() && stored {
                        assert(old(self).checkpoints()[id@].parent == text::text_of(cursor));
                        if cursor is Some {
                            parents_are_reachable(
                                old(self).computers(),
                                old(self).checkpoints(),
                                id@,
                                cursor->Some_0@,
                            );
                        }
                    }
                    if old(self).exclusive() {
                        let table = old(self).checkpoints();
                        assert forall|i: int|
                            0 <= i < out@.len() && table.contains_key((#[trigger] out@[i])@) implies {
                            let parent = table[out@[i]@].parent;
                            parent is None || parent == text::text_of(cursor) || text::among(
                                out@,
                                parent->Some_0,
                            )
                        } by {
                            if i < before.len() {
                                assert(out@[i] == before[i]);
                            }
                        }
                    }
                }
            }
            k += 1;
        }
        proof {
            if old(self).exclusive() {
                let table = old(self).checkpoints();
                assert forall|id: Seq<char>| text::among(out@, id) == reachable(
                    old(self).computers(),
                    table,
                    id,
                ) by {
                    if reachable(old(self).computers(), table, id) {
                        let (name, path) = choose|name: Seq<char>, path: Seq<Seq<char>>|
                            {
                                &&& #[trigger] old(self).computers().contains_key(name)
                                &&& #[trigger] is_path(table, path)
                                &&& old(self).computers()[name].head == Some(path[0])
                                &&& path.last() == id
                            };
                        let i = choose|i: int|
                            0 <= i < computers@.len() && (#[trigger] computers@[i]).name@ == name;
                        assert(old(self).computers()[name] == computers@[i].row());
                        assert(text::among(out@, path[0]));
                        lemma_path_stays(table, out@, path, path.len() - 1);
                    }
                }
            }
        }
        Ok(out)
    }

    /// Deletes checkpoints. Foreign keys are off for the batch, so a parent can
    /// go along with its unreachable children in any order.
    pub fn delete_checkpoints(&mut self, ids: &Vec<String>) -> (r: Result<(), StoreError>)
        ensures
            final(self).on_database_of(*old(self)),
            r matches Err(e) ==> e is Database,
            r is Ok && old(self).idle() ==> final(self).checked(),
            r matches Err(StoreError::Database(e)) ==> (old(self).idle() ==> !is_refusal(e)),
            old(self).exclusive() ==> {
                &&& final(self).computers() == old(self).computers()
                &&& deleted_in_order(old(self).checkpoints(), ids@, final(self).checkpoints())
                &&& r is Ok ==> final(self).checkpoints() == without(
                    old(self).checkpoints(),
                    ids@,
                )
            },
    {
        match set_pragma(&mut self.conn, "foreign_keys", "OFF") {
            Err(e) => {
                proof {
                    lemma_deleted_in_order(old(self).checkpoints(), ids@, 0);
                    assert(without(old(self).checkpoints(), ids@.take(0))
                        =~= old(self).checkpoints());
                }
                return Err(StoreError::Database(e));
            },
            Ok(_) => {},
        }
        proof {
            reveal_strlit("ON");
            reveal_strlit("OFF");
            assert("ON"@.len() != "OFF"@.len());
        }
        let result = self.delete_rows(ids);
        match set_pragma(&mut self.conn, "foreign_keys", "ON") {
            Err(e) => return Err(StoreError::Database(e)),
            Ok(_) => {},
        }
        match result {
            Err(e) => Err(StoreError::Database(e)),
            Ok(_) => Ok(()),
        }
    }

    /// Deletes rows one by one and stops at the first failure.
    fn delete_rows(&mut self, ids: &Vec<String>) -> (r: Result<(), rusqlite::Error>)
        ensures
            final(self).follows(*old(self)),
            ids@.len() == 0 ==> r is Ok,
            r matches Err(e) ==> (!old(self).checked() ==> !is_refusal(e)),
            r is Ok && ids@.len() > 0 ==> !final(self).checkpoints().contains_key(ids@.last()@),
            old(self).exclusive() ==> {
                &&& final(self).computers() == old(self).computers()
                &&& deleted_in_order(old(self).checkpoints(), ids@, final(self).checkpoints())
                &&& r is Ok ==> final(self).checkpoints() == without(
                    old(self).checkpoints(),
                    ids@,
                )
            },
    {
        let mut i: usize = 0;
        assert(without(self.checkpoints(), ids@.take(0)) =~= self.checkpoints());
        while i < ids.len()
            invariant
                i <= ids.len(),
                self.follows(*old(self)),
                i > 0 ==> !self.checkpoints().contains_key(ids@[i - 1]@),
                old(self).exclusive() ==> {
                    &&& self.computers() == old(self).computers()
                    &&& self.checkpoints() == without(old(self).checkpoints(), ids@.take(i as int))
                },
            decreases ids.len() - i,
        {
            proof {
                lemma_without_more(old(self).checkpoints(), ids@, i as int);
            }
            match delete_checkpoint_row(&mut self.conn, ids[i].as_str()) {
                Err(e) => {
                    proof {
                        if old(self).exclusive() {
                            lemma_deleted_in_order(old(self).checkpoints(), ids@, i as int);
                        }
                    }
                    return Err(e);
                },
                Ok(_) => {},
            }
            i += 1;
        }
        assert(ids@.take(ids@.len() as int) =~= ids@);
        proof {
            lemma_deleted_in_order(old(self).checkpoints(), ids@, ids@.len() as int);
        }
        Ok(())
    }
}

// ---------------------------------------------------------------------------
// Laws
// ---------------------------------------------------------------------------

/// A computer that was created is found again with the head and the time that
/// it was created with, as long as nothing else was done in between.
pub proof fn created_computer_is_found(
    before: Store,
    after: Store,
    later: Store,
    name: Seq<char>,
    row: ComputerRow,
    r: Result<Option<Computer>, StoreError>,
)
    requires
        before.exclusive(),
        after.exclusive(),
        computer_added(before, after, name, row),
        later.unchanged_since(after),
        computer_found(later, name, r),
    ensures
        r is Err || (r->Ok_0 is Some && r->Ok_0->Some_0.name@ == name && r->Ok_0->Some_0.row()
            == row),
{
}

/// A checkpoint that was added is found again as it was added.
pub proof fn added_checkpoint_is_found(
    before: Store,
    after: Store,
    later: Store,
    id: Seq<char>,
    row: CheckpointRow,
    r: Result<Option<Checkpoint>, StoreError>,
)
    requires
        before.exclusive(),
        after.exclusive(),
        checkpoint_added(before, after, id, row),
        later.unchanged_since(after),
        checkpoint_found(later, id, r),
    ensures
        r is Err || (r->Ok_0 is Some && r->Ok_0->Some_0.id@ == id && r->Ok_0->Some_0.row() == row),
{
}

/// After a head was moved, the name resolves to the checkpoint it was moved
/// to, where that checkpoint is there.
pub proof fn moved_head_resolves(
    before: Store,
    after: Store,
    name: Seq<char>,
    head: Seq<char>,
    r: Result<Checkpoint, StoreError>,
)
    requires
        before.exclusive(),
        after.exclusive(),
        head_moved(before, after, name, head),
        before.checkpoints().contains_key(head),
        !name.contains('@'),
        resolves(after, name, r),
    ensures
        r is Ok || r->Err_0 is Database,
        r matches Ok(cp) ==> cp.id@ == head && cp.row() == before.checkpoints()[head],
{
}

/// A computer has one history: two lines from the same head are the same.
pub proof fn one_history(
    table: Checkpoints,
    head: Option<Seq<char>>,
    a: Seq<Checkpoint>,
    b: Seq<Checkpoint>,
)
    requires
        is_line(table, head, a),
        is_line(table, head, b),
    ensures
        a.len() == b.len(),
        forall|i: int|
            0 <= i < a.len() ==> (#[trigger] a[i]).id@ == b[i].id@ && a[i].row() == b[i].row(),
{
    if a.len() <= b.len() {
        lemma_same_start(table, head, a, b, a.len() as int);
    } else {
        lemma_same_start(table, head, b, a, b.len() as int);
    }
}

proof fn lemma_same_start(
    table: Checkpoints,
    head: Option<Seq<char>>,
    a: Seq<Checkpoint>,
    b: Seq<Checkpoint>,
    n: int,
)
    requires
        is_line(table, head, a),
        is_line(table, head, b),
        0 <= n <= a.len() <= b.len(),
    ensures
        forall|i: int|
            0 <= i < n ==> (#[trigger] a[i]).id@ == b[i].id@ && a[i].row() == b[i].row(),
        n == a.len() ==> a.len() == b.len(),
    decreases n,
{
    if n > 0 {
        lemma_same_start(table, head, a, b, n - 1);
        assert(cursor_at(head, a, n - 1) == Some(a[n - 1].id@));
        assert(cursor_at(head, b, n - 1) == Some(b[n - 1].id@));
        if n > 1 {
            assert(a[n - 2].row() == b[n - 2].row());
        }
        assert(table.contains_pair(a[n - 1].id@, a[n - 1].row()));
        assert(table.contains_pair(b[n - 1].id@, b[n - 1].row()));
    }
    if n == a.len() && a.len() < b.len() {
        assert(cursor_at(head, a, n) == cursor_at(head, b, n)) by {
            if n > 0 {
                assert(a[n - 1].row() == b[n - 1].row());
            }
        }
        assert(cursor_at(head, b, n) == Some(b[n].id@));
        assert(table.contains_pair(b[n].id@, b[n].row()));
    }
}

proof fn lemma_path_reachable(
    computers: Computers,
    table: Checkpoints,
    name: Seq<char>,
    path: Seq<Seq<char>>,
    i: int,
)
    requires
        computers.contains_key(name),
        is_path(table, path),
        computers[name].head == Some(path[0]),
        0 <= i < path.len(),
    ensures
        reachable(computers, table, path[i]),
    decreases i,
{
    if i == 0 {
        lemma_head_reachable(computers, table, name, path[0]);
    } else {
        lemma_path_reachable(computers, table, name, path, i - 1);
        assert(table.contains_key(path[i - 1]));
        parents_are_reachable(computers, table, path[i - 1], path[i]);
    }
}

/// Pruning changes no reachability: a shared checkpoint survives because some
/// computer still leads to it.
pub proof fn pruning_keeps_reachability(computers: Computers, table: Checkpoints, id: Seq<char>)
    ensures
        reachable(computers, pruned(computers, table), id) == reachable(computers, table, id),
{
    let rest = pruned(computers, table);
    if reachable(computers, rest, id) {
        let (name, path) = choose|name: Seq<char>, path: Seq<Seq<char>>|
            {
                &&& #[trigger] computers.contains_key(name)
                &&& #[trigger] is_path(rest, path)
                &&& computers[name].head == Some(path[0])
                &&& path.last() == id
            };
        assert(computers.contains_key(name) && is_path(table, path)) by {
            assert forall|i: int| 0 <= i < path.len() - 1 implies table.contains_key(
                #[trigger] path[i],
            ) && table[path[i]].parent == Some(path[i + 1]) by {
                assert(rest.contains_key(path[i]));
            }
        }
    }
    if reachable(computers, table, id) {
        let (name, path) = choose|name: Seq<char>, path: Seq<Seq<char>>|
            {
                &&& #[trigger] computers.contains_key(name)
                &&& #[trigger] is_path(table, path)
                &&& computers[name].head == Some(path[0])
                &&& path.last() == id
            };
        assert(computers.contains_key(name) && is_path(rest, path)) by {
            assert forall|i: int| 0 <= i < path.len() - 1 implies rest.contains_key(
                #[trigger] path[i],
            ) && rest[path[i]].parent == Some(path[i + 1]) by {
                assert(table.contains_key(path[i]));
                lemma_path_reachable(computers, table, name, path, i);
            }
        }
    }
}

/// After pruning, every checkpoint is one that some computer leads to, so
/// pruning again finds nothing.
pub proof fn pruning_is_thorough(computers: Computers, table: Checkpoints)
    ensures
        forall|id: Seq<char>| #[trigger]
            pruned(computers, table).contains_key(id) ==> reachable(
                computers,
                pruned(computers, table),
                id,
            ),
        pruned(computers, pruned(computers, table)) == pruned(computers, table),
{
    let rest = pruned(computers, table);
    assert forall|id: Seq<char>| #[trigger] rest.contains_key(id) implies reachable(
        computers,
        rest,
        id,
    ) by {
        pruning_keeps_reachability(computers, table, id);
    }
    assert(pruned(computers, rest) =~= rest);
}

/// Pruning leaves the history of every computer as it is.
pub proof fn pruning_keeps_history(
    computers: Computers,
    table: Checkpoints,
    name: Seq<char>,
    list: Seq<Checkpoint>,
)
    requires
        computers.contains_key(name),
        is_line(table, computers[name].head, list),
    ensures
        is_line(pruned(computers, table), computers[name].head, list),
{
    let head = computers[name].head;
    assert forall|i: int| 0 <= i < list.len() implies pruned(computers, table).contains_pair(
        (#[trigger] list[i]).id@,
        list[i].row(),
    ) by {
        lemma_line_reachable(computers, table, name, list, i);
        assert(table.contains_pair(list[i].id@, list[i].row()));
    }
}

proof fn lemma_line_reachable(
    computers: Computers,
    table: Checkpoints,
    name: Seq<char>,
    list: Seq<Checkpoint>,
    i: int,
)
    requires
        computers.contains_key(name),
        is_line(table, computers[name].head, list),
        0 <= i < list.len(),
    ensures
        reachable(computers, table, list[i].id@),
    decreases i,
{
    assert(cursor_at(computers[name].head, list, i) == Some(list[i].id@));
    if i == 0 {
        lemma_head_reachable(computers, table, name, list[0].id@);
    } else {
        lemma_line_reachable(computers, table, name, list, i - 1);
        assert(table.contains_pair(list[i - 1].id@, list[i - 1].row()));
        parents_are_reachable(computers, table, list[i - 1].id@, list[i].id@);
    }
}

/// Deleting checkpoints that no computer leads to, and all of them, is
/// pruning.
pub proof fn deleting_the_unreachable_prunes(
    computers: Computers,
    table: Checkpoints,
    ids: Seq<String>,
)
    requires
        forall|id: Seq<char>|
            table.contains_key(id) ==> (#[trigger] text::among(ids, id) == !reachable(
                computers,
                table,
                id,
            )),
    ensures
        without(table, ids) == pruned(computers, table),
{
    assert(without(table, ids) =~= pruned(computers, table)) by {
        assert forall|id: Seq<char>| without(table, ids).contains_key(id) == pruned(
            computers,
            table,
        ).contains_key(id) by {
            if table.contains_key(id) {
                assert(text::among(ids, id) == !reachable(computers, table, id));
            }
        }
    }
}

proof fn lemma_hex_digits(n: nat, len: nat)
    requires
        n < vstd::arithmetic::power::pow(16, len),
        len > 0,
    ensures
        1 <= number::hexadecimal(n).len() <= len,
        forall|i: int|
            0 <= i < number::hexadecimal(n).len() ==> is_hex_digit(#[trigger] number::hexadecimal(n)[i]),
    decreases len,
{
    reveal(vstd::arithmetic::power::pow);
    if n >= 16 {
        assert(len > 1) by {
            if len == 1 {
                assert(vstd::arithmetic::power::pow(16, 1) == 16 * vstd::arithmetic::power::pow(
                    16,
                    0,
                ));
            }
        }
        assert(n / 16 < vstd::arithmetic::power::pow(16, (len - 1) as nat));
        lemma_hex_digits(n / 16, (len - 1) as nat);
        let front = number::hexadecimal(n / 16);
        assert forall|i: int| 0 <= i < number::hexadecimal(n).len() implies is_hex_digit(
            #[trigger] number::hexadecimal(n)[i],
        ) by {
            if i < front.len() {
                assert(number::hexadecimal(n)[i] == front[i]);
            }
        }
    }
}

/// One of `0` to `9` and `a` to `f`.
pub open spec fn is_hex_digit(c: char) -> bool {
    '0' <= c <= '9' || 'a' <= c <= 'f'
}

/// A checkpoint id has twelve to fourteen characters, all hexadecimal digits.
/// So it needs no quoting in a file name, and it never looks like a reference.
pub proof fn ids_are_short_and_plain(bits: u64)
    ensures
        12 <= id_text(bits).len() <= 14,
        forall|i: int| 0 <= i < id_text(bits).len() ==> is_hex_digit(#[trigger] id_text(bits)[i]),
{
    let n = (bits % 0x100_0000_0000_0000) as nat;
    assert(vstd::arithmetic::power::pow(16, 14) == 0x100_0000_0000_0000) by {
        reveal_with_fuel(vstd::arithmetic::power::pow, 15);
    }
    lemma_hex_digits(n, 14);
    let digits = number::hexadecimal(n);
    assert forall|i: int| 0 <= i < id_text(bits).len() implies is_hex_digit(
        #[trigger] id_text(bits)[i],
    ) by {
        if i >= 12 - digits.len() {
            let shift = if digits.len() < 12 {
                12 - digits.len()
            } else {
                0
            };
            assert(id_text(bits)[i] == digits[i - shift]);
        }
    }
}

/// Every head and every parent names a checkpoint that is there.
pub open spec fn references_hold(computers: Computers, table: Checkpoints) -> bool {
    &&& forall|name: Seq<char>| #[trigger]
        computers.contains_key(name) ==> (computers[name].head matches Some(h)
            ==> table.contains_key(h))
    &&& forall|id: Seq<char>| #[trigger]
        table.contains_key(id) ==> (table[id].parent matches Some(p) ==> table.contains_key(p))
}

/// A checkpoint with an id stands in a line.
pub open spec fn in_line(list: Seq<Checkpoint>, id: Seq<char>) -> bool {
    exists|i: int| 0 <= i < list.len() && (#[trigger] list[i]).id@ == id
}

/// A path from the head of a line runs along the line.
proof fn lemma_path_in_line(
    computers: Computers,
    table: Checkpoints,
    name: Seq<char>,
    list: Seq<Checkpoint>,
    path: Seq<Seq<char>>,
    n: int,
)
    requires
        references_hold(computers, table),
        computers.contains_key(name),
        is_line(table, computers[name].head, list),
        is_path(table, path),
        computers[name].head == Some(path[0]),
        0 <= n < path.len(),
    ensures
        n < list.len(),
        list[n].id@ == path[n],
    decreases n,
{
    let head = computers[name].head;
    if n > 0 {
        lemma_path_in_line(computers, table, name, list, path, n - 1);
        assert(table.contains_key(path[n - 1]));
        assert(table.contains_pair(list[n - 1].id@, list[n - 1].row()));
        assert(table[path[n - 1]].parent == Some(path[n - 1 + 1]));
    }
    assert(cursor_at(head, list, n) == Some(path[n]));
    assert(table.contains_key(path[n]));
    assert(n < list.len());
    assert(cursor_at(head, list, n) == Some(list[n].id@));
}

/// What is reachable is what the histories of all computers hold.
pub proof fn histories_hold_the_reachable(
    computers: Computers,
    table: Checkpoints,
    histories: Map<Seq<char>, Seq<Checkpoint>>,
    id: Seq<char>,
)
    requires
        references_hold(computers, table),
        forall|name: Seq<char>| #[trigger]
            computers.contains_key(name) ==> is_line(
                table,
                computers[name].head,
                histories[name],
            ),
    ensures
        reachable(computers, table, id) <==> exists|name: Seq<char>| #[trigger]
            computers.contains_key(name) && in_line(histories[name], id),
{
    if reachable(computers, table, id) {
        let (name, path) = choose|name: Seq<char>, path: Seq<Seq<char>>|
            {
                &&& #[trigger] computers.contains_key(name)
                &&& #[trigger] is_path(table, path)
                &&& computers[name].head == Some(path[0])
                &&& path.last() == id
            };
        let n = path.len() - 1;
        lemma_path_in_line(computers, table, name, histories[name], path, n);
        assert(histories[name][n].id@ == id);
        assert(computers.contains_key(name) && in_line(histories[name], id));
    }
    if exists|name: Seq<char>| #[trigger]
        computers.contains_key(name) && in_line(histories[name], id) {
        let name = choose|name: Seq<char>| #[trigger]
            computers.contains_key(name) && in_line(histories[name], id);
        let list = histories[name];
        let i = choose|i: int| 0 <= i < list.len() && (#[trigger] list[i]).id@ == id;
        lemma_line_reachable(computers, table, name, list, i);
    }
}

/// A name means the first checkpoint of its computer's history, and nothing
/// where the history is empty.
pub proof fn names_mean_the_newest(
    store: Store,
    name: Seq<char>,
    list: Seq<Checkpoint>,
    r: Result<Checkpoint, StoreError>,
)
    requires
        store.exclusive(),
        !name.contains('@'),
        store.computers().contains_key(name),
        is_line(store.checkpoints(), store.computers()[name].head, list),
        resolves(store, name, r),
    ensures
        r matches Ok(cp) ==> list.len() > 0 && cp.id@ == list[0].id@ && cp.row() == list[0].row(),
        r matches Err(e) ==> list.len() == 0 || e is Database,
{
    let head = store.computers()[name].head;
    if list.len() > 0 {
        assert(cursor_at(head, list, 0) == Some(list[0].id@));
        assert(store.checkpoints().contains_pair(list[0].id@, list[0].row()));
    } else {
        assert(cursor_at(head, list, 0) == head);
    }
}

/// `i` is where the newest checkpoint with a label stands in a line.
pub open spec fn newest_at(list: Seq<Checkpoint>, label: Seq<char>, i: int) -> bool {
    &&& 0 <= i < list.len()
    &&& list[i].row().label == Some(label)
    &&& forall|j: int| 0 <= j < i ==> (#[trigger] list[j]).row().label != Some(label)
}

/// A name with a label means the newest checkpoint with that label in its
/// computer's history, and nothing where there is none.
pub proof fn labels_mean_the_newest(
    store: Store,
    name: Seq<char>,
    label: Seq<char>,
    list: Seq<Checkpoint>,
    r: Result<Checkpoint, StoreError>,
)
    requires
        store.exclusive(),
        !name.contains('@'),
        store.computers().contains_key(name),
        is_line(store.checkpoints(), store.computers()[name].head, list),
        resolves(store, name + "@"@ + label, r),
    ensures
        r matches Ok(cp) ==> exists|i: int| #[trigger]
            newest_at(list, label, i) && cp.id@ == list[i].id@ && cp.row() == list[i].row(),
        r matches Err(e) ==> e is Database || forall|i: int|
            0 <= i < list.len() ==> (#[trigger] list[i]).row().label != Some(label),
{
    reveal_strlit("@");
    let reference = name + "@"@ + label;
    text::split_at_separator(name, label, '@');
    assert(reference =~= name + seq!['@'] + label);
    let table = store.checkpoints();
    let head = store.computers()[name].head;
    match r {
        Ok(cp) => {
            let other = choose|other: Seq<Checkpoint>| #[trigger]
                is_line(table, head, other) && newest_labeled(other, label, cp);
            one_history(table, head, list, other);
            let i = choose|i: int|
                {
                    &&& 0 <= i < other.len()
                    &&& #[trigger] other[i] == cp
                    &&& text::text_of(cp.label) == Some(label)
                    &&& forall|j: int|
                        0 <= j < i ==> text::text_of((#[trigger] other[j]).label) != Some(label)
                };
            assert(list[i].row() == other[i].row());
            assert forall|j: int| 0 <= j < i implies (#[trigger] list[j]).row().label != Some(
                label,
            ) by {
                assert(list[j].row() == other[j].row());
                assert(text::text_of(other[j].label) != Some(label));
            }
            assert(newest_at(list, label, i));
        },
        Err(StoreError::NoLabel { name: n, label: l }) => {
            let other = choose|other: Seq<Checkpoint>| #[trigger]
                is_line(table, head, other) && forall|i: int|
                    0 <= i < other.len() ==> text::text_of((#[trigger] other[i]).label) != Some(
                        l@,
                    );
            one_history(table, head, list, other);
            assert forall|i: int| 0 <= i < list.len() implies (#[trigger] list[i]).row().label
                != Some(label) by {
                assert(list[i].row() == other[i].row());
                assert(text::text_of(other[i].label) != Some(label));
            }
        },
        Err(_) => {},
    }
}

/// The listing and the lookup agree: a computer is listed exactly where it is
/// found, as it is found, and once.
pub proof fn listings_agree_with_lookups(
    store: Store,
    list: Seq<Computer>,
    name: Seq<char>,
    found: Option<Computer>,
)
    requires
        lists_computers(store.computers(), list),
        computer_found(store, name, Ok(found)),
    ensures
        found matches Some(c) ==> exists|i: int|
            0 <= i < list.len() && (#[trigger] list[i]).name@ == name && list[i].row() == c.row(),
        found is None ==> forall|i: int| 0 <= i < list.len() ==> (#[trigger] list[i]).name@ != name,
        forall|i: int, j: int|
            0 <= i < j < list.len() ==> (#[trigger] list[i]).name@ != (#[trigger] list[j]).name@,
{
    assert forall|i: int, j: int| 0 <= i < j < list.len() implies (#[trigger] list[i]).name@ != (
    #[trigger] list[j]).name@ by {
        assert(text::ordered_before(list[i].name@, list[j].name@));
    }
    if found is Some {
        let i = choose|i: int| 0 <= i < list.len() && (#[trigger] list[i]).name@ == name;
        assert(store.computers().contains_pair(list[i].name@, list[i].row()));
    }
}

/// The order in which checkpoints are deleted does not matter, nor how often
/// one is named: what is named is gone, and everything else is as it was.
pub proof fn deletions_commute(table: Checkpoints, a: Seq<String>, b: Seq<String>)
    requires
        forall|id: Seq<char>| #[trigger] text::among(a, id) <==> text::among(b, id),
    ensures
        without(table, a) == without(table, b),
        forall|id: Seq<char>| #[trigger]
            without(table, a).contains_key(id) <==> table.contains_key(id) && !text::among(a, id),
        forall|id: Seq<char>| #[trigger]
            without(table, a).contains_key(id) ==> without(table, a)[id] == table[id],
{
    assert(without(table, a) =~= without(table, b));
}

/// A history starts at the head, goes on from each checkpoint to its parent as
/// long as that is there, and shows every checkpoint as it is stored.
pub proof fn histories_follow_the_parents(
    table: Checkpoints,
    head: Option<Seq<char>>,
    list: Seq<Checkpoint>,
    i: int,
)
    requires
        is_line(table, head, list),
    ensures
        head is None ==> list.len() == 0,
        head matches Some(h) ==> {
            &&& table.contains_key(h) ==> list.len() > 0 && list[0].id@ == h
            &&& !table.contains_key(h) ==> list.len() == 0
        },
        0 <= i < list.len() ==> {
            &&& table.contains_key(list[i].id@)
            &&& table[list[i].id@].parent == text::text_of(list[i].parent_id)
            &&& table[list[i].id@].label == text::text_of(list[i].label)
            &&& table[list[i].id@].created_at == list[i].created_at
            &&& table[list[i].id@].image_path == list[i].image_path@
            &&& list[i].parent_id is None ==> i == list.len() - 1
            &&& list[i].parent_id matches Some(p) ==> {
                &&& table.contains_key(p@) ==> i < list.len() - 1 && list[i + 1].id@ == p@
                &&& !table.contains_key(p@) ==> i == list.len() - 1
            }
        },
{
    if list.len() > 0 {
        assert(cursor_at(head, list, 0) == Some(list[0].id@));
        assert(table.contains_pair(list[0].id@, list[0].row()));
    } else {
        assert(cursor_at(head, list, 0) == head);
    }
    if 0 <= i < list.len() {
        assert(table.contains_pair(list[i].id@, list[i].row()));
        assert(cursor_at(head, list, i + 1) == text::text_of(list[i].parent_id));
        if i < list.len() - 1 {
            assert(cursor_at(head, list, i + 1) == Some(list[i + 1].id@));
            assert(table.contains_pair(list[i + 1].id@, list[i + 1].row()));
        }
    }
}

/// What is reachable is the least that holds every head and, of what it holds,
/// every parent: heads are reachable, parents of the reachable are, and nothing
/// else is.
pub proof fn reachability_is_the_least(
    computers: Computers,
    table: Checkpoints,
    held: spec_fn(Seq<char>) -> bool,
    id: Seq<char>,
)
    requires
        forall|name: Seq<char>| #[trigger]
            computers.contains_key(name) ==> (computers[name].head matches Some(h) ==> held(h)),
        forall|x: Seq<char>| #[trigger]
            table.contains_key(x) && held(x) ==> (table[x].parent matches Some(p) ==> held(p)),
    ensures
        reachable(computers, table, id) ==> held(id),
        (exists|name: Seq<char>| #[trigger]
            computers.contains_key(name) && computers[name].head == Some(id)) ==> reachable(
            computers,
            table,
            id,
        ),
{
    if reachable(computers, table, id) {
        let (name, path) = choose|name: Seq<char>, path: Seq<Seq<char>>|
            {
                &&& #[trigger] computers.contains_key(name)
                &&& #[trigger] is_path(table, path)
                &&& computers[name].head == Some(path[0])
                &&& path.last() == id
            };
        lemma_held_along(table, held, path, path.len() - 1);
    }
    if exists|name: Seq<char>| #[trigger]
        computers.contains_key(name) && computers[name].head == Some(id) {
        let name = choose|name: Seq<char>| #[trigger]
            computers.contains_key(name) && computers[name].head == Some(id);
        lemma_head_reachable(computers, table, name, id);
    }
}

/// What holds a head and every parent holds all along a path.
proof fn lemma_held_along(
    table: Checkpoints,
    held: spec_fn(Seq<char>) -> bool,
    path: Seq<Seq<char>>,
    n: int,
)
    requires
        is_path(table, path),
        held(path[0]),
        forall|x: Seq<char>| #[trigger]
            table.contains_key(x) && held(x) ==> (table[x].parent matches Some(p) ==> held(p)),
        0 <= n < path.len(),
    ensures
        held(path[n]),
    decreases n,
{
    if n > 0 {
        lemma_held_along(table, held, path, n - 1);
        assert(table.contains_key(path[n - 1]));
        assert(table[path[n - 1]].parent == Some(path[n - 1 + 1]));
    }
}

/// Pruning keeps what some computer leads to, as it is, and nothing else.
pub proof fn pruning_keeps_the_reachable(computers: Computers, table: Checkpoints, id: Seq<char>)
    ensures
        pruned(computers, table).contains_key(id) <==> table.contains_key(id) && reachable(
            computers,
            table,
            id,
        ),
        pruned(computers, table).contains_key(id) ==> pruned(computers, table)[id] == table[id],
{
}

/// A reference without an at sign is a name; with one, what stands before the
/// first is the name and what stands behind it is the label.
pub proof fn references_are_names_and_labels(name: Seq<char>, label: Seq<char>)
    requires
        !name.contains('@'),
    ensures
        ref_parts(name) == (name, None::<Seq<char>>),
        ref_parts(name + seq!['@'] + label) == (name, Some(label)),
{
    assert forall|i: int| 0 <= i < name.len() implies name[i] != '@' by {
        assert(name.contains(name[i]));
    }
    text::split_at_separator(name, label, '@');
}

/// A reference fails for what is missing, and for nothing else: the computer,
/// its checkpoints, its head, or the label.
pub proof fn references_fail_for_what_is_missing(
    store: Store,
    name: Seq<char>,
    r: Result<Checkpoint, StoreError>,
)
    requires
        store.exclusive(),
        !name.contains('@'),
        resolves(store, name, r),
        r is Ok || !(r->Err_0 is Database),
    ensures
        ({
            let known = store.computers().contains_key(name);
            let head = store.computers()[name].head;
            &&& !known <==> (r matches Err(e) && e is NoSuchComputer)
            &&& known && head is None <==> (r matches Err(e) && e is NoCheckpoints)
            &&& known && head is Some && !store.checkpoints().contains_key(head->Some_0) <==> (
            r matches Err(e) && e is DanglingHead)
            &&& r matches Ok(cp) ==> head == Some(cp.id@) && store.checkpoints()[cp.id@] == cp.row()
        }),
{
}

/// A label means the first checkpoint of a line that has just that label.
pub proof fn labels_are_found_from_the_newest_on(
    list: Vec<Checkpoint>,
    label: &str,
    r: Option<Checkpoint>,
    i: int,
)
    requires
        call_ensures(find_label, (list, label), r),
        0 <= i <= list@.len(),
        forall|j: int|
            0 <= j < i ==> (#[trigger] list@[j]).label is None || list@[j].label->Some_0@ != label@,
    ensures
        i == list@.len() ==> r is None,
        i < list@.len() && list@[i].label is Some && list@[i].label->Some_0@ == label@ ==> r == Some(
            list@[i],
        ),
{
    if i < list@.len() && list@[i].label is Some && list@[i].label->Some_0@ == label@ {
        let own = list@[i];
        assert(text::text_of(own.label) == Some(label@));
        if r is None {
            assert(text::text_of(list@[i].label) != Some(label@));
        }
        let cp = r->Some_0;
        let k = choose|k: int|
            {
                &&& 0 <= k < list@.len()
                &&& #[trigger] list@[k] == cp
                &&& text::text_of(cp.label) == Some(label@)
                &&& forall|j: int|
                    0 <= j < k ==> text::text_of((#[trigger] list@[j]).label) != Some(label@)
            };
        assert(k == i) by {
            if k < i {
                assert(list@[k].label is None || list@[k].label->Some_0@ != label@);
            } else if i < k {
                assert(text::text_of(list@[i].label) != Some(label@));
            }
        }
    }
}

/// What a hexadecimal text stands for.
pub open spec fn hex_value(s: Seq<char>) -> nat
    decreases s.len(),
{
    if s.len() == 0 {
        0
    } else {
        hex_value(s.drop_last()) * 16 + (if s.last() <= '9' {
            (s.last() as nat - 48) as nat
        } else {
            (s.last() as nat - 87) as nat
        })
    }
}

/// A number written in base sixteen reads back as itself.
proof fn lemma_hex_reads_back(n: nat)
    ensures
        hex_value(number::hexadecimal(n)) == n,
    decreases n,
{
    let s = number::hexadecimal(n);
    reveal_with_fuel(hex_value, 2);
    if n >= 16 {
        lemma_hex_reads_back(n / 16);
        assert(s.drop_last() =~= number::hexadecimal(n / 16));
        assert(s.last() == number::digit_char(n % 16));
    } else {
        assert(s.drop_last() =~= Seq::empty());
        assert(s.last() == number::digit_char(n));
    }
}

/// Zeros in front count for nothing.
proof fn lemma_hex_zeros(count: int, s: Seq<char>)
    ensures
        hex_value(number::repeated('0', count) + s) == hex_value(s),
    decreases s.len(), (if count < 0 { 0 } else { count }),
{
    let t = number::repeated('0', count) + s;
    if s.len() > 0 {
        lemma_hex_zeros(count, s.drop_last());
        assert(t.drop_last() =~= number::repeated('0', count) + s.drop_last());
        assert(t.last() == s.last());
    } else if count > 0 {
        lemma_hex_zeros(count - 1, s);
        assert(t.drop_last() =~= number::repeated('0', count - 1) + s);
        assert(t.last() == '0');
    } else {
        assert(t =~= s);
    }
}

/// An id is written out of its bits: the low 56 of them can be read from it, so
/// that ids of different bits are different.
pub proof fn ids_tell_their_bits(a: u64, b: u64, id_a: String, id_b: String)
    requires
        call_ensures(checkpoint_id, (a,), id_a),
        call_ensures(checkpoint_id, (b,), id_b),
    ensures
        hex_value(id_a@) == a % 0x100_0000_0000_0000,
        12 <= id_a@.len() <= 14,
        id_a@ == id_b@ <==> a % 0x100_0000_0000_0000 == b % 0x100_0000_0000_0000,
{
    ids_are_short_and_plain(a);
    let n = (a % 0x100_0000_0000_0000) as nat;
    let m = (b % 0x100_0000_0000_0000) as nat;
    lemma_hex_reads_back(n);
    lemma_hex_reads_back(m);
    lemma_hex_zeros(12 - number::hexadecimal(n).len(), number::hexadecimal(n));
    lemma_hex_zeros(12 - number::hexadecimal(m).len(), number::hexadecimal(m));
}

/// A computer has to be there, to have a head, and to have that head in the
/// index; what is there is handed on as it is.
pub proof fn what_is_there_is_handed_on(
    c: Computer,
    id: String,
    cp: Checkpoint,
    name: &str,
    a: Result<Computer, StoreError>,
    b: Result<String, StoreError>,
    d: Result<Checkpoint, StoreError>,
)
    requires
        call_ensures(known, (Some(c), name), a),
        call_ensures(headed, (Some(id), name), b),
        call_ensures(placed, (Some(cp), name), d),
    ensures
        a == Ok::<Computer, StoreError>(c),
        b == Ok::<String, StoreError>(id),
        d == Ok::<Checkpoint, StoreError>(cp),
{
}

/// What is not there is told by its name.
pub proof fn what_is_missing_is_told(
    name: &str,
    a: Result<Computer, StoreError>,
    b: Result<String, StoreError>,
    d: Result<Checkpoint, StoreError>,
    next: Option<String>,
    moved_none: Result<(), StoreError>,
)
    requires
        call_ensures(known, (None, name), a),
        call_ensures(headed, (None, name), b),
        call_ensures(placed, (None, name), d),
        call_ensures(parent_of, (None,), next),
        call_ensures(moved, (0, name), moved_none),
    ensures
        a matches Err(e) && (e matches StoreError::NoSuchComputer(n) && n@ == name@),
        b matches Err(e) && (e matches StoreError::NoCheckpoints(n) && n@ == name@),
        d matches Err(e) && (e matches StoreError::DanglingHead(n) && n@ == name@),
        next is None,
        moved_none matches Err(e) && (e matches StoreError::NoSuchComputer(n) && n@ == name@),
{
}

/// A refusal names what it is about.
pub proof fn store_refusals_speak(
    name: String,
    label: String,
    missing: Option<String>,
    empty: Option<String>,
    dangling: Option<String>,
    unlabeled: Option<String>,
)
    requires
        call_ensures(StoreError::message, (&StoreError::NoSuchComputer(name),), missing),
        call_ensures(StoreError::message, (&StoreError::NoCheckpoints(name),), empty),
        call_ensures(StoreError::message, (&StoreError::DanglingHead(name),), dangling),
        call_ensures(StoreError::message, (&(StoreError::NoLabel { name, label }),), unlabeled),
    ensures
        missing matches Some(s) && s@ == "no such computer: "@ + name@,
        empty matches Some(s) && s@ == "computer '"@ + name@ + "' has no checkpoints yet"@,
        dangling matches Some(s) && s@ == "dangling head for '"@ + name@ + "'"@,
        unlabeled matches Some(s) && s@ == "no checkpoint labeled '"@ + label@ + "' in '"@ + name@
            + "'"@,
{
}

/// Looking up gives what is stored under the name or the id, and nothing where
/// nothing is; the row of what is found is the stored one, field by field.
pub proof fn lookups_give_what_is_stored(
    store: Store,
    name: Seq<char>,
    id: Seq<char>,
    c: Option<Computer>,
    cp: Option<Checkpoint>,
)
    requires
        computer_found(store, name, Ok(c)),
        checkpoint_found(store, id, Ok(cp)),
    ensures
        c is Some <==> store.computers().contains_key(name),
        cp is Some <==> store.checkpoints().contains_key(id),
        c matches Some(c) ==> {
            &&& c.name@ == name
            &&& text::text_of(c.head_id) == store.computers()[name].head
            &&& c.created_at == store.computers()[name].created_at
        },
        cp matches Some(cp) ==> {
            &&& cp.id@ == id
            &&& text::text_of(cp.parent_id) == store.checkpoints()[id].parent
            &&& text::text_of(cp.label) == store.checkpoints()[id].label
            &&& cp.created_at == store.checkpoints()[id].created_at
            &&& cp.image_path@ == store.checkpoints()[id].image_path
        },
{
}

/// Adding a computer, adding a checkpoint and moving a head change just that:
/// everything else in the store is as it was.
pub proof fn changes_touch_one_row(
    before: Store,
    after: Store,
    key: Seq<char>,
    computer: ComputerRow,
    checkpoint: CheckpointRow,
    head: Seq<char>,
    other: Seq<char>,
)
    requires
        before.exclusive(),
        other != key,
        computer_added(before, after, key, computer) || checkpoint_added(
            before,
            after,
            key,
            checkpoint,
        ) || head_moved(before, after, key, head),
    ensures
        after.computers().contains_key(other) == before.computers().contains_key(other),
        before.computers().contains_key(other) ==> after.computers()[other]
            == before.computers()[other],
        after.checkpoints().contains_key(other) == before.checkpoints().contains_key(other),
        before.checkpoints().contains_key(other) ==> after.checkpoints()[other]
            == before.checkpoints()[other],
        head_moved(before, after, key, head) ==> after.computers()[key].head == Some(head)
            && after.computers()[key].created_at == before.computers()[key].created_at,
{
}

/// A computer that was created is found again with its head and its time, and a
/// name that was never created is not; every other computer is as it was.
pub proof fn created_computers_are_read_back(
    s: &mut Store,
    later: &mut Store,
    name: &str,
    head_id: Option<&str>,
    created_at: i64,
    r: Result<Option<Computer>, StoreError>,
)
    requires
        s.exclusive(),
        call_ensures(Store::create_computer, (s, name, head_id, created_at), Ok(())),
        *later == *final(s),
        call_ensures(Store::get_computer, (later, name), r),
    ensures
        !old(s).computers().contains_key(name@),
        r matches Ok(found) ==> {
            &&& found is Some
            &&& found->Some_0.name@ == name@
            &&& text::text_of(found->Some_0.head_id) == text::slice_of(head_id)
            &&& found->Some_0.created_at == created_at
        },
        r matches Err(e) ==> e is Database,
        final(s).checkpoints() == old(s).checkpoints(),
{
}

/// A checkpoint that was added is found again with all that was said of it, and
/// no computer changes.
pub proof fn added_checkpoints_are_read_back(
    s: &mut Store,
    later: &mut Store,
    id: &str,
    parent_id: Option<&str>,
    label: Option<&str>,
    image_path: &str,
    created_at: i64,
    r: Result<Option<Checkpoint>, StoreError>,
)
    requires
        s.exclusive(),
        call_ensures(
            Store::add_checkpoint,
            (s, id, parent_id, label, image_path, created_at),
            Ok(()),
        ),
        *later == *final(s),
        call_ensures(Store::get_checkpoint, (later, id), r),
    ensures
        !old(s).checkpoints().contains_key(id@),
        r matches Ok(found) ==> {
            &&& found is Some
            &&& found->Some_0.id@ == id@
            &&& text::text_of(found->Some_0.parent_id) == text::slice_of(parent_id)
            &&& text::text_of(found->Some_0.label) == text::slice_of(label)
            &&& found->Some_0.image_path@ == image_path@
            &&& found->Some_0.created_at == created_at
        },
        r matches Err(e) ==> e is Database,
        final(s).computers() == old(s).computers(),
{
}

/// A head that was moved is read back, with the computer's own time; no other
/// computer and no checkpoint changes. A computer that is not there has no head
/// to move, and nothing changes.
pub proof fn moved_heads_are_read_back(
    s: &mut Store,
    later: &mut Store,
    name: &str,
    head_id: &str,
    moved: Result<(), StoreError>,
    r: Result<Option<Computer>, StoreError>,
    other: Seq<char>,
)
    requires
        s.exclusive(),
        call_ensures(Store::set_head, (s, name, head_id), moved),
        *later == *final(s),
        call_ensures(Store::get_computer, (later, name), r),
    ensures
        final(s).checkpoints() == old(s).checkpoints(),
        other != name@ ==> final(s).computers().contains_key(other)
            == old(s).computers().contains_key(other) && final(s).computers()[other]
            == old(s).computers()[other],
        moved is Ok ==> old(s).computers().contains_key(name@) && (r matches Ok(found) ==> {
            &&& found is Some
            &&& text::text_of(found->Some_0.head_id) == Some(head_id@)
            &&& found->Some_0.created_at == old(s).computers()[name@].created_at
        }),
        moved matches Err(e) ==> final(s).computers() == old(s).computers() && (e is Database || (
        e matches StoreError::NoSuchComputer(n) && n@ == name@
            && !old(s).computers().contains_key(name@))),
{
}

/// A computer that was removed is not found, whether it was there is said, and
/// nothing else is gone: no other computer, and no checkpoint.
pub proof fn removed_computers_are_gone(
    s: &mut Store,
    later: &mut Store,
    name: &str,
    removed: Result<bool, StoreError>,
    r: Result<Option<Computer>, StoreError>,
    other: Seq<char>,
)
    requires
        s.exclusive(),
        call_ensures(Store::delete_computer, (s, name), removed),
        *later == *final(s),
        call_ensures(Store::get_computer, (later, name), r),
    ensures
        removed matches Ok(was_there) ==> {
            &&& was_there <==> old(s).computers().contains_key(name@)
            &&& r matches Ok(found) ==> found is None
        },
        removed is Err ==> removed->Err_0 is Database && final(s).computers() == old(s).computers(),
        other != name@ ==> final(s).computers().contains_key(other)
            == old(s).computers().contains_key(other),
        other != name@ && old(s).computers().contains_key(other) ==> final(s).computers()[other]
            == old(s).computers()[other],
        final(s).checkpoints() == old(s).checkpoints(),
{
}

/// Checkpoints that were deleted are not found, and every other one is, as it
/// was; no computer changes.
pub proof fn deleted_checkpoints_are_gone(
    s: &mut Store,
    later: &mut Store,
    ids: &Vec<String>,
    id: &str,
    r: Result<Option<Checkpoint>, StoreError>,
)
    requires
        s.exclusive(),
        call_ensures(Store::delete_checkpoints, (s, ids), Ok(())),
        *later == *final(s),
        call_ensures(Store::get_checkpoint, (later, id), r),
    ensures
        final(s).computers() == old(s).computers(),
        ({
            let named = exists|i: int| 0 <= i < ids@.len() && (#[trigger] ids@[i])@ == id@;
            r matches Ok(found) ==> {
                &&& found is Some <==> old(s).checkpoints().contains_key(id@) && !named
                &&& found matches Some(cp) ==> cp.row() == old(s).checkpoints()[id@]
            }
        }),
{
}

/// Reading changes nothing: whatever is looked up, listed, followed or resolved,
/// the store is as it was.
pub proof fn reading_changes_nothing(
    s: &mut Store,
    name: &str,
    a: Result<Option<Computer>, StoreError>,
    b: Result<Vec<Computer>, StoreError>,
    c: Result<Option<Checkpoint>, StoreError>,
    d: Result<Vec<Checkpoint>, StoreError>,
    e: Result<Vec<Checkpoint>, StoreError>,
    f: Result<Checkpoint, StoreError>,
    g: Result<Vec<String>, StoreError>,
)
    requires
        s.exclusive(),
        call_ensures(Store::get_computer, (s, name), a) || call_ensures(
            Store::list_computers,
            (s,),
            b,
        ) || call_ensures(Store::get_checkpoint, (s, name), c) || call_ensures(
            Store::all_checkpoints,
            (s,),
            d,
        ) || call_ensures(Store::history, (s, name), e) || call_ensures(
            Store::resolve_ref,
            (s, name),
            f,
        ) || call_ensures(Store::reachable_checkpoints, (s,), g),
    ensures
        final(s).computers() == old(s).computers(),
        final(s).checkpoints() == old(s).checkpoints(),
{
}

/// A history is read from the head on: it starts there, goes on from each
/// checkpoint to its parent as long as that is there, and is refused only for a
/// computer that is not there.
pub proof fn histories_are_read_from_the_head(
    s: &mut Store,
    name: &str,
    r: Result<Vec<Checkpoint>, StoreError>,
    i: int,
)
    requires
        s.exclusive(),
        call_ensures(Store::history, (s, name), r),
    ensures
        r matches Err(e) ==> e is Database || (e matches StoreError::NoSuchComputer(n) && n@
            == name@ && !old(s).computers().contains_key(name@)),
        r matches Ok(list) ==> {
            let table = old(s).checkpoints();
            let head = old(s).computers()[name@].head;
            &&& old(s).computers().contains_key(name@)
            &&& list@.len() > 0 <==> head is Some && table.contains_key(head->Some_0)
            &&& list@.len() > 0 ==> list@[0].id@ == head->Some_0
            &&& 0 <= i < list@.len() ==> {
                let parent = list@[i].parent_id;
                &&& table.contains_key(list@[i].id@)
                &&& list@[i].row() == table[list@[i].id@]
                &&& i + 1 < list@.len() <==> parent is Some && table.contains_key(parent->Some_0@)
                &&& i + 1 < list@.len() ==> list@[i + 1].id@ == parent->Some_0@
            }
        },
{
    if r is Ok {
        let list = r->Ok_0@;
        let head = old(s).computers()[name@].head;
        histories_follow_the_parents(old(s).checkpoints(), head, list, i);
    }
}

/// A name resolves to the head of its computer, and a name with a label to the
/// newest checkpoint of its history with just that label.
pub proof fn references_are_resolved(
    s: &mut Store,
    t: &mut Store,
    name: &str,
    reference: &str,
    label: Seq<char>,
    list: Vec<Checkpoint>,
    plain: Result<Checkpoint, StoreError>,
    labeled: Result<Checkpoint, StoreError>,
    i: int,
)
    requires
        s.exclusive(),
        *t == *s,
        !name@.contains('@'),
        reference@ == name@ + "@"@ + label,
        s.computers().contains_key(name@),
        is_line(s.checkpoints(), s.computers()[name@].head, list@),
        call_ensures(Store::resolve_ref, (s, name), plain),
        call_ensures(Store::resolve_ref, (t, reference), labeled),
        0 <= i <= list@.len(),
        forall|j: int| 0 <= j < i ==> text::text_of((#[trigger] list@[j]).label) != Some(label),
    ensures
        plain matches Ok(cp) ==> list@.len() > 0 && cp.id@ == list@[0].id@ && cp.row()
            == list@[0].row(),
        plain matches Err(e) ==> list@.len() == 0 || e is Database,
        i == list@.len() ==> labeled is Err,
        i < list@.len() && text::text_of(list@[i].label) == Some(label) ==> {
            &&& labeled matches Ok(cp) ==> cp.id@ == list@[i].id@ && cp.row() == list@[i].row()
            &&& labeled matches Err(e) ==> e is Database
        },
{
    names_mean_the_newest(*old(s), name@, list@, plain);
    labels_mean_the_newest(*old(t), name@, label, list@, labeled);
    assert forall|j: int| 0 <= j < i implies (#[trigger] list@[j]).row().label != Some(label) by {
        assert(text::text_of(list@[j].label) != Some(label));
    }
    if i < list@.len() && text::text_of(list@[i].label) == Some(label) {
        assert(list@[i].row().label == Some(label));
        if labeled is Ok {
            let cp = labeled->Ok_0;
            let k = choose|k: int| #[trigger]
                newest_at(list@, label, k) && cp.id@ == list@[k].id@ && cp.row() == list@[k].row();
            assert(k == i) by {
                if i < k {
                    assert(list@[i].row().label != Some(label));
                }
            }
        }
    }
    if labeled is Ok {
        let cp = labeled->Ok_0;
        let k = choose|k: int| #[trigger]
            newest_at(list@, label, k) && cp.id@ == list@[k].id@ && cp.row() == list@[k].row();
        assert(list@[k].row().label == Some(label));
    }
}

/// What is reached is every head, every parent of what is reached, and nothing
/// that a set with all of those can do without; and each is named once.
pub proof fn reached_checkpoints_are_heads_and_parents(
    s: &mut Store,
    ids: Vec<String>,
    held: spec_fn(Seq<char>) -> bool,
    name: Seq<char>,
    i: int,
    j: int,
)
    requires
        s.exclusive(),
        call_ensures(Store::reachable_checkpoints, (s,), Ok(ids)),
        forall|name: Seq<char>| #[trigger]
            s.computers().contains_key(name) ==> (s.computers()[name].head matches Some(h) ==> held(
                h,
            )),
        forall|x: Seq<char>| #[trigger]
            s.checkpoints().contains_key(x) && held(x) ==> (s.checkpoints()[x].parent matches Some(
                p,
            ) ==> held(p)),
        0 <= i < ids@.len(),
    ensures
        held(ids@[i]@),
        old(s).computers().contains_key(name) && old(s).computers()[name].head is Some
            ==> text::among(ids@, old(s).computers()[name].head->Some_0),
        old(s).checkpoints().contains_key(ids@[i]@) && old(s).checkpoints()[ids@[i]@].parent is Some
            ==> text::among(ids@, old(s).checkpoints()[ids@[i]@].parent->Some_0),
        i < j < ids@.len() ==> ids@[i]@ != ids@[j]@,
{
    let computers = old(s).computers();
    let table = old(s).checkpoints();
    assert(text::among(ids@, ids@[i]@));
    reachability_is_the_least(computers, table, held, ids@[i]@);
    if computers.contains_key(name) && computers[name].head is Some {
        let h = computers[name].head->Some_0;
        lemma_head_reachable(computers, table, name, h);
        assert(text::among(ids@, h) == reachable(computers, table, h));
    }
    if table.contains_key(ids@[i]@) && table[ids@[i]@].parent is Some {
        let p = table[ids@[i]@].parent->Some_0;
        parents_are_reachable(computers, table, ids@[i]@, p);
        assert(text::among(ids@, p) == reachable(computers, table, p));
    }
}

/// A listing shows every computer once, as it is stored, in the order of their
/// names.
pub proof fn listings_show_every_computer(s: &mut Store, list: Vec<Computer>, name: Seq<char>)
    requires
        call_ensures(Store::list_computers, (s,), Ok(list)),
    ensures
        final(s).computers().contains_key(name) <==> exists|i: int|
            0 <= i < list@.len() && (#[trigger] list@[i]).name@ == name,
        forall|i: int|
            0 <= i < list@.len() && (#[trigger] list@[i]).name@ == name ==> list@[i].row()
                == final(s).computers()[name],
        forall|i: int, j: int|
            0 <= i < j < list@.len() ==> text::ordered_before(
                (#[trigger] list@[i]).name@,
                (#[trigger] list@[j]).name@,
            ),
{
    let table = final(s).computers();
    assert(lists_computers(table, list@));
    assert forall|i: int| 0 <= i < list@.len() && (#[trigger] list@[i]).name@ == name implies list@[i].row()
        == table[name] by {
        assert(table.contains_pair(list@[i].name@, list@[i].row()));
    }
}

/// All checkpoints are listed, once each, as they are stored.
pub proof fn all_checkpoints_are_listed(s: &mut Store, list: Vec<Checkpoint>, id: Seq<char>)
    requires
        call_ensures(Store::all_checkpoints, (s,), Ok(list)),
    ensures
        final(s).checkpoints().contains_key(id) <==> exists|i: int|
            0 <= i < list@.len() && (#[trigger] list@[i]).id@ == id,
        forall|i: int|
            0 <= i < list@.len() && (#[trigger] list@[i]).id@ == id ==> list@[i].row()
                == final(s).checkpoints()[id],
{
    let table = final(s).checkpoints();
    assert(lists_checkpoints(table, list@));
    assert forall|i: int| 0 <= i < list@.len() && (#[trigger] list@[i]).id@ == id implies list@[i].row()
        == table[id] by {
        assert(table.contains_pair(list@[i].id@, list@[i].row()));
    }
}

/// An id is noted once: it is new the first time, and never again.
pub proof fn ids_are_noted_once(
    seen: &mut Vec<String>,
    later: &mut Vec<String>,
    id: &str,
    first: bool,
    second: bool,
)
    requires
        call_ensures(note, (seen, id), first),
        *later == *final(seen),
        call_ensures(note, (later, id), second),
    ensures
        first <==> forall|i: int| 0 <= i < old(seen)@.len() ==> (#[trigger] old(seen)@[i])@ != id@,
        !second,
        old(seen)@.is_prefix_of(final(seen)@),
{
    let before = old(seen)@;
    let after = final(seen)@;
    if first {
        assert(after.last()@ == id@);
        assert(after[after.len() - 1]@ == id@);
        assert(text::among(after, id@));
        assert(after.drop_last() =~= after.subrange(0, before.len() as int));
        assert forall|i: int| 0 <= i < before.len() implies (#[trigger] before[i])@ != id@ by {
            if before[i]@ == id@ {
                assert(text::among(before, id@));
            }
        }
    } else {
        assert(before.subrange(0, before.len() as int) =~= before);
        let i = choose|i: int| 0 <= i < before.len() && (#[trigger] before[i])@ == id@;
        assert(before[i]@ == id@);
    }
}

/// A step adds what was found and goes on to its parent; nothing ends the line.
pub proof fn steps_go_on_to_the_parent(
    out: &mut Vec<Checkpoint>,
    found: Option<Checkpoint>,
    next: Option<String>,
)
    requires
        call_ensures(step, (out, found), next),
    ensures
        found is None ==> next is None && final(out)@ == old(out)@,
        found matches Some(cp) ==> final(out)@ == old(out)@.push(cp) && text::text_of(next)
            == text::text_of(cp.parent_id),
{
}

/// A store that was opened is the one at the path, with its tables, and it
/// refuses references to what is not there; one in memory starts empty.
pub proof fn stores_are_opened_ready(
    path: &str,
    s: Store,
    memory: Store,
    name: Seq<char>,
)
    requires
        call_ensures(Store::open, (path,), Ok(s)),
        call_ensures(Store::in_memory, (), Ok(memory)),
    ensures
        s.path() == path@,
        s.ready() && s.checked() && s.idle() && s.journaled(),
        memory.exclusive() && memory.ready() && memory.idle(),
        !memory.computers().contains_key(name),
        !memory.checkpoints().contains_key(name),
{
}

/// The rows that a change touched tell what happened: some were moved or
/// removed, or none was there. A checkpoint that was found leads to its parent.
pub proof fn rows_tell_what_happened(
    rows: usize,
    name: &str,
    cp: Checkpoint,
    head: Result<(), StoreError>,
    gone: bool,
    next: Option<String>,
)
    requires
        call_ensures(moved, (rows, name), head),
        call_ensures(removed, (rows,), gone),
        call_ensures(parent_of, (Some(cp),), next),
    ensures
        head is Ok <==> rows > 0,
        gone <==> rows > 0,
        next == cp.parent_id,
{
}

/// A name with a label fails for what is missing: the computer, or the label,
/// each by its own name.
pub proof fn labels_fail_for_what_is_missing(
    store: Store,
    name: Seq<char>,
    label: Seq<char>,
    e: StoreError,
)
    requires
        store.exclusive(),
        !name.contains('@'),
        resolves(store, name + "@"@ + label, Err(e)),
        !(e is Database),
    ensures
        store.computers().contains_key(name) ==> (e matches StoreError::NoLabel { name: n, label: l }
            && n@ == name && l@ == label),
        !store.computers().contains_key(name) ==> (e matches StoreError::NoSuchComputer(n) && n@
            == name),
{
    reveal_strlit("@");
    assert(name + "@"@ + label =~= name + seq!['@'] + label);
    references_are_names_and_labels(name, label);
}

/// An addition that is refused changes nothing.
pub proof fn refused_additions_change_nothing(
    s: &mut Store,
    name: &str,
    head: Option<&str>,
    label: Option<&str>,
    at: i64,
    a: Result<(), StoreError>,
    b: Result<(), StoreError>,
)
    requires
        s.exclusive(),
        call_ensures(Store::create_computer, (s, name, head, at), a) && a is Err || call_ensures(
            Store::add_checkpoint,
            (s, name, head, label, name, at),
            b,
        ) && b is Err,
    ensures
        final(s).computers() == old(s).computers(),
        final(s).checkpoints() == old(s).checkpoints(),
{
}

/// Whatever becomes of a deletion, no computer changes, every checkpoint that
/// was not named is there as it was, and none appears.
pub proof fn deletions_spare_the_others(
    s: &mut Store,
    ids: &Vec<String>,
    r: Result<(), StoreError>,
    id: Seq<char>,
)
    requires
        s.exclusive(),
        call_ensures(Store::delete_checkpoints, (s, ids), r),
    ensures
        final(s).computers() == old(s).computers(),
        final(s).checkpoints().contains_key(id) ==> old(s).checkpoints().contains_key(id)
            && final(s).checkpoints()[id] == old(s).checkpoints()[id],
        old(s).checkpoints().contains_key(id) && !text::among(ids@, id)
            ==> final(s).checkpoints().contains_key(id),
        r matches Err(e) ==> e is Database,
{
    let table = old(s).checkpoints();
    let k = choose|k: int|
        0 <= k <= ids@.len() && final(s).checkpoints() == without(table, #[trigger] ids@.take(k));
    if text::among(ids@.take(k), id) {
        let i = choose|i: int|
            0 <= i < ids@.take(k).len() && (#[trigger] ids@.take(k)[i])@ == id;
        assert(ids@[i]@ == id);
    }
}

} // verus!
