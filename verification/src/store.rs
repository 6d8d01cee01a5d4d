//! The database of a mission, and the statements that are run on it.
//!
//! Each function here runs one SQL statement. Its contract says over `tables_of` what the
//! statement reads or changes. When a statement fails, nothing is said of the database, but for
//! the one that makes an agent known, whose failure is passed over.

use crate::tables::{
    all_events_after, channels, cursor_of, event_data, events_after, last_event,
    lemma_filter_messages, lemma_sorted, lists, made_known, members_of, message_data,
    messages_after, no_tables, no_times, opt_num, rooms_of, sorted, text_set, well_formed, with_cursor, with_event,
    with_member, with_message, with_room, with_status, with_ts, without_member,
    without_members_of, without_messages_of, without_room, EventRow, MessageData, MessageRow,
    ProgressData, RoomData, Tables,
};
use crate::text::{any_part, chars_of, copy, has_part, opt_text, text_range, texts};
use rusqlite::OptionalExtension;
use vstd::prelude::*;

verus! {

/// `rusqlite::Connection`: an open database.
#[verifier::external_type_specification]
#[verifier::external_body]
pub struct ExConnection(rusqlite::Connection);

/// `rusqlite::Error`: why a statement failed.
#[verifier::external_type_specification]
#[verifier::external_body]
pub struct ExSqlError(rusqlite::Error);

/// What the database behind a connection holds. A table that is not there yet is empty and has
/// no columns, and a column that is not there yet holds nothing.
pub uninterp spec fn tables_of(conn: rusqlite::Connection) -> Tables;

/// The database is a mission's own: its tables are the ones that `create_tables` makes, with
/// or without the column that `add_ts` adds, with no trigger or view beside them, rows got into
/// them by the statements here alone, nobody but the holder of the connection writes to it, and
/// no transaction is open: each statement is one of its own.
pub uninterp spec fn own_database(conn: rusqlite::Connection) -> bool;

/// `Connection::open_in_memory`: a new database that nobody else can reach.
#[verifier::external_body]
fn open_in_memory() -> (r: Result<rusqlite::Connection, rusqlite::Error>)
    ensures
        r matches Ok(conn) ==> own_database(conn) && tables_of(conn) == no_tables(),
{
    rusqlite::Connection::open_in_memory()
}

/// `Connection::execute_batch` with the schema: tables that are missing are made, and what
/// is there is kept. Rows are numbered by `AUTOINCREMENT`, upwards from one.
#[verifier::external_body]
fn create_tables(conn: &mut rusqlite::Connection) -> (r: Result<(), rusqlite::Error>)
    ensures
        r is Ok && own_database(*old(conn)) ==> own_database(*final(conn)) && tables_of(
            *final(conn),
        ) == tables_of(*old(conn)) && well_formed(tables_of(*final(conn))),
{
    conn.execute_batch(
        "PRAGMA journal_mode=WAL;
         CREATE TABLE IF NOT EXISTS agents(
           id TEXT PRIMARY KEY, status TEXT NOT NULL DEFAULT 'active');
         CREATE TABLE IF NOT EXISTS rooms(
           name TEXT PRIMARY KEY, owner TEXT NOT NULL, type TEXT NOT NULL DEFAULT 'public');
         CREATE TABLE IF NOT EXISTS members(
           room TEXT NOT NULL, agent TEXT NOT NULL, PRIMARY KEY(room, agent));
         CREATE TABLE IF NOT EXISTS messages(
           seq INTEGER PRIMARY KEY AUTOINCREMENT,
           room_key TEXT NOT NULL, sender TEXT NOT NULL, text TEXT NOT NULL);
         CREATE INDEX IF NOT EXISTS idx_messages_room ON messages(room_key, seq);
         CREATE TABLE IF NOT EXISTS cursors(
           agent TEXT NOT NULL, room_key TEXT NOT NULL, seq INTEGER NOT NULL,
           PRIMARY KEY(agent, room_key));
         CREATE TABLE IF NOT EXISTS events(
           seq        INTEGER PRIMARY KEY AUTOINCREMENT,
           room_key   TEXT NOT NULL,
           agent      TEXT NOT NULL,
           kind       TEXT NOT NULL,
           task       TEXT,
           phase      TEXT,
           step_cur   INTEGER,
           step_total INTEGER,
           percent    INTEGER,
           target     TEXT,
           note       TEXT,
           ts         INTEGER NOT NULL);
         CREATE INDEX IF NOT EXISTS idx_events_room ON events(room_key, seq);",
    )
}

/// `Statement::exists`: whether the table of messages has the column `ts`.
#[verifier::external_body]
fn has_ts(conn: &rusqlite::Connection) -> (r: Result<bool, rusqlite::Error>)
    ensures
        r matches Ok(b) ==> own_database(*conn) ==> b == tables_of(*conn).has_ts,
{
    conn.prepare("SELECT 1 FROM pragma_table_info('messages') WHERE name='ts'")?.exists([])
}

/// `Connection::execute_batch` with an `ALTER TABLE`: the new column holds nothing in the
/// rows that are there. It fails where the column is there already.
#[verifier::external_body]
fn add_ts(conn: &mut rusqlite::Connection) -> (r: Result<(), rusqlite::Error>)
    ensures
        r is Ok && own_database(*old(conn)) ==> own_database(*final(conn)) && tables_of(
            *final(conn),
        ) == with_ts(tables_of(*old(conn))) && no_times(tables_of(*final(conn))),
{
    conn.execute_batch("ALTER TABLE messages ADD COLUMN ts INTEGER;")
}

/// Whether the column `ts` is to be added, going by the answer whether it is there: a question
/// that failed counts as answered with no.
pub fn lacks_ts(found: &Result<bool, rusqlite::Error>) -> (r: bool)
    ensures
        r == !(*found matches Ok(true)),
{
    match found {
        Ok(b) => !*b,
        Err(_) => true,
    }
}

/// `Connection::execute` with an `INSERT OR IGNORE`: a new agent starts with the default
/// status, and one that is known stays as it is. A statement that fails, outside of a
/// transaction, is rolled back: the database is as it was.
#[verifier::external_body]
fn insert_agent(conn: &mut rusqlite::Connection, agent: &str) -> (r: Result<
    usize,
    rusqlite::Error,
>)
    requires
        own_database(*old(conn)),
    ensures
        own_database(*final(conn)),
        tables_of(*final(conn)) == made_known(tables_of(*old(conn)), agent@, r is Ok),
{
    conn.execute("INSERT OR IGNORE INTO agents(id) VALUES(?1)", [agent])
}

/// `Connection::query_row` for an agent's status. It fails for an unknown agent.
#[verifier::external_body]
fn select_status(conn: &rusqlite::Connection, agent: &str) -> (r: Result<String, rusqlite::Error>)
    requires
        own_database(*conn),
    ensures
        r matches Ok(s) ==> tables_of(*conn).agents.contains_key(agent@) && s@ == tables_of(
            *conn,
        ).agents[agent@],
{
    conn.query_row("SELECT status FROM agents WHERE id=?1", [agent], |r| r.get(0))
}

/// `Connection::execute` with an `UPDATE` of one agent's status.
#[verifier::external_body]
fn update_status(conn: &mut rusqlite::Connection, agent: &str, status: &str) -> (r:
    Result<usize, rusqlite::Error>)
    requires
        own_database(*old(conn)),
    ensures
        r is Ok ==> own_database(*final(conn)) && tables_of(*final(conn)) == with_status(
            tables_of(*old(conn)),
            agent@,
            status@,
        ),
{
    conn.execute("UPDATE agents SET status=?1 WHERE id=?2", [status, agent])
}

/// `Statement::query_map` over all agents: every id once, in ascending order, each with its
/// status.
#[verifier::external_body]
fn select_agents(conn: &rusqlite::Connection) -> (r: Result<
    Vec<(String, String)>,
    rusqlite::Error,
>)
    requires
        own_database(*conn),
    ensures
        r matches Ok(v) ==> {
            &&& lists(Seq::new(v@.len(), |i: int| v@[i].0@), tables_of(*conn).agents.dom())
            &&& forall|i: int|
                0 <= i < v@.len() ==> tables_of(*conn).agents[(#[trigger] v@[i]).0@] == v@[i].1@
        },
{
    conn.prepare("SELECT id, status FROM agents ORDER BY id")?.query_map(
        [],
        |r| Ok((r.get(0)?, r.get(1)?)),
    )?.collect()
}

/// `Connection::query_row` for a room's owner; `None` where there is no such room.
#[verifier::external_body]
fn select_owner(conn: &rusqlite::Connection, room: &str) -> (r: Result<
    Option<String>,
    rusqlite::Error,
>)
    requires
        own_database(*conn),
    ensures
        r matches Ok(s) ==> opt_text(s) == (if tables_of(*conn).rooms.contains_key(room@) {
            Some(tables_of(*conn).rooms[room@].owner)
        } else {
            None
        }),
{
    conn.query_row("SELECT owner FROM rooms WHERE name=?1", [room], |r| r.get(0)).optional()
}

/// `Connection::execute` with an `INSERT` of a room. It fails where the name is taken.
#[verifier::external_body]
fn insert_room(
    conn: &mut rusqlite::Connection,
    name: &str,
    owner: &str,
    kind: &str,
) -> (r: Result<usize, rusqlite::Error>)
    requires
        own_database(*old(conn)),
    ensures
        r is Ok ==> own_database(*final(conn)) && tables_of(*final(conn)) == with_room(
            tables_of(*old(conn)),
            name@,
            RoomData { owner: owner@, kind: kind@ },
        ),
{
    conn.execute("INSERT INTO rooms(name, owner, type) VALUES(?1,?2,?3)", [name, owner, kind])
}

/// `Statement::query_map` over all rooms: every name once, in ascending order, each with its
/// owner and its type.
#[verifier::external_body]
fn select_rooms(conn: &rusqlite::Connection) -> (r: Result<
    Vec<(String, String, String)>,
    rusqlite::Error,
>)
    requires
        own_database(*conn),
    ensures
        r matches Ok(v) ==> {
            &&& lists(Seq::new(v@.len(), |i: int| v@[i].0@), tables_of(*conn).rooms.dom())
            &&& forall|i: int|
                0 <= i < v@.len() ==> tables_of(*conn).rooms[(#[trigger] v@[i]).0@] == (RoomData {
                    owner: v@[i].1@,
                    kind: v@[i].2@,
                })
        },
{
    conn.prepare("SELECT name, owner, type FROM rooms ORDER BY name")?.query_map(
        [],
        |r| Ok((r.get(0)?, r.get(1)?, r.get(2)?)),
    )?.collect()
}

/// `Connection::execute` with an `INSERT OR IGNORE` of a member.
#[verifier::external_body]
fn insert_member(conn: &mut rusqlite::Connection, room: &str, agent: &str) -> (r:
    Result<usize, rusqlite::Error>)
    requires
        own_database(*old(conn)),
    ensures
        r is Ok ==> own_database(*final(conn)) && tables_of(*final(conn)) == with_member(
            tables_of(*old(conn)),
            room@,
            agent@,
        ),
{
    conn.execute("INSERT OR IGNORE INTO members(room, agent) VALUES(?1,?2)", [room, agent])
}

/// `Connection::execute` with a `DELETE` of one member.
#[verifier::external_body]
fn delete_member(conn: &mut rusqlite::Connection, room: &str, agent: &str) -> (r:
    Result<usize, rusqlite::Error>)
    requires
        own_database(*old(conn)),
    ensures
        r is Ok ==> own_database(*final(conn)) && tables_of(*final(conn)) == without_member(
            tables_of(*old(conn)),
            room@,
            agent@,
        ),
{
    conn.execute("DELETE FROM members WHERE room=?1 AND agent=?2", [room, agent])
}

/// `Statement::exists` for one member of one room.
#[verifier::external_body]
fn has_member(conn: &rusqlite::Connection, room: &str, agent: &str) -> (r: Result<
    bool,
    rusqlite::Error,
>)
    requires
        own_database(*conn),
    ensures
        r matches Ok(b) ==> b == tables_of(*conn).members.contains((room@, agent@)),
{
    conn.prepare("SELECT 1 FROM members WHERE room=?1 AND agent=?2")?.exists([room, agent])
}

/// `Statement::query_map` over the members of a room: each once, in ascending order.
#[verifier::external_body]
fn select_members(conn: &rusqlite::Connection, room: &str) -> (r: Result<
    Vec<String>,
    rusqlite::Error,
>)
    requires
        own_database(*conn),
    ensures
        r matches Ok(v) ==> lists(texts(v@), members_of(tables_of(*conn), room@)),
{
    conn.prepare("SELECT agent FROM members WHERE room=?1 ORDER BY agent")?.query_map(
        [room],
        |r| r.get(0),
    )?.collect()
}

/// `Connection::execute` with a `DELETE` of one room's own row.
#[verifier::external_body]
fn delete_room(conn: &mut rusqlite::Connection, room: &str) -> (r: Result<
    usize,
    rusqlite::Error,
>)
    requires
        own_database(*old(conn)),
    ensures
        r is Ok ==> own_database(*final(conn)) && tables_of(*final(conn)) == without_room(
            tables_of(*old(conn)),
            room@,
        ),
{
    conn.execute("DELETE FROM rooms WHERE name=?1", [room])
}

/// `Connection::execute` with a `DELETE` of all members of one room.
#[verifier::external_body]
fn delete_members(conn: &mut rusqlite::Connection, room: &str) -> (r: Result<
    usize,
    rusqlite::Error,
>)
    requires
        own_database(*old(conn)),
    ensures
        r is Ok ==> own_database(*final(conn)) && tables_of(*final(conn)) == without_members_of(
            tables_of(*old(conn)),
            room@,
        ),
{
    conn.execute("DELETE FROM members WHERE room=?1", [room])
}

/// `Connection::execute` with a `DELETE` of all messages in one room. The numbers that they
/// had are not given out again.
#[verifier::external_body]
fn delete_messages(conn: &mut rusqlite::Connection, room: &str) -> (r: Result<
    usize,
    rusqlite::Error,
>)
    requires
        own_database(*old(conn)),
    ensures
        r is Ok ==> own_database(*final(conn)) && tables_of(*final(conn)) == without_messages_of(
            tables_of(*old(conn)),
            room@,
        ),
{
    conn.execute("DELETE FROM messages WHERE room_key=?1", [room])
}

/// `Statement::insert` of a message: it runs the statement and returns the row's number,
/// which is one above the highest that was ever given out.
#[verifier::external_body]
fn insert_message(
    conn: &mut rusqlite::Connection,
    room: &str,
    from: &str,
    text: &str,
    ts: i64,
) -> (r: Result<i64, rusqlite::Error>)
    requires
        own_database(*old(conn)),
    ensures
        r matches Ok(seq) ==> {
            &&& own_database(*final(conn))
            &&& tables_of(*final(conn)) == with_message(
                tables_of(*old(conn)),
                room@,
                from@,
                text@,
                ts as int,
            )
            &&& seq == tables_of(*final(conn)).message_high
        },
{
    conn.prepare("INSERT INTO messages(room_key, sender, text, ts) VALUES(?1,?2,?3,?4)")?.insert(
        (room, from, text, ts),
    )
}

/// `Statement::query_map` over the messages of some rooms behind a number, in the order of
/// their numbers.
#[verifier::external_body]
fn select_messages(conn: &rusqlite::Connection, keys: &[String], since: i64) -> (r:
    Result<Vec<MessageRow>, rusqlite::Error>)
    requires
        own_database(*conn),
    ensures
        r matches Ok(v) ==> message_data(v@) == messages_after(
            tables_of(*conn).messages,
            text_set(keys@),
            since as int,
        ),
{
    let marks = vec!["?"; keys.len()].join(",");
    let sql = format!(
        "SELECT seq, room_key, sender, text, ts FROM messages \
         WHERE room_key IN ({marks}) AND seq>? ORDER BY seq"
    );
    let keys = keys.iter().map(|k| k as &dyn rusqlite::ToSql);
    let params = keys.chain([&since as &dyn rusqlite::ToSql]);
    conn.prepare(&sql)?.query_map(rusqlite::params_from_iter(params), |r| {
        Ok(MessageRow {
            seq: r.get(0)?, room: r.get(1)?, from: r.get(2)?, text: r.get(3)?, ts: r.get(4)?,
        })
    })?.collect()
}

/// `Connection::query_row` for a read cursor; `None` where the agent has read nothing there.
#[verifier::external_body]
fn select_cursor(conn: &rusqlite::Connection, agent: &str, room: &str) -> (r: Result<
    Option<i64>,
    rusqlite::Error,
>)
    requires
        own_database(*conn),
    ensures
        r matches Ok(n) ==> match n {
            Some(n) => tables_of(*conn).cursors.contains_key((agent@, room@)) && tables_of(
                *conn,
            ).cursors[(agent@, room@)] == n,
            None => !tables_of(*conn).cursors.contains_key((agent@, room@)),
        },
{
    conn.query_row(
        "SELECT seq FROM cursors WHERE agent=?1 AND room_key=?2",
        [agent, room],
        |r| r.get(0),
    ).optional()
}

/// `Connection::execute` with an upsert of a read cursor.
#[verifier::external_body]
fn upsert_cursor(
    conn: &mut rusqlite::Connection,
    agent: &str,
    room: &str,
    seq: i64,
) -> (r: Result<usize, rusqlite::Error>)
    requires
        own_database(*old(conn)),
    ensures
        r is Ok ==> own_database(*final(conn)) && tables_of(*final(conn)) == with_cursor(
            tables_of(*old(conn)),
            agent@,
            room@,
            seq as int,
        ),
{
    conn.execute(
        "INSERT INTO cursors(agent, room_key, seq) VALUES(?1,?2,?3)
         ON CONFLICT(agent, room_key) DO UPDATE SET seq=excluded.seq",
        (agent, room, seq),
    )
}

/// `Statement::query_map` over the rooms that an agent is a member of: each once, in
/// ascending order.
#[verifier::external_body]
fn select_rooms_of(conn: &rusqlite::Connection, agent: &str) -> (r: Result<
    Vec<String>,
    rusqlite::Error,
>)
    requires
        own_database(*conn),
    ensures
        r matches Ok(v) ==> lists(texts(v@), rooms_of(tables_of(*conn), agent@)),
{
    conn.prepare("SELECT room FROM members WHERE agent=?1 ORDER BY room")?.query_map(
        [agent],
        |r| r.get(0),
    )?.collect()
}

/// `Statement::query_map` over the keys of messages that begin with an `@`: each once, in
/// ascending order.
#[verifier::external_body]
fn select_channels(conn: &rusqlite::Connection) -> (r: Result<
    Vec<String>,
    rusqlite::Error,
>)
    requires
        own_database(*conn),
    ensures
        r matches Ok(v) ==> lists(texts(v@), channels(tables_of(*conn).messages)),
{
    conn.prepare(
        "SELECT DISTINCT room_key FROM messages WHERE room_key LIKE '@%' ORDER BY room_key",
    )?.query_map([], |r| r.get(0))?.collect()
}

/// `Statement::insert` of an event: it runs the statement and returns the row's number,
/// which is one above the highest that was ever given out. The number in `e` is not used.
#[verifier::external_body]
fn insert_event(conn: &mut rusqlite::Connection, e: &EventRow) -> (r: Result<
    i64,
    rusqlite::Error,
>)
    requires
        own_database(*old(conn)),
    ensures
        r matches Ok(seq) ==> {
            &&& own_database(*final(conn))
            &&& tables_of(*final(conn)) == with_event(tables_of(*old(conn)), e@)
            &&& seq == tables_of(*final(conn)).event_high
        },
{
    conn.prepare(
        "INSERT INTO events(room_key, agent, kind, task, phase, step_cur, step_total, percent, \
         target, note, ts) VALUES(?1,?2,?3,?4,?5,?6,?7,?8,?9,?10,?11)",
    )?.insert(
        (
            &e.room, &e.agent, &e.kind, &e.task, &e.phase, e.step_cur, e.step_total, e.percent,
            &e.target, &e.note, e.ts,
        ),
    )
}

/// The columns of the table of events, in their order.
pub type EventColumns = (
    i64,
    String,
    String,
    String,
    Option<String>,
    Option<String>,
    Option<i64>,
    Option<i64>,
    Option<i64>,
    Option<String>,
    Option<String>,
    i64,
);

/// The event that the columns of a row stand for.
pub open spec fn columns_data(c: EventColumns) -> ProgressData {
    ProgressData {
        seq: c.0 as int,
        room: c.1@,
        agent: c.2@,
        kind: c.3@,
        task: opt_text(c.4),
        phase: opt_text(c.5),
        step_cur: opt_num(c.6),
        step_total: opt_num(c.7),
        percent: opt_num(c.8),
        target: opt_text(c.9),
        note: opt_text(c.10),
        ts: c.11 as int,
    }
}

/// `Statement::query_map` over the events of some rooms behind a number, in the order of
/// their numbers.
#[verifier::external_body]
fn select_events(conn: &rusqlite::Connection, keys: &[String], since: i64) -> (r: Result<
    Vec<EventColumns>,
    rusqlite::Error,
>)
    requires
        own_database(*conn),
    ensures
        r matches Ok(v) ==> Seq::new(v@.len(), |i: int| columns_data(v@[i])) == events_after(
            tables_of(*conn).events,
            text_set(keys@),
            since as int,
        ),
{
    let marks = vec!["?"; keys.len()].join(",");
    let sql = format!(
        "SELECT seq, room_key, agent, kind, task, phase, step_cur, step_total, percent, target, \
         note, ts FROM events WHERE room_key IN ({marks}) AND seq>? ORDER BY seq"
    );
    let keys = keys.iter().map(|k| k as &dyn rusqlite::ToSql);
    let params = keys.chain([&since as &dyn rusqlite::ToSql]);
    conn.prepare(&sql)?.query_map(rusqlite::params_from_iter(params), |r| r.try_into())?.collect()
}

/// `Statement::query_map` over all events behind a number, in the order of their numbers.
#[verifier::external_body]
fn select_all_events(conn: &rusqlite::Connection, since: i64) -> (r: Result<
    Vec<EventColumns>,
    rusqlite::Error,
>)
    requires
        own_database(*conn),
    ensures
        r matches Ok(v) ==> Seq::new(v@.len(), |i: int| columns_data(v@[i])) == all_events_after(
            tables_of(*conn).events,
            since as int,
        ),
{
    conn.prepare(
        "SELECT seq, room_key, agent, kind, task, phase, step_cur, step_total, percent, target, \
         note, ts FROM events WHERE seq>?1 ORDER BY seq",
    )?.query_map([since], |r| r.try_into())?.collect()
}

/// The columns of rows, named.
fn event_rows(columns: Vec<EventColumns>) -> (r: Vec<EventRow>)
    ensures
        event_data(r@) == Seq::new(columns@.len(), |i: int| columns_data(columns@[i])),
{
    let mut out: Vec<EventRow> = Vec::new();
    let ghost all = columns@;
    for c in it: columns
        invariant
            it.seq() == all,
            out@.len() == it.index(),
            forall|i: int| 0 <= i < out@.len() ==> (#[trigger] out@[i])@ == columns_data(all[i]),
    {
        out.push(
            EventRow {
                seq: c.0,
                room: c.1,
                agent: c.2,
                kind: c.3,
                task: c.4,
                phase: c.5,
                step_cur: c.6,
                step_total: c.7,
                percent: c.8,
                target: c.9,
                note: c.10,
                ts: c.11,
            },
        );
    }
    assert(event_data(out@) =~= Seq::new(all.len(), |i: int| columns_data(all[i])));
    out
}

/// `Connection::query_row` for the highest number among the events; zero where there is none.
#[verifier::external_body]
fn select_last_event(conn: &rusqlite::Connection) -> (r: Result<i64, rusqlite::Error>)
    requires
        own_database(*conn),
    ensures
        r matches Ok(n) ==> n == last_event(tables_of(*conn).events),
{
    conn.query_row("SELECT COALESCE(MAX(seq),0) FROM events", [], |r| r.get(0))
}

/// An answer to the client with an error status.
#[derive(Debug, PartialEq, Eq)]
pub struct Refusal {
    pub code: u16,
    pub msg: String,
}

/// A refusal as data.
pub struct RefusalData {
    pub code: int,
    pub msg: Seq<char>,
}

impl View for Refusal {
    type V = RefusalData;

    open spec fn view(&self) -> RefusalData {
        RefusalData { code: self.code as int, msg: self.msg@ }
    }
}

/// Why a request was not carried out: it was refused, or a statement failed.
#[derive(Debug)]
pub enum Failure {
    Refused(Refusal),
    Store(rusqlite::Error),
}

/// One agent: its id and its status.
#[derive(Debug, PartialEq, Eq)]
pub struct AgentRow {
    pub id: String,
    pub status: String,
}

/// One room with its members.
#[derive(Debug, PartialEq, Eq)]
pub struct RoomRow {
    pub name: String,
    pub owner: String,
    pub kind: String,
    pub members: Vec<String>,
}

/// An agent as data.
pub struct AgentEntry {
    pub id: Seq<char>,
    pub status: Seq<char>,
}

/// A room with its members as data.
pub struct RoomEntry {
    pub name: Seq<char>,
    pub owner: Seq<char>,
    pub kind: Seq<char>,
    pub members: Seq<Seq<char>>,
}

impl View for AgentRow {
    type V = AgentEntry;

    open spec fn view(&self) -> AgentEntry {
        AgentEntry { id: self.id@, status: self.status@ }
    }
}

impl View for RoomRow {
    type V = RoomEntry;

    open spec fn view(&self) -> RoomEntry {
        RoomEntry {
            name: self.name@,
            owner: self.owner@,
            kind: self.kind@,
            members: texts(self.members@),
        }
    }
}

/// All agents in the order of their ids.
pub open spec fn agent_entries(t: Tables) -> Seq<AgentEntry> {
    let ids = sorted(t.agents.dom());
    Seq::new(ids.len(), |i: int| AgentEntry { id: ids[i], status: t.agents[ids[i]] })
}

/// The room `name` with its members in ascending order.
pub open spec fn room_entry(t: Tables, name: Seq<char>) -> RoomEntry {
    RoomEntry {
        name,
        owner: t.rooms[name].owner,
        kind: t.rooms[name].kind,
        members: sorted(members_of(t, name)),
    }
}

/// All rooms in the order of their names.
pub open spec fn room_entries(t: Tables) -> Seq<RoomEntry> {
    let names = sorted(t.rooms.dom());
    Seq::new(names.len(), |i: int| room_entry(t, names[i]))
}

/// The agents that rows stand for.
pub open spec fn agent_rows(v: Seq<AgentRow>) -> Seq<AgentEntry> {
    Seq::new(v.len(), |i: int| v[i]@)
}

/// The rooms that rows stand for.
pub open spec fn room_rows(v: Seq<RoomRow>) -> Seq<RoomEntry> {
    Seq::new(v.len(), |i: int| v[i]@)
}

/// The keys that an agent finds in its inbox: the rooms that it is a member of, and then the
/// direct-message channels that name it.
pub open spec fn relevant_keys(t: Tables, agent: Seq<char>) -> Seq<Seq<char>> {
    sorted(rooms_of(t, agent)) + sorted(channels(t.messages)).filter(
        |key: Seq<char>| has_part(key.skip(1), '|', agent),
    )
}

/// The owner of a room, if there is such a room.
pub open spec fn owner_of(t: Tables, room: Seq<char>) -> Option<Seq<char>> {
    if t.rooms.contains_key(room) {
        Some(t.rooms[room].owner)
    } else {
        None
    }
}

/// A mission's database, with all of its tables.
pub struct Store {
    conn: rusqlite::Connection,
}

impl View for Store {
    type V = Tables;

    closed spec fn view(&self) -> Tables {
        tables_of(self.conn)
    }
}

impl Store {
    /// The database is the mission's own, its numbers are in order, and its messages have
    /// their times.
    pub closed spec fn wf(&self) -> bool {
        own_database(self.conn) && well_formed(tables_of(self.conn)) && tables_of(self.conn).has_ts
    }

    /// A sound database has its numbers in order, and a time for its messages.
    pub proof fn lemma_wf(&self)
        requires
            self.wf(),
        ensures
            well_formed(self@),
            self@.has_ts,
    {
    }

    /// Makes the tables that are missing, and adds the column `ts` where it is not found; the
    /// messages that were there then have no time. What a mission's own database holds otherwise
    /// stays as it is. Whether the statements succeed is up to SQLite.
    pub fn init_schema(conn: rusqlite::Connection) -> (r: Result<Store, rusqlite::Error>)
        ensures
            r matches Ok(store) ==> own_database(conn) ==> {
                &&& store.wf()
                &&& store@ == with_ts(tables_of(conn))
                &&& !tables_of(conn).has_ts ==> no_times(store@)
            },
    {
        let mut conn = conn;
        create_tables(&mut conn)?;
        if lacks_ts(&has_ts(&conn)) {
            add_ts(&mut conn)?;
        }
        Ok(Store { conn })
    }

    /// A new database in memory, with nothing in it. Whether one can be had is up to SQLite.
    pub fn in_memory() -> (r: Result<Store, rusqlite::Error>)
        ensures
            r matches Ok(store) ==> store.wf() && store@ == with_ts(no_tables()),
    {
        let conn = open_in_memory()?;
        Store::init_schema(conn)
    }

    /// Makes `agent` known. Where that cannot be noted the error is returned, and nothing
    /// changes.
    pub fn touch(&mut self, agent: &str) -> (r: Option<rusqlite::Error>)
        requires
            old(self).wf(),
        ensures
            final(self).wf(),
            final(self)@ == made_known(old(self)@, agent@, r is None),
    {
        match insert_agent(&mut self.conn, agent) {
            Ok(_) => None,
            Err(e) => Some(e),
        }
    }

    /// The status of an agent; an unknown one has none.
    pub fn status(&self, agent: &str) -> (r: Result<String, Failure>)
        requires
            self.wf(),
        ensures
            match r {
                Ok(s) => self@.agents.contains_key(agent@) && s@ == self@.agents[agent@],
                Err(f) => f is Store,
            },
    {
        match select_status(&self.conn, agent) {
            Ok(s) => Ok(s),
            Err(e) => Err(Failure::Store(e)),
        }
    }

    /// Sets the status of an agent that is known.
    pub fn set_status(&mut self, agent: &str, status: &str) -> (r: Result<(), Failure>)
        requires
            old(self).wf(),
        ensures
            match r {
                Ok(_) => final(self).wf() && final(self)@ == with_status(
                    old(self)@,
                    agent@,
                    status@,
                ),
                Err(f) => f is Store,
            },
    {
        match update_status(&mut self.conn, agent, status) {
            Ok(_) => Ok(()),
            Err(e) => Err(Failure::Store(e)),
        }
    }

    /// All agents in the order of their ids.
    pub fn agents(&self) -> (r: Result<Vec<AgentRow>, Failure>)
        requires
            self.wf(),
        ensures
            match r {
                Ok(v) => agent_rows(v@) == agent_entries(self@),
                Err(f) => f is Store,
            },
    {
        let rows = match select_agents(&self.conn) {
            Ok(rows) => rows,
            Err(e) => return Err(Failure::Store(e)),
        };
        let ghost all = rows@;
        let ghost ids = Seq::new(all.len(), |i: int| all[i].0@);
        proof {
            lemma_sorted(ids, self@.agents.dom());
        }
        let mut out: Vec<AgentRow> = Vec::new();
        for row in it: rows
            invariant
                it.seq() == all,
                out@.len() == it.index(),
                forall|i: int|
                    0 <= i < out@.len() ==> (#[trigger] out@[i])@ == (AgentEntry {
                        id: all[i].0@,
                        status: all[i].1@,
                    }),
        {
            out.push(AgentRow { id: row.0, status: row.1 });
        }
        proof {
            assert(agent_rows(out@) =~= agent_entries(self@)) by {
                assert forall|i: int| 0 <= i < all.len() implies agent_entries(self@)[i]
                    == #[trigger] agent_rows(out@)[i] by {
                    assert(ids[i] == all[i].0@);
                    assert(out@[i]@.id == all[i].0@);
                }
            }
        }
        Ok(out)
    }

    /// The owner of a room.
    pub fn room_owner(&self, room: &str) -> (r: Result<Option<String>, Failure>)
        requires
            self.wf(),
        ensures
            match r {
                Ok(s) => opt_text(s) == owner_of(self@, room@),
                Err(f) => f is Store,
            },
    {
        match select_owner(&self.conn, room) {
            Ok(s) => Ok(s),
            Err(e) => Err(Failure::Store(e)),
        }
    }

    /// Adds a room with its owner as the first member.
    pub fn create_room(&mut self, name: &str, owner: &str, kind: &str) -> (r: Result<(), Failure>)
        requires
            old(self).wf(),
        ensures
            match r {
                Ok(_) => final(self).wf() && final(self)@ == with_member(
                    with_room(old(self)@, name@, RoomData { owner: owner@, kind: kind@ }),
                    name@,
                    owner@,
                ),
                Err(f) => f is Store,
            },
    {
        match insert_room(&mut self.conn, name, owner, kind) {
            Ok(_) => self.add_member(name, owner),
            Err(e) => Err(Failure::Store(e)),
        }
    }

    /// Adds a member to a room.
    pub fn add_member(&mut self, room: &str, agent: &str) -> (r: Result<(), Failure>)
        requires
            old(self).wf(),
        ensures
            match r {
                Ok(_) => final(self).wf() && final(self)@ == with_member(old(self)@, room@, agent@),
                Err(f) => f is Store,
            },
    {
        match insert_member(&mut self.conn, room, agent) {
            Ok(_) => Ok(()),
            Err(e) => Err(Failure::Store(e)),
        }
    }

    /// Takes a member out of a room.
    pub fn remove_member(&mut self, room: &str, agent: &str) -> (r: Result<(), Failure>)
        requires
            old(self).wf(),
        ensures
            match r {
                Ok(_) => final(self).wf() && final(self)@ == without_member(
                    old(self)@,
                    room@,
                    agent@,
                ),
                Err(f) => f is Store,
            },
    {
        match delete_member(&mut self.conn, room, agent) {
            Ok(_) => Ok(()),
            Err(e) => Err(Failure::Store(e)),
        }
    }

    /// Whether an agent is a member of a room.
    pub fn is_member(&self, room: &str, agent: &str) -> (r: Result<bool, Failure>)
        requires
            self.wf(),
        ensures
            match r {
                Ok(b) => b == self@.members.contains((room@, agent@)),
                Err(f) => f is Store,
            },
    {
        match has_member(&self.conn, room, agent) {
            Ok(b) => Ok(b),
            Err(e) => Err(Failure::Store(e)),
        }
    }

    /// All rooms with their members, in the order of their names.
    pub fn rooms(&self) -> (r: Result<Vec<RoomRow>, Failure>)
        requires
            self.wf(),
        ensures
            match r {
                Ok(v) => room_rows(v@) == room_entries(self@),
                Err(f) => f is Store,
            },
    {
        let rows = match select_rooms(&self.conn) {
            Ok(rows) => rows,
            Err(e) => return Err(Failure::Store(e)),
        };
        let ghost all = rows@;
        let ghost names = Seq::new(all.len(), |i: int| all[i].0@);
        proof {
            lemma_sorted(names, self@.rooms.dom());
        }
        let mut out: Vec<RoomRow> = Vec::new();
        for row in it: rows
            invariant
                self.wf(),
                it.seq() == all,
                out@.len() == it.index(),
                forall|i: int|
                    0 <= i < all.len() ==> self@.rooms[(#[trigger] all[i]).0@] == (RoomData {
                        owner: all[i].1@,
                        kind: all[i].2@,
                    }),
                forall|i: int|
                    0 <= i < out@.len() ==> (#[trigger] out@[i])@ == room_entry(
                        self@,
                        all[i].0@,
                    ),
        {
            let members = match select_members(&self.conn, row.0.as_str()) {
                Ok(members) => members,
                Err(e) => return Err(Failure::Store(e)),
            };
            proof {
                lemma_sorted(texts(members@), members_of(self@, row.0@));
                assert(all[it.index() as int] == row);
            }
            out.push(RoomRow { name: row.0, owner: row.1, kind: row.2, members });
        }
        proof {
            assert(room_rows(out@) =~= room_entries(self@)) by {
                assert forall|i: int| 0 <= i < all.len() implies room_entries(self@)[i]
                    == #[trigger] room_rows(out@)[i] by {
                    assert(names[i] == all[i].0@);
                    assert(out@[i]@ == room_entry(self@, all[i].0@));
                }
            }
        }
        Ok(out)
    }

    /// The names of all rooms, which no direct-message channel is among.
    pub fn all_room_names(&self) -> (r: Result<Vec<String>, Failure>)
        requires
            self.wf(),
        ensures
            match r {
                Ok(v) => texts(v@) == sorted(self@.rooms.dom()) && text_set(v@)
                    == self@.rooms.dom(),
                Err(f) => f is Store,
            },
    {
        let rows = match select_rooms(&self.conn) {
            Ok(rows) => rows,
            Err(e) => return Err(Failure::Store(e)),
        };
        let ghost all = rows@;
        let ghost names = Seq::new(all.len(), |i: int| all[i].0@);
        let mut out: Vec<String> = Vec::new();
        for row in it: rows
            invariant
                it.seq() == all,
                out@.len() == it.index(),
                forall|i: int| 0 <= i < out@.len() ==> (#[trigger] out@[i])@ == all[i].0@,
        {
            out.push(row.0);
        }
        proof {
            assert(texts(out@) =~= names);
            lemma_sorted(names, self@.rooms.dom());
            assert(text_set(out@) =~= self@.rooms.dom()) by {
                assert forall|x: Seq<char>| text_set(out@).contains(x) == self@.rooms.dom().contains(
                    x,
                ) by {
                    assert(self@.rooms.dom().contains(x) <==> names.contains(x));
                }
            }
        }
        Ok(out)
    }

    /// Removes a room with its members and its messages. Cursors and events stay.
    pub fn destroy_room(&mut self, room: &str) -> (r: Result<(), Failure>)
        requires
            old(self).wf(),
        ensures
            match r {
                Ok(_) => final(self).wf() && final(self)@ == without_messages_of(
                    without_members_of(without_room(old(self)@, room@), room@),
                    room@,
                ),
                Err(f) => f is Store,
            },
    {
        proof {
            let t = self@;
            lemma_filter_messages(t.messages, |m: MessageData| m.room != room@);
        }
        match delete_room(&mut self.conn, room) {
            Ok(_) => {},
            Err(e) => return Err(Failure::Store(e)),
        }
        match delete_members(&mut self.conn, room) {
            Ok(_) => {},
            Err(e) => return Err(Failure::Store(e)),
        }
        match delete_messages(&mut self.conn, room) {
            Ok(_) => Ok(()),
            Err(e) => Err(Failure::Store(e)),
        }
    }

    /// Appends a message and returns its number.
    pub fn append(&mut self, room: &str, from: &str, text: &str, ts: i64) -> (r: Result<
        i64,
        Failure,
    >)
        requires
            old(self).wf(),
        ensures
            match r {
                Ok(seq) => final(self).wf() && final(self)@ == with_message(
                    old(self)@,
                    room@,
                    from@,
                    text@,
                    ts as int,
                ) && seq == old(self)@.message_high + 1,
                Err(f) => f is Store,
            },
    {
        match insert_message(&mut self.conn, room, from, text, ts) {
            Ok(seq) => Ok(seq),
            Err(e) => Err(Failure::Store(e)),
        }
    }

    /// The messages of some rooms behind a number, in order.
    pub fn messages_after_multi(&self, keys: &[String], since: i64) -> (r: Result<
        Vec<MessageRow>,
        Failure,
    >)
        requires
            self.wf(),
        ensures
            match r {
                Ok(v) => message_data(v@) == messages_after(
                    self@.messages,
                    text_set(keys@),
                    since as int,
                ),
                Err(f) => f is Store,
            },
            keys@.len() == 0 ==> r is Ok,
    {
        if keys.len() == 0 {
            let none: Vec<MessageRow> = Vec::new();
            proof {
                let wanted = |m: MessageData|
                    text_set(keys@).contains(m.room) && m.seq > since as int;
                assert forall|i: int| 0 <= i < self@.messages.len() implies !wanted(
                    #[trigger] self@.messages[i],
                ) by {
                    assert(texts(keys@) =~= Seq::<Seq<char>>::empty());
                }
                self@.messages.lemma_all_neg_filter_empty(wanted);
                assert(messages_after(self@.messages, text_set(keys@), since as int)
                    =~= message_data(none@));
            }
            return Ok(none);
        }
        match select_messages(&self.conn, keys, since) {
            Ok(v) => Ok(v),
            Err(e) => Err(Failure::Store(e)),
        }
    }

    /// The messages of one room behind a number, in order.
    pub fn messages_after(&self, room: &str, since: i64) -> (r: Result<Vec<MessageRow>, Failure>)
        requires
            self.wf(),
        ensures
            match r {
                Ok(v) => message_data(v@) == messages_after(
                    self@.messages,
                    set![room@],
                    since as int,
                ),
                Err(f) => f is Store,
            },
    {
        let mut keys: Vec<String> = Vec::new();
        keys.push(copy(room));
        proof {
            assert(texts(keys@) =~= seq![room@]);
            lemma_one_key(room@);
        }
        self.messages_after_multi(keys.as_slice(), since)
    }

    /// The read cursor of an agent in a room; zero where it has read nothing.
    pub fn cursor(&self, agent: &str, room: &str) -> (r: Result<i64, Failure>)
        requires
            self.wf(),
        ensures
            match r {
                Ok(n) => n == cursor_of(self@, agent@, room@),
                Err(f) => f is Store,
            },
    {
        match select_cursor(&self.conn, agent, room) {
            Ok(Some(n)) => Ok(n),
            Ok(None) => Ok(0),
            Err(e) => Err(Failure::Store(e)),
        }
    }

    /// Moves the read cursor of an agent in a room.
    pub fn advance_cursor(&mut self, agent: &str, room: &str, seq: i64) -> (r: Result<(), Failure>)
        requires
            old(self).wf(),
        ensures
            match r {
                Ok(_) => final(self).wf() && final(self)@ == with_cursor(
                    old(self)@,
                    agent@,
                    room@,
                    seq as int,
                ),
                Err(f) => f is Store,
            },
    {
        match upsert_cursor(&mut self.conn, agent, room, seq) {
            Ok(_) => Ok(()),
            Err(e) => Err(Failure::Store(e)),
        }
    }

    /// The keys that an agent finds in its inbox: rooms that it is a member of, and channels
    /// that name it.
    pub fn relevant_rooms(&self, agent: &str) -> (r: Result<Vec<String>, Failure>)
        requires
            self.wf(),
        ensures
            match r {
                Ok(v) => texts(v@) == relevant_keys(self@, agent@),
                Err(f) => f is Store,
            },
    {
        let mut keys = match select_rooms_of(&self.conn, agent) {
            Ok(keys) => keys,
            Err(e) => return Err(Failure::Store(e)),
        };
        let found = match select_channels(&self.conn) {
            Ok(found) => found,
            Err(e) => return Err(Failure::Store(e)),
        };
        let ghost rooms = texts(keys@);
        let ghost all = texts(found@);
        let ghost names = |key: Seq<char>| has_part(key.skip(1), '|', agent@);
        proof {
            lemma_sorted(rooms, rooms_of(self@, agent@));
            lemma_sorted(all, channels(self@.messages));
            reveal(Seq::filter);
            assert(all.take(0).filter(names) =~= Seq::<Seq<char>>::empty());
            assert(rooms + all.take(0).filter(names) =~= rooms);
        }
        let mut i: usize = 0;
        while i < found.len()
            invariant
                i <= found@.len(),
                all == texts(found@),
                names == (|key: Seq<char>| has_part(key.skip(1), '|', agent@)),
                forall|x: Seq<char>| #[trigger]
                    channels(self@.messages).contains(x) <==> all.contains(x),
                texts(keys@) == rooms + all.take(i as int).filter(names),
            decreases found@.len() - i,
        {
            let ghost before = all.take(i as int);
            let ghost now = all.take(i + 1);
            proof {
                assert(now.drop_last() =~= before);
                assert(now.last() == found@[i as int]@);
                reveal(Seq::filter);
                assert(all[i as int] == found@[i as int]@);
                assert(all.contains(found@[i as int]@));
                assert(channels(self@.messages).contains(found@[i as int]@));
            }
            let cs = chars_of(found[i].as_str());
            let tail = text_range(cs.as_slice(), 1, cs.len());
            proof {
                assert(tail@ =~= found@[i as int]@.skip(1));
            }
            if any_part(tail.as_str(), '|', agent) {
                let ghost old_keys = texts(keys@);
                keys.push(copy(found[i].as_str()));
                assert(texts(keys@) =~= old_keys.push(found@[i as int]@));
                assert(texts(keys@) =~= rooms + now.filter(names));
            }
            i += 1;
        }
        proof {
            assert(all.take(found@.len() as int) =~= all);
        }
        Ok(keys)
    }

    /// Appends an event and returns its number.
    pub fn append_event(&mut self, e: &EventRow) -> (r: Result<i64, Failure>)
        requires
            old(self).wf(),
        ensures
            match r {
                Ok(seq) => final(self).wf() && final(self)@ == with_event(old(self)@, e@) && seq
                    == old(self)@.event_high + 1,
                Err(f) => f is Store,
            },
    {
        match insert_event(&mut self.conn, e) {
            Ok(seq) => Ok(seq),
            Err(e) => Err(Failure::Store(e)),
        }
    }

    /// The events of some rooms behind a number, in order.
    pub fn events_after_multi(&self, keys: &[String], since: i64) -> (r: Result<
        Vec<EventRow>,
        Failure,
    >)
        requires
            self.wf(),
        ensures
            match r {
                Ok(v) => event_data(v@) == events_after(
                    self@.events,
                    text_set(keys@),
                    since as int,
                ),
                Err(f) => f is Store,
            },
            keys@.len() == 0 ==> r is Ok,
    {
        if keys.len() == 0 {
            let none: Vec<EventRow> = Vec::new();
            proof {
                let wanted = |e: ProgressData|
                    text_set(keys@).contains(e.room) && e.seq > since as int;
                assert forall|i: int| 0 <= i < self@.events.len() implies !wanted(
                    #[trigger] self@.events[i],
                ) by {
                    assert(texts(keys@) =~= Seq::<Seq<char>>::empty());
                }
                self@.events.lemma_all_neg_filter_empty(wanted);
                assert(events_after(self@.events, text_set(keys@), since as int) =~= event_data(
                    none@,
                ));
            }
            return Ok(none);
        }
        match select_events(&self.conn, keys, since) {
            Ok(v) => Ok(event_rows(v)),
            Err(e) => Err(Failure::Store(e)),
        }
    }

    /// The events of one room behind a number, in order.
    pub fn events_after(&self, room: &str, since: i64) -> (r: Result<Vec<EventRow>, Failure>)
        requires
            self.wf(),
        ensures
            match r {
                Ok(v) => event_data(v@) == events_after(self@.events, set![room@], since as int),
                Err(f) => f is Store,
            },
    {
        let mut keys: Vec<String> = Vec::new();
        keys.push(copy(room));
        proof {
            assert(texts(keys@) =~= seq![room@]);
            lemma_one_key(room@);
        }
        self.events_after_multi(keys.as_slice(), since)
    }

    /// All events behind a number, in order.
    pub fn all_events_after(&self, since: i64) -> (r: Result<Vec<EventRow>, Failure>)
        requires
            self.wf(),
        ensures
            match r {
                Ok(v) => event_data(v@) == all_events_after(self@.events, since as int),
                Err(f) => f is Store,
            },
    {
        match select_all_events(&self.conn, since) {
            Ok(v) => Ok(event_rows(v)),
            Err(e) => Err(Failure::Store(e)),
        }
    }

    /// The highest number among the events, or zero.
    pub fn max_event_seq(&self) -> (r: Result<i64, rusqlite::Error>)
        requires
            self.wf(),
        ensures
            r matches Ok(n) ==> n == last_event(self@.events),
    {
        select_last_event(&self.conn)
    }
}

proof fn lemma_one_key(room: Seq<char>)
    ensures
        seq![room].to_set() =~= set![room],
{
    assert forall|x: Seq<char>| seq![room].to_set().contains(x) == set![room].contains(x) by {
        assert(seq![room][0] == room);
        if seq![room].contains(x) {
            let i = choose|i: int| 0 <= i < seq![room].len() && seq![room][i] == x;
            assert(i == 0);
        }
    }
}

} // verus!
