//! What each request does and what it is answered, said of the fields of the request and of the
//! reply.

use crate::delivery::lemma_filter_agree;
use crate::json::{
    array_field, bool_field, field, int_field, number_field, text_field, JsonData,
};
use crate::laws::lemma_channels_finite;
use crate::names::lemma_names;
use crate::number::{decimal, lemma_decimal_roundtrip};
use crate::ops::{
    agent_json, agents_json, event_json, events_json, inbox_entries, inbox_entry, message_json, messages_json,
    needed, outcome, room_json, rooms_json, unread, Outcome,
};
use crate::store::{
    agent_entries, relevant_keys, room_entries, room_entry, AgentEntry, RoomEntry,
};
use crate::tables::{
    all_events_after, ascending, channels, cursor_of, events_after, lemma_lists_exist, lists,
    members_of, messages_after, rooms_of, sorted, MessageData, ProgressData, RoomData, Tables,
};
use crate::text::{has_part, lemma_text_le_antisym, quoted, text_le, text_lt};
use vstd::prelude::*;

verus! {

/// An object has the member `key`, and its value is `v`.
pub open spec fn holds(d: JsonData, key: Seq<char>, v: JsonData) -> bool {
    d matches JsonData::Object(m) && m.contains_key(key) && m[key] == v
}

/// The names of the members of an object.
pub open spec fn keys_of(d: JsonData) -> Set<Seq<char>> {
    match d {
        JsonData::Object(m) => m.dom(),
        _ => Set::empty(),
    }
}

/// An object has the member `key`, which is the text, or `null` where there is none.
pub open spec fn holds_text_or_null(d: JsonData, key: Seq<char>, s: Option<Seq<char>>) -> bool {
    match s {
        Some(s) => holds(d, key, JsonData::Text(s)),
        None => holds(d, key, JsonData::Null),
    }
}

/// An object has the member `key`, which is the number, or `null` where there is none.
pub open spec fn holds_int_or_null(d: JsonData, key: Seq<char>, n: Option<int>) -> bool {
    match n {
        Some(n) => holds(d, key, JsonData::Int(n)),
        None => holds(d, key, JsonData::Null),
    }
}

/// An object tells a message: its number, its sender, its text and its time.
pub open spec fn tells_message(d: JsonData, m: MessageData) -> bool {
    &&& holds(d, "seq"@, JsonData::Int(m.seq))
    &&& holds(d, "from"@, JsonData::Text(m.from))
    &&& holds(d, "text"@, JsonData::Text(m.text))
    &&& holds_int_or_null(d, "ts"@, m.ts)
}

/// The member `key` of an object is an array that tells exactly these messages, in their order.
pub open spec fn tells_messages(d: JsonData, key: Seq<char>, messages: Seq<MessageData>) -> bool {
    &&& field(d, key) matches Some(JsonData::Array(a)) && a.len() == messages.len() && forall|i: int|
        0 <= i < a.len() ==> tells_message(#[trigger] a[i], messages[i])
}

/// An object tells an event, with all that belongs to it.
pub open spec fn tells_event(d: JsonData, e: ProgressData) -> bool {
    &&& holds(d, "seq"@, JsonData::Int(e.seq))
    &&& holds(d, "room"@, JsonData::Text(e.room))
    &&& holds(d, "agent"@, JsonData::Text(e.agent))
    &&& holds(d, "kind"@, JsonData::Text(e.kind))
    &&& holds_text_or_null(d, "task"@, e.task)
    &&& holds_text_or_null(d, "phase"@, e.phase)
    &&& holds_int_or_null(d, "step_cur"@, e.step_cur)
    &&& holds_int_or_null(d, "step_total"@, e.step_total)
    &&& holds_int_or_null(d, "percent"@, e.percent)
    &&& holds_text_or_null(d, "target"@, e.target)
    &&& holds_text_or_null(d, "note"@, e.note)
    &&& holds(d, "ts"@, JsonData::Int(e.ts))
}

/// The member `key` of an object is an array that tells exactly these events, in their order.
pub open spec fn tells_events(d: JsonData, key: Seq<char>, events: Seq<ProgressData>) -> bool {
    &&& field(d, key) matches Some(JsonData::Array(a)) && a.len() == events.len() && forall|i: int|
        0 <= i < a.len() ==> tells_event(#[trigger] a[i], events[i])
}

/// An array of objects tells all agents of the tables, each once, in the order of their names,
/// and of each the status that it has.
pub open spec fn tells_agents(a: Seq<JsonData>, t: Tables) -> bool {
    &&& forall|i: int|
        0 <= i < a.len() ==> (text_field(#[trigger] a[i], "id"@) matches Some(id)
            && t.agents.contains_key(id) && holds(a[i], "status"@, JsonData::Text(t.agents[id])))
    &&& forall|id: Seq<char>| #[trigger]
        t.agents.contains_key(id) ==> exists|i: int|
            0 <= i < a.len() && holds(#[trigger] a[i], "id"@, JsonData::Text(id))
    &&& forall|i: int, j: int|
        0 <= i < j < a.len() ==> text_lt(
            text_field(#[trigger] a[i], "id"@)->0,
            text_field(#[trigger] a[j], "id"@)->0,
        )
}

/// An array lists the members of a room, each once, in the order of their names.
pub open spec fn tells_members(v: Seq<JsonData>, t: Tables, room: Seq<char>) -> bool {
    &&& forall|i: int|
        0 <= i < v.len() ==> (#[trigger] v[i] matches JsonData::Text(s) && t.members.contains(
            (room, s),
        ))
    &&& forall|s: Seq<char>| #[trigger]
        t.members.contains((room, s)) ==> v.contains(JsonData::Text(s))
    &&& forall|i: int, j: int|
        0 <= i < j < v.len() ==> text_lt((#[trigger] v[i])->Text_0, (#[trigger] v[j])->Text_0)
}

/// An object tells a room of the tables: its type, its owner and its members.
pub open spec fn tells_room(d: JsonData, t: Tables, name: Seq<char>) -> bool {
    &&& t.rooms.contains_key(name)
    &&& holds(d, "name"@, JsonData::Text(name))
    &&& holds(d, "type"@, JsonData::Text(t.rooms[name].kind))
    &&& holds(d, "owner"@, JsonData::Text(t.rooms[name].owner))
    &&& field(d, "members"@) matches Some(JsonData::Array(v)) && tells_members(v, t, name)
}

/// An array of objects tells all rooms of the tables, each once, in the order of their names.
pub open spec fn tells_rooms(a: Seq<JsonData>, t: Tables) -> bool {
    &&& forall|i: int|
        0 <= i < a.len() ==> (text_field(#[trigger] a[i], "name"@) matches Some(name)
            && tells_room(a[i], t, name))
    &&& forall|name: Seq<char>| #[trigger]
        t.rooms.contains_key(name) ==> exists|i: int|
            0 <= i < a.len() && holds(#[trigger] a[i], "name"@, JsonData::Text(name))
    &&& forall|i: int, j: int|
        0 <= i < j < a.len() ==> text_lt(
            text_field(#[trigger] a[i], "name"@)->0,
            text_field(#[trigger] a[j], "name"@)->0,
        )
}

/// A text field is there and not empty.
pub open spec fn given(b: JsonData, key: Seq<char>, s: Seq<char>) -> bool {
    s.len() > 0 && holds(b, key, JsonData::Text(s))
}

/// A text field is not there, no text, or empty.
pub open spec fn lacks(b: JsonData, key: Seq<char>) -> bool {
    forall|s: Seq<char>| !given(b, key, s)
}

/// What is read as a field of a document: a member of an object. Numbers may be written as
/// text.
pub proof fn law_fields_are_read(m: Map<Seq<char>, JsonData>, d: JsonData, key: Seq<char>, n: int)
    ensures
        m.contains_key(key) ==> field(JsonData::Object(m), key) == Some(m[key]),
        !m.contains_key(key) ==> field(JsonData::Object(m), key) is None,
        !(d is Object) ==> field(d, key) is None,
        field(d, key) == Some(JsonData::Int(n)) ==> number_field(d, key) == Some(n),
        field(d, key) == Some(JsonData::Text(decimal(n))) && i64::MIN <= n <= i64::MAX
            ==> number_field(d, key) == Some(n),
        !(field(d, key) matches Some(JsonData::Int(_))) && !(field(d, key) matches Some(
            JsonData::Text(_),
        )) ==> number_field(d, key) is None,
        text_field(d, key) is Some <==> (field(d, key) matches Some(JsonData::Text(_))),
        text_field(d, key) matches Some(s) ==> holds(d, key, JsonData::Text(s)),
        bool_field(d, key) is Some <==> (field(d, key) matches Some(JsonData::Bool(_))),
        bool_field(d, key) matches Some(v) ==> holds(d, key, JsonData::Bool(v)),
        int_field(d, key) is Some <==> (field(d, key) matches Some(JsonData::Int(_))),
        int_field(d, key) matches Some(v) ==> holds(d, key, JsonData::Int(v)),
        field(d, key) matches Some(JsonData::Array(a)) ==> array_field(d, key) == a,
        !(field(d, key) matches Some(JsonData::Array(_))) ==> array_field(d, key).len() == 0,
{
    if i64::MIN <= n <= i64::MAX {
        lemma_decimal_roundtrip(n);
    }
}

/// `register` changes nothing and names the caller.
pub proof fn law_register(t: Tables, agent: Seq<char>, b: JsonData, now: int, noted: bool)
    ensures
        outcome(t, "register"@, agent, b, now, noted) matches Outcome::Done { tables, reply }
            && tables == t && holds(reply, "ok"@, JsonData::Bool(true)) && holds(
            reply,
            "agent"@,
            JsonData::Text(agent),
        ) && keys_of(reply) == set!["ok"@, "agent"@],
{
    lemma_names();
    let reply = outcome(t, "register"@, agent, b, now, noted)->reply;
    assert(keys_of(reply) =~= set!["ok"@, "agent"@]);
}

/// `whoami` changes nothing, and tells the caller's name and status.
pub proof fn law_whoami(t: Tables, agent: Seq<char>, b: JsonData, now: int, noted: bool)
    ensures
        outcome(t, "whoami"@, agent, b, now, noted) matches Outcome::Done { tables, reply }
            && tables == t && holds(reply, "agent"@, JsonData::Text(agent)) && holds(
            reply,
            "status"@,
            JsonData::Text(t.agents[agent]),
        ) && keys_of(reply) == set!["agent"@, "status"@],
{
    lemma_names();
    let reply = outcome(t, "whoami"@, agent, b, now, noted)->reply;
    assert(keys_of(reply) =~= set!["agent"@, "status"@]);
}

/// `agents` changes nothing, and tells all known agents with their statuses.
pub proof fn law_agents(t: Tables, agent: Seq<char>, b: JsonData, now: int, noted: bool)
    requires
        t.agents.dom().finite(),
    ensures
        outcome(t, "agents"@, agent, b, now, noted) matches Outcome::Done { tables, reply }
            && tables == t && keys_of(reply) == set!["agents"@] && (field(reply, "agents"@) matches Some(
            JsonData::Array(a),
        ) && tells_agents(a, t)),
{
    lemma_names();
    let reply = outcome(t, "agents"@, agent, b, now, noted)->reply;
    assert(keys_of(reply) =~= set!["agents"@]);
    lemma_agents_told(t);
}

/// The entries of agents tell all of them.
pub proof fn lemma_agents_told(t: Tables)
    requires
        t.agents.dom().finite(),
    ensures
        agents_json(agent_entries(t)) matches JsonData::Array(a)
            && tells_agents(a, t),
{
    lemma_names();
    let ids = sorted(t.agents.dom());
    lemma_lists_exist(t.agents.dom());
    let a = agents_json(agent_entries(t))->Array_0;
    assert(lists(ids, t.agents.dom()));
    assert forall|i: int| 0 <= i < a.len() implies (text_field(#[trigger] a[i], "id"@) matches Some(
        id,
    ) && t.agents.contains_key(id) && holds(a[i], "status"@, JsonData::Text(t.agents[id]))) by {
        assert(ids.contains(ids[i]));
        assert(t.agents.dom().contains(ids[i]));
    }
    assert forall|id: Seq<char>| #[trigger] t.agents.contains_key(id) implies exists|i: int|
        0 <= i < a.len() && holds(#[trigger] a[i], "id"@, JsonData::Text(id)) by {
        assert(t.agents.dom().contains(id));
        let i = choose|i: int| 0 <= i < ids.len() && ids[i] == id;
        assert(holds(a[i], "id"@, JsonData::Text(id)));
    }
    assert forall|i: int, j: int| 0 <= i < j < a.len() implies text_lt(
        text_field(#[trigger] a[i], "id"@)->0,
        text_field(#[trigger] a[j], "id"@)->0,
    ) by {
        assert(text_lt(ids[i], ids[j]));
    }
}

/// `rooms` changes nothing, and tells all rooms with their types, owners and members.
pub proof fn law_rooms(t: Tables, agent: Seq<char>, b: JsonData, now: int, noted: bool)
    requires
        t.rooms.dom().finite(),
        t.members.finite(),
    ensures
        outcome(t, "rooms"@, agent, b, now, noted) matches Outcome::Done { tables, reply }
            && tables == t && keys_of(reply) == set!["rooms"@] && (field(reply, "rooms"@) matches Some(
            JsonData::Array(a),
        ) && tells_rooms(a, t)),
{
    lemma_names();
    let reply = outcome(t, "rooms"@, agent, b, now, noted)->reply;
    assert(keys_of(reply) =~= set!["rooms"@]);
    lemma_rooms_told(t);
}

/// The members of a room are finitely many where memberships are.
proof fn lemma_members_finite(t: Tables, room: Seq<char>)
    requires
        t.members.finite(),
    ensures
        members_of(t, room).finite(),
{
    let ends = t.members.map(|m: (Seq<char>, Seq<char>)| m.1);
    t.members.lemma_map_finite(|m: (Seq<char>, Seq<char>)| m.1);
    assert forall|s: Seq<char>| members_of(t, room).contains(s) implies ends.contains(s) by {
        assert(t.members.contains((room, s)));
        assert((room, s).1 == s);
    }
    vstd::set_lib::lemma_set_subset_finite(ends, members_of(t, room));
}

/// The rooms of an agent are finitely many where memberships are.
proof fn lemma_rooms_finite(t: Tables, agent: Seq<char>)
    requires
        t.members.finite(),
    ensures
        rooms_of(t, agent).finite(),
{
    let ends = t.members.map(|m: (Seq<char>, Seq<char>)| m.0);
    t.members.lemma_map_finite(|m: (Seq<char>, Seq<char>)| m.0);
    assert forall|s: Seq<char>| rooms_of(t, agent).contains(s) implies ends.contains(s) by {
        assert(t.members.contains((s, agent)));
        assert((s, agent).0 == s);
    }
    vstd::set_lib::lemma_set_subset_finite(ends, rooms_of(t, agent));
}

/// The entry of a room tells it.
proof fn lemma_room_told(t: Tables, name: Seq<char>)
    requires
        t.rooms.contains_key(name),
        t.members.finite(),
    ensures
        tells_room(room_json(room_entry(t, name)), t, name),
{
    lemma_names();
    let s = members_of(t, name);
    let ids = sorted(s);
    lemma_members_finite(t, name);
    lemma_lists_exist(s);
    let d = room_json(room_entry(t, name));
    let v = field(d, "members"@)->0->Array_0;
    assert(v.len() == ids.len());
    assert forall|i: int| 0 <= i < v.len() implies (#[trigger] v[i] matches JsonData::Text(a)
        && t.members.contains((name, a))) by {
        assert(v[i] == JsonData::Text(ids[i]));
        assert(ids.contains(ids[i]));
        assert(s.contains(ids[i]));
    }
    assert forall|a: Seq<char>| #[trigger] t.members.contains((name, a)) implies v.contains(
        JsonData::Text(a),
    ) by {
        assert(s.contains(a));
        let i = choose|i: int| 0 <= i < ids.len() && ids[i] == a;
        assert(v[i] == JsonData::Text(a));
    }
    assert forall|i: int, j: int| 0 <= i < j < v.len() implies text_lt(
        (#[trigger] v[i])->Text_0,
        (#[trigger] v[j])->Text_0,
    ) by {
        assert(v[i] == JsonData::Text(ids[i]) && v[j] == JsonData::Text(ids[j]));
        assert(text_lt(ids[i], ids[j]));
    }
}

/// The entries of rooms tell all of them.
pub proof fn lemma_rooms_told(t: Tables)
    requires
        t.rooms.dom().finite(),
        t.members.finite(),
    ensures
        rooms_json(room_entries(t)) matches JsonData::Array(a)
            && tells_rooms(a, t),
{
    lemma_names();
    let s = t.rooms.dom();
    let ids = sorted(s);
    lemma_lists_exist(s);
    let a = rooms_json(room_entries(t))->Array_0;
    assert forall|i: int| 0 <= i < a.len() implies (text_field(#[trigger] a[i], "name"@) matches Some(
        name,
    ) && tells_room(a[i], t, name)) by {
        assert(ids.contains(ids[i]));
        assert(s.contains(ids[i]));
        lemma_room_told(t, ids[i]);
    }
    assert forall|name: Seq<char>| #[trigger] t.rooms.contains_key(name) implies exists|i: int|
        0 <= i < a.len() && holds(#[trigger] a[i], "name"@, JsonData::Text(name)) by {
        assert(s.contains(name));
        let i = choose|i: int| 0 <= i < ids.len() && ids[i] == name;
        assert(holds(a[i], "name"@, JsonData::Text(name)));
    }
    assert forall|i: int, j: int| 0 <= i < j < a.len() implies text_lt(
        text_field(#[trigger] a[i], "name"@)->0,
        text_field(#[trigger] a[j], "name"@)->0,
    ) by {
        assert(text_lt(ids[i], ids[j]));
    }
}

/// `status` gives the caller, if it is known, one of the four states, and nothing else changes.
/// Anything else is refused with 400.
pub proof fn law_status(t: Tables, agent: Seq<char>, b: JsonData, now: int, noted: bool, s: Seq<char>)
    ensures
        ({
            let o = outcome(t, "status"@, agent, b, now, noted);
            let good = s == "active"@ || s == "idle"@ || s == "busy"@ || s == "done"@;
            &&& given(b, "state"@, s) && good ==> (o matches Outcome::Done { tables, reply } && {
                &&& tables == (Tables { agents: tables.agents, ..t })
                &&& tables.agents.dom() == t.agents.dom()
                &&& t.agents.contains_key(agent) ==> tables.agents[agent] == s
                &&& forall|a: Seq<char>|
                    a != agent && t.agents.contains_key(a) ==> #[trigger] tables.agents[a]
                        == t.agents[a]
                &&& holds(reply, "ok"@, JsonData::Bool(true))
                &&& holds(reply, "status"@, JsonData::Text(s))
                &&& keys_of(reply) == set!["ok"@, "status"@]
            })
            &&& lacks(b, "state"@) || (given(b, "state"@, s) && !good) ==> (o matches Outcome::Refused(
                e,
            ) && e.code == 400)
        }),
{
    lemma_names();
    match outcome(t, "status"@, agent, b, now, noted) {
        Outcome::Done { tables, reply } => {
            assert(keys_of(reply) =~= set!["ok"@, "status"@]);
            assert(tables.agents.dom() =~= t.agents.dom());
            assert(given(b, "state"@, text_field(b, "state"@)->0));
        },
        _ => {},
    }
}

/// `create-room` makes a room of the type that was asked for, or a public one, which belongs to
/// the caller, who is its member; nothing else changes. The owner of a room may do it again,
/// which changes nothing. A room of someone else is refused with 409.
pub proof fn law_create_room(
    t: Tables,
    agent: Seq<char>,
    b: JsonData,
    now: int,
    noted: bool,
    name: Seq<char>,
)
    ensures
        ({
            let o = outcome(t, "create-room"@, agent, b, now, noted);
            let kind = match field(b, "type"@) {
                Some(JsonData::Text(kind)) => kind,
                _ => "public"@,
            };
            &&& given(b, "name"@, name) && (t.rooms.contains_key(name) ==> t.rooms[name].owner
                == agent) ==> (o matches Outcome::Done { tables, reply } && {
                &&& t.rooms.contains_key(name) ==> tables == t
                &&& !t.rooms.contains_key(name) ==> {
                    &&& tables == (Tables { rooms: tables.rooms, members: tables.members, ..t })
                    &&& tables.rooms.contains_key(name)
                    &&& tables.rooms[name] == (RoomData { owner: agent, kind })
                    &&& forall|r: Seq<char>| #[trigger]
                        tables.rooms.contains_key(r) <==> r == name || t.rooms.contains_key(r)
                    &&& forall|r: Seq<char>|
                        r != name && t.rooms.contains_key(r) ==> #[trigger] tables.rooms[r]
                            == t.rooms[r]
                    &&& forall|r: Seq<char>, a: Seq<char>| #[trigger]
                        tables.members.contains((r, a)) <==> (r == name && a == agent)
                            || t.members.contains((r, a))
                }
                &&& holds(reply, "ok"@, JsonData::Bool(true))
                &&& holds(reply, "room"@, JsonData::Text(name))
                &&& holds(reply, "owner"@, JsonData::Text(agent))
                &&& keys_of(reply) == set!["ok"@, "room"@, "owner"@]
            })
            &&& given(b, "name"@, name) && t.rooms.contains_key(name) && t.rooms[name].owner
                != agent ==> (o matches Outcome::Refused(e) && e.code == 409)
            &&& lacks(b, "name"@) ==> (o matches Outcome::Refused(e) && e.code == 400)
        }),
{
    lemma_names();
    match outcome(t, "create-room"@, agent, b, now, noted) {
        Outcome::Done { tables, reply } => {
            assert(keys_of(reply) =~= set!["ok"@, "room"@, "owner"@]);
            assert(given(b, "name"@, text_field(b, "name"@)->0));
        },
        Outcome::Refused(e) => {
            if e.code == 409 {
                assert(given(b, "name"@, text_field(b, "name"@)->0));
            }
        },
    }
}

/// `join` makes the caller a member of the room, and `leave` makes it none; nobody else is
/// affected, and nothing else changes. A room that does not exist is refused with 404.
pub proof fn law_join_leave(
    t: Tables,
    agent: Seq<char>,
    b: JsonData,
    now: int,
    noted: bool,
    room: Seq<char>,
    joins: bool,
)
    ensures
        ({
            let o = outcome(
                t,
                if joins {
                    "join"@
                } else {
                    "leave"@
                },
                agent,
                b,
                now,
                noted,
            );
            &&& given(b, "room"@, room) && t.rooms.contains_key(room) ==> (o matches Outcome::Done {
                tables,
                reply,
            } && {
                &&& tables == (Tables { members: tables.members, ..t })
                &&& tables.members.contains((room, agent)) == joins
                &&& forall|r: Seq<char>, a: Seq<char>|
                    r != room || a != agent ==> #[trigger] tables.members.contains((r, a))
                        == t.members.contains((r, a))
                &&& holds(reply, "ok"@, JsonData::Bool(true))
                &&& holds(reply, "room"@, JsonData::Text(room))
                &&& keys_of(reply) == set!["ok"@, "room"@]
            })
            &&& given(b, "room"@, room) && !t.rooms.contains_key(room) ==> (o matches Outcome::Refused(
                e,
            ) && e.code == 404)
            &&& lacks(b, "room"@) ==> (o matches Outcome::Refused(e) && e.code == 400)
        }),
{
    lemma_names();
    let action = if joins {
        "join"@
    } else {
        "leave"@
    };
    match outcome(t, action, agent, b, now, noted) {
        Outcome::Done { tables, reply } => {
            assert(keys_of(reply) =~= set!["ok"@, "room"@]);
            assert(given(b, "room"@, text_field(b, "room"@)->0));
        },
        Outcome::Refused(e) => {
            if e.code == 404 {
                assert(given(b, "room"@, text_field(b, "room"@)->0));
            }
        },
    }
}

/// `destroy-room`, asked by the owner, takes away the room, its members and its messages, and
/// nothing else: the messages of other rooms stay in their order, and numbers are not given out
/// again. Others are refused with 403, and a room that does not exist with 404.
pub proof fn law_destroy_room(
    t: Tables,
    agent: Seq<char>,
    b: JsonData,
    now: int,
    noted: bool,
    room: Seq<char>,
)
    ensures
        ({
            let o = outcome(t, "destroy-room"@, agent, b, now, noted);
            &&& given(b, "room"@, room) && t.rooms.contains_key(room) && t.rooms[room].owner
                == agent ==> (o matches Outcome::Done { tables, reply } && {
                &&& tables == (Tables {
                    rooms: tables.rooms,
                    members: tables.members,
                    messages: tables.messages,
                    ..t
                })
                &&& tables.rooms == t.rooms.remove(room)
                &&& forall|r: Seq<char>, a: Seq<char>| #[trigger]
                    tables.members.contains((r, a)) <==> r != room && t.members.contains((r, a))
                &&& tables.messages == t.messages.filter(|m: MessageData| m.room != room)
                &&& holds(reply, "ok"@, JsonData::Bool(true))
                &&& holds(reply, "destroyed"@, JsonData::Text(room))
                &&& keys_of(reply) == set!["ok"@, "destroyed"@]
            })
            &&& given(b, "room"@, room) && t.rooms.contains_key(room) && t.rooms[room].owner
                != agent ==> (o matches Outcome::Refused(e) && e.code == 403)
            &&& given(b, "room"@, room) && !t.rooms.contains_key(room) ==> (o matches Outcome::Refused(
                e,
            ) && e.code == 404)
            &&& lacks(b, "room"@) ==> (o matches Outcome::Refused(e) && e.code == 400)
        }),
{
    lemma_names();
    match outcome(t, "destroy-room"@, agent, b, now, noted) {
        Outcome::Done { tables, reply } => {
            let r = text_field(b, "room"@)->0;
            assert(keys_of(reply) =~= set!["ok"@, "destroyed"@]);
            assert(given(b, "room"@, r));
            if r == room {
                lemma_filter_agree(
                    t.messages,
                    |m: MessageData| m.room != r,
                    |m: MessageData| m.room != room,
                );
            }
        },
        Outcome::Refused(e) => {
            if e.code != 400 {
                assert(given(b, "room"@, text_field(b, "room"@)->0));
            }
        },
    }
}

/// `invite`, asked by a member, makes the one that it names a member of that room, and known
/// under the status `active` if it was not and could be noted. Others are refused with 403, and
/// a room that does not exist with 404.
pub proof fn law_invite(
    t: Tables,
    agent: Seq<char>,
    b: JsonData,
    now: int,
    noted: bool,
    room: Seq<char>,
    target: Seq<char>,
)
    ensures
        ({
            let o = outcome(t, "invite"@, agent, b, now, noted);
            let asked = given(b, "room"@, room) && given(b, "target"@, target);
            &&& asked && t.rooms.contains_key(room) && t.members.contains((room, agent)) ==> (
            o matches Outcome::Done { tables, reply } && {
                &&& tables == (Tables { agents: tables.agents, members: tables.members, ..t })
                &&& forall|r: Seq<char>, a: Seq<char>| #[trigger]
                    tables.members.contains((r, a)) <==> (r == room && a == target)
                        || t.members.contains((r, a))
                &&& forall|a: Seq<char>| #[trigger]
                    tables.agents.contains_key(a) <==> t.agents.contains_key(a) || (noted && a
                        == target)
                &&& forall|a: Seq<char>|
                    t.agents.contains_key(a) ==> #[trigger] tables.agents[a] == t.agents[a]
                &&& !t.agents.contains_key(target) && noted ==> tables.agents[target] == "active"@
                &&& holds(reply, "ok"@, JsonData::Bool(true))
                &&& holds(reply, "room"@, JsonData::Text(room))
                &&& holds(reply, "invited"@, JsonData::Text(target))
                &&& keys_of(reply) == set!["ok"@, "room"@, "invited"@]
            })
            &&& asked && t.rooms.contains_key(room) && !t.members.contains((room, agent)) ==> (
            o matches Outcome::Refused(e) && e.code == 403)
            &&& asked && !t.rooms.contains_key(room) ==> (o matches Outcome::Refused(e) && e.code
                == 404)
            &&& lacks(b, "room"@) || lacks(b, "target"@) ==> (o matches Outcome::Refused(e)
                && e.code == 400)
        }),
{
    lemma_names();
    match outcome(t, "invite"@, agent, b, now, noted) {
        Outcome::Done { tables, reply } => {
            assert(keys_of(reply) =~= set!["ok"@, "room"@, "invited"@]);
            assert(given(b, "room"@, text_field(b, "room"@)->0));
            assert(given(b, "target"@, text_field(b, "target"@)->0));
        },
        Outcome::Refused(e) => {
            if e.code != 400 {
                assert(given(b, "room"@, text_field(b, "room"@)->0));
                assert(given(b, "target"@, text_field(b, "target"@)->0));
            }
        },
    }
}

/// `kick`, asked by the owner, takes the one that it names out of that room, and nothing else
/// changes. Others are refused with 403, and a room that does not exist with 404.
pub proof fn law_kick(
    t: Tables,
    agent: Seq<char>,
    b: JsonData,
    now: int,
    noted: bool,
    room: Seq<char>,
    target: Seq<char>,
)
    ensures
        ({
            let o = outcome(t, "kick"@, agent, b, now, noted);
            let asked = given(b, "room"@, room) && given(b, "target"@, target);
            &&& asked && t.rooms.contains_key(room) && t.rooms[room].owner == agent ==> (
            o matches Outcome::Done { tables, reply } && {
                &&& tables == (Tables { members: tables.members, ..t })
                &&& forall|r: Seq<char>, a: Seq<char>| #[trigger]
                    tables.members.contains((r, a)) <==> t.members.contains((r, a)) && !(r == room
                        && a == target)
                &&& holds(reply, "ok"@, JsonData::Bool(true))
                &&& holds(reply, "room"@, JsonData::Text(room))
                &&& holds(reply, "kicked"@, JsonData::Text(target))
                &&& keys_of(reply) == set!["ok"@, "room"@, "kicked"@]
            })
            &&& asked && t.rooms.contains_key(room) && t.rooms[room].owner != agent ==> (
            o matches Outcome::Refused(e) && e.code == 403)
            &&& asked && !t.rooms.contains_key(room) ==> (o matches Outcome::Refused(e) && e.code
                == 404)
            &&& lacks(b, "room"@) || lacks(b, "target"@) ==> (o matches Outcome::Refused(e)
                && e.code == 400)
        }),
{
    lemma_names();
    match outcome(t, "kick"@, agent, b, now, noted) {
        Outcome::Done { tables, reply } => {
            assert(keys_of(reply) =~= set!["ok"@, "room"@, "kicked"@]);
            assert(given(b, "room"@, text_field(b, "room"@)->0));
            assert(given(b, "target"@, text_field(b, "target"@)->0));
        },
        Outcome::Refused(e) => {
            if e.code != 400 {
                assert(given(b, "room"@, text_field(b, "room"@)->0));
                assert(given(b, "target"@, text_field(b, "target"@)->0));
            }
        },
    }
}

/// `send`, asked by a member, adds one message at the end, with the next number, the room, the
/// sender, the text and the time, and nothing else changes. Others are refused with 403, and a
/// room that does not exist with 404.
pub proof fn law_send(
    t: Tables,
    agent: Seq<char>,
    b: JsonData,
    now: int,
    noted: bool,
    room: Seq<char>,
    text: Seq<char>,
)
    ensures
        ({
            let o = outcome(t, "send"@, agent, b, now, noted);
            let asked = given(b, "room"@, room) && given(b, "text"@, text);
            &&& asked && t.rooms.contains_key(room) && t.members.contains((room, agent)) ==> (
            o matches Outcome::Done { tables, reply } && {
                let m = tables.messages.last();
                &&& tables == (Tables {
                    messages: tables.messages,
                    message_high: t.message_high + 1,
                    ..t
                })
                &&& tables.messages.len() == t.messages.len() + 1
                &&& tables.messages.drop_last() == t.messages
                &&& m.seq == t.message_high + 1
                &&& m.room == room
                &&& m.from == agent
                &&& m.text == text
                &&& m.ts == Some(now)
                &&& holds(reply, "ok"@, JsonData::Bool(true))
                &&& holds(reply, "seq"@, JsonData::Int(m.seq))
                &&& keys_of(reply) == set!["ok"@, "seq"@]
            })
            &&& asked && t.rooms.contains_key(room) && !t.members.contains((room, agent)) ==> (
            o matches Outcome::Refused(e) && e.code == 403)
            &&& asked && !t.rooms.contains_key(room) ==> (o matches Outcome::Refused(e) && e.code
                == 404)
            &&& lacks(b, "room"@) || lacks(b, "text"@) ==> (o matches Outcome::Refused(e)
                && e.code == 400)
        }),
{
    lemma_names();
    match outcome(t, "send"@, agent, b, now, noted) {
        Outcome::Done { tables, reply } => {
            assert(keys_of(reply) =~= set!["ok"@, "seq"@]);
            assert(given(b, "room"@, text_field(b, "room"@)->0));
            assert(given(b, "text"@, text_field(b, "text"@)->0));
            assert(tables.messages.drop_last() =~= t.messages);
        },
        Outcome::Refused(e) => {
            if e.code != 400 {
                assert(given(b, "room"@, text_field(b, "room"@)->0));
                assert(given(b, "text"@, text_field(b, "text"@)->0));
            }
        },
    }
}

/// `dm` adds one message at the end, under the key made of the two names in their order, with the
/// next number, the sender, the text and the time. Its addressee becomes known under the status
/// `active` if it was not and could be noted; nothing else changes. No membership is needed.
pub proof fn law_dm(
    t: Tables,
    agent: Seq<char>,
    b: JsonData,
    now: int,
    noted: bool,
    to: Seq<char>,
    text: Seq<char>,
)
    ensures
        ({
            let o = outcome(t, "dm"@, agent, b, now, noted);
            &&& given(b, "to"@, to) && given(b, "text"@, text) ==> (o matches Outcome::Done {
                tables,
                reply,
            } && {
                let m = tables.messages.last();
                &&& tables == (Tables {
                    agents: tables.agents,
                    messages: tables.messages,
                    message_high: t.message_high + 1,
                    ..t
                })
                &&& tables.messages.len() == t.messages.len() + 1
                &&& tables.messages.drop_last() == t.messages
                &&& m.seq == t.message_high + 1
                &&& m.room == seq!['@'] + agent + seq!['|'] + to || m.room == seq!['@'] + to
                    + seq!['|'] + agent
                &&& text_lt(agent, to) ==> m.room == seq!['@'] + agent + seq!['|'] + to
                &&& text_lt(to, agent) ==> m.room == seq!['@'] + to + seq!['|'] + agent
                &&& m.from == agent
                &&& m.text == text
                &&& m.ts == Some(now)
                &&& forall|a: Seq<char>| #[trigger]
                    tables.agents.contains_key(a) <==> t.agents.contains_key(a) || (noted && a
                        == to)
                &&& forall|a: Seq<char>|
                    t.agents.contains_key(a) ==> #[trigger] tables.agents[a] == t.agents[a]
                &&& !t.agents.contains_key(to) && noted ==> tables.agents[to] == "active"@
                &&& holds(reply, "ok"@, JsonData::Bool(true))
                &&& holds(reply, "seq"@, JsonData::Int(m.seq))
                &&& keys_of(reply) == set!["ok"@, "seq"@]
            })
            &&& lacks(b, "to"@) || lacks(b, "text"@) ==> (o matches Outcome::Refused(e) && e.code
                == 400)
        }),
{
    lemma_names();
    reveal_strlit("@");
    reveal_strlit("|");
    assert("@"@ =~= seq!['@'] && "|"@ =~= seq!['|']);
    if text_lt(to, agent) && text_le(agent, to) {
        lemma_text_le_antisym(agent, to);
    }
    match outcome(t, "dm"@, agent, b, now, noted) {
        Outcome::Done { tables, reply } => {
            assert(keys_of(reply) =~= set!["ok"@, "seq"@]);
            assert(given(b, "to"@, text_field(b, "to"@)->0));
            assert(given(b, "text"@, text_field(b, "text"@)->0));
            assert(tables.messages.drop_last() =~= t.messages);
        },
        Outcome::Refused(e) => {},
    }
}

/// Messages in a reply tell what they are.
proof fn lemma_messages_told(messages: Seq<MessageData>)
    ensures
        messages_json(messages) matches JsonData::Array(a) && a.len() == messages.len()
            && forall|i: int| 0 <= i < a.len() ==> tells_message(#[trigger] a[i], messages[i]),
{
    lemma_names();
    let a = messages_json(messages)->Array_0;
    assert forall|i: int| 0 <= i < a.len() implies tells_message(#[trigger] a[i], messages[i]) by {
        assert(a[i] == message_json(messages[i]));
    }
}

/// The messages of a room behind a number, in their order.
pub open spec fn behind(t: Tables, room: Seq<char>, since: int) -> Seq<MessageData> {
    t.messages.filter(|m: MessageData| m.room == room && m.seq > since)
}

/// What is found under one key is what stands behind the number.
proof fn lemma_behind(t: Tables, room: Seq<char>, since: int)
    ensures
        messages_after(t.messages, set![room], since) == behind(t, room, since),
{
    lemma_filter_agree(
        t.messages,
        |m: MessageData| set![room].contains(m.room) && m.seq > since,
        |m: MessageData| m.room == room && m.seq > since,
    );
}

/// `read`, and `peek` alike, tell the messages of the room behind the number that was asked for,
/// or behind the caller's cursor, or all of them. The cursor goes to the last of them, unless
/// there was none or the flag `peek` is set; nothing else changes. No membership is needed, and
/// the room need not exist.
pub proof fn law_read(
    t: Tables,
    agent: Seq<char>,
    b: JsonData,
    now: int,
    noted: bool,
    room: Seq<char>,
    since: int,
    peek: bool,
)
    requires
        number_field(b, "since"@) matches Some(n) ==> since == n,
        number_field(b, "since"@) is None && t.cursors.contains_key((agent, room)) ==> since
            == t.cursors[(agent, room)],
        number_field(b, "since"@) is None && !t.cursors.contains_key((agent, room)) ==> since == 0,
    ensures
        ({
            let o = outcome(
                t,
                if peek {
                    "peek"@
                } else {
                    "read"@
                },
                agent,
                b,
                now,
                noted,
            );
            let found = behind(t, room, since);
            &&& given(b, "room"@, room) ==> (o matches Outcome::Done { tables, reply } && {
                &&& holds(reply, "room"@, JsonData::Text(room))
                &&& tells_messages(reply, "messages"@, found)
                &&& keys_of(reply) == set!["room"@, "messages"@]
                &&& found.len() == 0 || holds(b, "peek"@, JsonData::Bool(true)) ==> tables == t
                &&& found.len() > 0 && !holds(b, "peek"@, JsonData::Bool(true)) ==> {
                    &&& tables == (Tables { cursors: tables.cursors, ..t })
                    &&& tables.cursors.contains_key((agent, room))
                    &&& tables.cursors[(agent, room)] == found.last().seq
                    &&& tables.cursors.remove((agent, room)) == t.cursors.remove((agent, room))
                }
            })
            &&& lacks(b, "room"@) ==> (o matches Outcome::Refused(e) && e.code == 400)
        }),
{
    lemma_names();
    let action = if peek {
        "peek"@
    } else {
        "read"@
    };
    lemma_behind(t, room, since);
    lemma_messages_told(behind(t, room, since));
    match outcome(t, action, agent, b, now, noted) {
        Outcome::Done { tables, reply } => {
            let r = text_field(b, "room"@)->0;
            assert(keys_of(reply) =~= set!["room"@, "messages"@]);
            assert(given(b, "room"@, r));
            if r == room {
                assert(tables.cursors.remove((agent, room)) =~= t.cursors.remove((agent, room)));
            }
        },
        Outcome::Refused(e) => {},
    }
}

/// A room or a channel that concerns an agent: one that it is a member of, or one with messages
/// whose key begins with an `@` and has its name between bars.
pub open spec fn concerns(t: Tables, agent: Seq<char>, key: Seq<char>) -> bool {
    ||| t.members.contains((key, agent))
    ||| key.len() > 0 && key[0] == '@' && has_part(key.skip(1), '|', agent) && exists|i: int|
        0 <= i < t.messages.len() && (#[trigger] t.messages[i]).room == key
}

/// What an agent has not read under a key.
pub open spec fn waiting_for(t: Tables, agent: Seq<char>, key: Seq<char>) -> Seq<MessageData> {
    behind(
        t,
        key,
        if t.cursors.contains_key((agent, key)) {
            t.cursors[(agent, key)]
        } else {
            0
        },
    )
}

/// An entry of an inbox tells a key, how many messages wait there, and these messages.
pub open spec fn tells_waiting(d: JsonData, t: Tables, agent: Seq<char>, key: Seq<char>) -> bool {
    &&& holds(d, "room"@, JsonData::Text(key))
    &&& holds(d, "unread"@, JsonData::Int(waiting_for(t, agent, key).len() as int))
    &&& tells_messages(d, "messages"@, waiting_for(t, agent, key))
    &&& keys_of(d) == set!["room"@, "unread"@, "messages"@]
}

/// An entry of an inbox tells of one of these keys, under which something waits.
pub open spec fn tells_one_of(
    d: JsonData,
    t: Tables,
    agent: Seq<char>,
    wanted: spec_fn(Seq<char>) -> bool,
) -> bool {
    exists|key: Seq<char>|
        wanted(key) && waiting_for(t, agent, key).len() > 0 && #[trigger] tells_waiting(
            d,
            t,
            agent,
            key,
        )
}

/// Entries of an inbox tell of exactly the rooms and channels that concern an agent and under
/// which something waits.
pub open spec fn tells_inbox(a: Seq<JsonData>, t: Tables, agent: Seq<char>) -> bool {
    &&& forall|i: int|
        0 <= i < a.len() ==> tells_one_of(
            #[trigger] a[i],
            t,
            agent,
            |key: Seq<char>| concerns(t, agent, key),
        )
    &&& forall|key: Seq<char>| #[trigger]
        concerns(t, agent, key) && waiting_for(t, agent, key).len() > 0 ==> exists|i: int|
            0 <= i < a.len() && tells_waiting(#[trigger] a[i], t, agent, key)
}

/// What is unread is what waits.
pub proof fn lemma_unread_waits(t: Tables, agent: Seq<char>, key: Seq<char>)
    ensures
        unread(t, agent, key) == waiting_for(t, agent, key),
{
    lemma_behind(t, key, cursor_of(t, agent, key));
}

/// An entry of an inbox tells what waits under its key.
pub proof fn lemma_entry_told(t: Tables, agent: Seq<char>, key: Seq<char>)
    ensures
        tells_waiting(inbox_entry(key, unread(t, agent, key)), t, agent, key),
{
    lemma_names();
    lemma_unread_waits(t, agent, key);
    lemma_messages_told(unread(t, agent, key));
    let d = inbox_entry(key, unread(t, agent, key));
    assert(keys_of(d) =~= set!["room"@, "unread"@, "messages"@]);
}

/// Each entry of an inbox tells of one of the keys under which something waits, and each such
/// key has its entry.
proof fn lemma_inbox_told(t: Tables, agent: Seq<char>, keys: Seq<Seq<char>>)
    ensures
        forall|i: int|
            0 <= i < inbox_entries(t, agent, keys).len() ==> tells_one_of(
                #[trigger] inbox_entries(t, agent, keys)[i],
                t,
                agent,
                |key: Seq<char>| keys.contains(key),
            ),
        forall|key: Seq<char>| #[trigger]
            keys.contains(key) && waiting_for(t, agent, key).len() > 0 ==> exists|i: int|
                0 <= i < inbox_entries(t, agent, keys).len() && tells_waiting(
                    #[trigger] inbox_entries(t, agent, keys)[i],
                    t,
                    agent,
                    key,
                ),
    decreases keys.len(),
{
    if keys.len() > 0 {
        let front = keys.drop_last();
        let all = inbox_entries(t, agent, keys);
        let first = inbox_entries(t, agent, front);
        let last = keys.last();
        lemma_inbox_told(t, agent, front);
        lemma_unread_waits(t, agent, last);
        lemma_entry_told(t, agent, last);
        assert(keys.contains(last)) by {
            assert(keys[keys.len() - 1] == last);
        }
        let wanted = |key: Seq<char>| keys.contains(key);
        assert forall|i: int| 0 <= i < all.len() implies tells_one_of(
            #[trigger] all[i],
            t,
            agent,
            wanted,
        ) by {
            if i < first.len() {
                assert(all[i] == first[i]);
                let earlier = |key: Seq<char>| front.contains(key);
                assert(tells_one_of(first[i], t, agent, earlier));
                let key = choose|key: Seq<char>|
                    earlier(key) && waiting_for(t, agent, key).len() > 0
                        && #[trigger] tells_waiting(first[i], t, agent, key);
                let k = choose|k: int| 0 <= k < front.len() && front[k] == key;
                assert(keys[k] == key);
                assert(wanted(key) && tells_waiting(all[i], t, agent, key));
            } else {
                assert(wanted(last) && tells_waiting(all[i], t, agent, last));
            }
        }
        assert forall|key: Seq<char>| #[trigger]
            keys.contains(key) && waiting_for(t, agent, key).len() > 0 implies exists|i: int|
            0 <= i < all.len() && tells_waiting(#[trigger] all[i], t, agent, key) by {
            if key == last {
                assert(tells_waiting(all[all.len() - 1], t, agent, key));
            } else {
                let k = choose|k: int| 0 <= k < keys.len() && keys[k] == key;
                assert(front[k] == key);
                assert(front.contains(key));
                let i = choose|i: int|
                    0 <= i < first.len() && tells_waiting(#[trigger] first[i], t, agent, key);
                assert(all[i] == first[i]);
            }
        }
    }
}

/// The keys that are looked through for an agent are those that concern it.
proof fn lemma_relevant(t: Tables, agent: Seq<char>, key: Seq<char>)
    requires
        t.members.finite(),
    ensures
        relevant_keys(t, agent).contains(key) <==> concerns(t, agent, key),
{
    let rooms = sorted(rooms_of(t, agent));
    lemma_rooms_finite(t, agent);
    lemma_lists_exist(rooms_of(t, agent));
    let open = channels(t.messages);
    lemma_channels_finite(t.messages);
    lemma_lists_exist(open);
    let all = sorted(open);
    let names = |k: Seq<char>| has_part(k.skip(1), '|', agent);
    let kept = all.filter(names);
    let keys = relevant_keys(t, agent);
    lemma_filter_agree(all, names, |key: Seq<char>| has_part(key.skip(1), '|', agent));
    assert(keys =~= rooms + kept);
    assert(rooms_of(t, agent).contains(key) <==> rooms.contains(key));
    assert(open.contains(key) <==> all.contains(key));
    if keys.contains(key) {
        let i = choose|i: int| 0 <= i < keys.len() && keys[i] == key;
        if i < rooms.len() {
            assert(rooms[i] == key);
        } else {
            assert(kept[i - rooms.len()] == key);
            assert(kept.contains(key));
            all.lemma_filter_contains_rev(names, key);
            all.lemma_filter_pred(names, i - rooms.len());
        }
    }
    if concerns(t, agent, key) {
        if rooms.contains(key) {
            let i = choose|i: int| 0 <= i < rooms.len() && rooms[i] == key;
            assert(keys[i] == key);
        } else {
            let i = choose|i: int| 0 <= i < all.len() && all[i] == key;
            all.lemma_filter_contains(names, i);
            let j = choose|j: int| 0 <= j < kept.len() && kept[j] == key;
            assert(keys[rooms.len() + j] == key);
        }
    }
}

/// `inbox` changes nothing. Each of its entries tells of a room or channel that concerns the
/// caller, and under which messages wait for it, how many they are and which, in their order;
/// and each such room or channel has its entry.
pub proof fn law_inbox(t: Tables, agent: Seq<char>, b: JsonData, now: int, noted: bool)
    requires
        t.members.finite(),
    ensures
        outcome(t, "inbox"@, agent, b, now, noted) matches Outcome::Done { tables, reply } && {
            &&& tables == t
            &&& keys_of(reply) == set!["inbox"@]
            &&& field(reply, "inbox"@) matches Some(JsonData::Array(a)) && tells_inbox(a, t, agent)
        },
{
    lemma_names();
    let reply = outcome(t, "inbox"@, agent, b, now, noted)->reply;
    assert(keys_of(reply) =~= set!["inbox"@]);
    let keys = relevant_keys(t, agent);
    let a = inbox_entries(t, agent, keys);
    assert(field(reply, "inbox"@) == Some(JsonData::Array(a)));
    lemma_inbox_complete(t, agent);
}

/// The entries that are made for an agent tell what waits for it.
proof fn lemma_inbox_complete(t: Tables, agent: Seq<char>)
    requires
        t.members.finite(),
    ensures
        tells_inbox(inbox_entries(t, agent, relevant_keys(t, agent)), t, agent),
{
    let keys = relevant_keys(t, agent);
    let a = inbox_entries(t, agent, keys);
    lemma_inbox_told(t, agent, keys);
    let wanted = |key: Seq<char>| concerns(t, agent, key);
    assert forall|i: int| 0 <= i < a.len() implies tells_one_of(
        #[trigger] a[i],
        t,
        agent,
        wanted,
    ) by {
        let listed = |key: Seq<char>| keys.contains(key);
        assert(tells_one_of(a[i], t, agent, listed));
        let key = choose|key: Seq<char>|
            listed(key) && waiting_for(t, agent, key).len() > 0 && #[trigger] tells_waiting(
                a[i],
                t,
                agent,
                key,
            );
        lemma_relevant(t, agent, key);
        assert(wanted(key) && tells_waiting(a[i], t, agent, key));
    }
    assert forall|key: Seq<char>| #[trigger]
        concerns(t, agent, key) && waiting_for(t, agent, key).len() > 0 implies exists|i: int|
        0 <= i < a.len() && tells_waiting(#[trigger] a[i], t, agent, key) by {
        lemma_relevant(t, agent, key);
        assert(keys.contains(key));
    }
}

/// The kinds of events.
pub open spec fn is_kind(kind: Seq<char>) -> bool {
    kind == "task-start"@ || kind == "task-done"@ || kind == "task-error"@ || kind == "task-abort"@
        || kind == "step"@ || kind == "phase"@ || kind == "blocked"@ || kind == "handoff"@
}

/// The kinds of events, and the field that each needs: tasks need `task`, a phase needs `phase`,
/// a block and a handoff need `target`, and a step needs one of its numbers.
pub open spec fn says_enough(b: JsonData, kind: Seq<char>) -> bool {
    ||| (kind == "task-start"@ || kind == "task-done"@ || kind == "task-error"@ || kind
        == "task-abort"@) && text_field(b, "task"@) is Some
    ||| kind == "phase"@ && text_field(b, "phase"@) is Some
    ||| (kind == "blocked"@ || kind == "handoff"@) && text_field(b, "target"@) is Some
    ||| kind == "step"@ && (number_field(b, "step_cur"@) is Some || number_field(b, "step_total"@) is Some
        || number_field(b, "percent"@) is Some)
}

/// `event` adds one event at the end, with the next number, the room, the caller, the kind, the
/// time, and the fields of the request under their own names; nothing else changes. One that says
/// too little for its kind, or is of no known kind, is refused with 400, and one for a room that
/// does not exist with 404. No membership is needed.
pub proof fn law_event(
    t: Tables,
    agent: Seq<char>,
    b: JsonData,
    now: int,
    noted: bool,
    room: Seq<char>,
    kind: Seq<char>,
)
    ensures
        ({
            let o = outcome(t, "event"@, agent, b, now, noted);
            let asked = given(b, "room"@, room) && given(b, "kind"@, kind);
            &&& asked && says_enough(b, kind) && t.rooms.contains_key(room) ==> (
            o matches Outcome::Done { tables, reply } && {
                let e = tables.events.last();
                &&& tables == (Tables { events: tables.events, event_high: t.event_high + 1, ..t })
                &&& tables.events.len() == t.events.len() + 1
                &&& tables.events.drop_last() == t.events
                &&& e.seq == t.event_high + 1
                &&& e.room == room
                &&& e.agent == agent
                &&& e.kind == kind
                &&& e.task == text_field(b, "task"@)
                &&& e.phase == text_field(b, "phase"@)
                &&& e.step_cur == number_field(b, "step_cur"@)
                &&& e.step_total == number_field(b, "step_total"@)
                &&& e.percent == number_field(b, "percent"@)
                &&& e.target == text_field(b, "target"@)
                &&& e.note == text_field(b, "note"@)
                &&& e.ts == now
                &&& holds(reply, "ok"@, JsonData::Bool(true))
                &&& holds(reply, "seq"@, JsonData::Int(e.seq))
                &&& holds(reply, "ts"@, JsonData::Int(now))
                &&& keys_of(reply) == set!["ok"@, "seq"@, "ts"@]
            })
            &&& asked && !is_kind(kind) ==> (o matches Outcome::Refused(e) && e.code == 400)
            &&& asked && is_kind(kind) && !t.rooms.contains_key(room) ==> (
            o matches Outcome::Refused(e) && e.code == 404)
            &&& asked && t.rooms.contains_key(room) && !says_enough(b, kind) ==> (
            o matches Outcome::Refused(e) && e.code == 400)
            &&& lacks(b, "room"@) || lacks(b, "kind"@) ==> (o matches Outcome::Refused(e)
                && e.code == 400)
        }),
{
    lemma_names();
    reveal_strlit("");
    reveal_strlit("task");
    reveal_strlit("phase");
    reveal_strlit("target");
    assert(""@.len() == 0 && "task"@.len() == 4 && "phase"@.len() == 5 && "target"@.len() == 6);
    match outcome(t, "event"@, agent, b, now, noted) {
        Outcome::Done { tables, reply } => {
            assert(keys_of(reply) =~= set!["ok"@, "seq"@, "ts"@]);
            assert(given(b, "room"@, text_field(b, "room"@)->0));
            assert(given(b, "kind"@, text_field(b, "kind"@)->0));
            assert(tables.events.drop_last() =~= t.events);
        },
        Outcome::Refused(e) => {
            if e.code != 400 {
                assert(given(b, "room"@, text_field(b, "room"@)->0));
                assert(given(b, "kind"@, text_field(b, "kind"@)->0));
            }
        },
    }
}

/// `events` changes nothing, and tells the events behind the number that was asked for, or all of
/// them: those of the room that was named, or of all rooms.
pub proof fn law_events(
    t: Tables,
    agent: Seq<char>,
    b: JsonData,
    now: int,
    noted: bool,
    since: int,
    room: Seq<char>,
)
    requires
        number_field(b, "since"@) matches Some(n) ==> since == n,
        number_field(b, "since"@) is None ==> since == 0,
    ensures
        outcome(t, "events"@, agent, b, now, noted) matches Outcome::Done { tables, reply } && {
            &&& tables == t
            &&& keys_of(reply) == set!["events"@]
            &&& holds(b, "room"@, JsonData::Text(room)) ==> tells_events(
                reply,
                "events"@,
                t.events.filter(|e: ProgressData| e.room == room && e.seq > since),
            )
            &&& text_field(b, "room"@) is None ==> tells_events(
                reply,
                "events"@,
                t.events.filter(|e: ProgressData| e.seq > since),
            )
        },
{
    lemma_names();
    let reply = outcome(t, "events"@, agent, b, now, noted)->reply;
    assert(keys_of(reply) =~= set!["events"@]);
    match text_field(b, "room"@) {
        Some(r) => {
            lemma_events_told(events_after(t.events, set![r], since));
            if r == room {
                lemma_filter_agree(
                    t.events,
                    |e: ProgressData| set![r].contains(e.room) && e.seq > since,
                    |e: ProgressData| e.room == room && e.seq > since,
                );
            }
        },
        None => {
            lemma_events_told(all_events_after(t.events, since));
        },
    }
}

/// Events in a reply tell what they are.
pub proof fn lemma_events_told(events: Seq<ProgressData>)
    ensures
        events_json(events) matches JsonData::Array(a) && a.len() == events.len()
            && forall|i: int| 0 <= i < a.len() ==> tells_event(#[trigger] a[i], events[i]),
{
    let a = events_json(events)->Array_0;
    assert forall|i: int| 0 <= i < a.len() implies tells_event(#[trigger] a[i], events[i]) by {
        lemma_event_told(events[i]);
    }
}

/// An event in a reply tells what it is.
pub proof fn lemma_event_told(e: ProgressData)
    ensures
        tells_event(event_json(e), e),
{
    lemma_names();
}

/// Any other action is refused with 404, whatever is asked.
pub proof fn law_no_other_action(
    t: Tables,
    action: Seq<char>,
    agent: Seq<char>,
    b: JsonData,
    now: int,
    noted: bool,
)
    requires
        action != "register"@ && action != "whoami"@ && action != "agents"@ && action != "status"@
            && action != "create-room"@ && action != "rooms"@ && action != "join"@ && action
            != "leave"@ && action != "destroy-room"@ && action != "send"@ && action != "dm"@
            && action != "read"@ && action != "peek"@ && action != "inbox"@ && action != "invite"@
            && action != "kick"@ && action != "event"@ && action != "events"@,
    ensures
        outcome(t, action, agent, b, now, noted) matches Outcome::Refused(e) && e.code == 404
            && e.msg == "unknown action "@ + quoted(action),
{
}

/// A refusal says why: which field is missing, which room does not exist, who is no member, and
/// who owns the room.
pub proof fn law_refusals_say_why(
    t: Tables,
    action: Seq<char>,
    agent: Seq<char>,
    b: JsonData,
    now: int,
    noted: bool,
    room: Seq<char>,
)
    ensures
        ({
            let o = outcome(t, action, agent, b, now, noted);
            let about_room = action == "join"@ || action == "leave"@ || action == "destroy-room"@
                || action == "send"@ || action == "read"@ || action == "peek"@ || action
                == "invite"@ || action == "kick"@ || action == "event"@;
            &&& about_room && lacks(b, "room"@) ==> (o matches Outcome::Refused(e) && e.msg
                == "missing field "@ + quoted("room"@))
            &&& action == "dm"@ && lacks(b, "to"@) ==> (o matches Outcome::Refused(e) && e.msg
                == "missing field "@ + quoted("to"@))
            &&& action == "create-room"@ && lacks(b, "name"@) ==> (o matches Outcome::Refused(e)
                && e.msg == "missing field "@ + quoted("name"@))
            &&& action == "status"@ && lacks(b, "state"@) ==> (o matches Outcome::Refused(e)
                && e.msg == "missing field "@ + quoted("state"@))
            &&& (action == "send"@ && given(b, "room"@, room) || action == "dm"@ && given(
                b,
                "to"@,
                room,
            )) && lacks(b, "text"@) ==> (o matches Outcome::Refused(e) && e.msg
                == "missing field "@ + quoted("text"@))
            &&& (action == "invite"@ || action == "kick"@) && given(b, "room"@, room) && lacks(
                b,
                "target"@,
            ) ==> (o matches Outcome::Refused(e) && e.msg == "missing field "@ + quoted("target"@))
            &&& action == "event"@ && given(b, "room"@, room) && lacks(b, "kind"@) ==> (
            o matches Outcome::Refused(e) && e.msg == "missing field "@ + quoted("kind"@))
            &&& about_room && given(b, "room"@, room) ==> (o matches Outcome::Refused(e) ==> {
                &&& e.code == 404 ==> e.msg == "no room "@ + quoted(room)
                &&& e.code == 403 && (action == "send"@ || action == "invite"@) ==> e.msg == quoted(
                    agent,
                ) + " is not a member of "@ + quoted(room)
                &&& e.code == 403 && (action == "destroy-room"@ || action == "kick"@) ==> e.msg
                    == "not owner of "@ + quoted(room) + " (owner "@ + quoted(t.rooms[room].owner)
                    + ")"@
            })
            &&& action == "create-room"@ && given(b, "name"@, room) ==> (o matches Outcome::Refused(e)
                ==> e.code == 409 && e.msg == "room "@ + quoted(room) + " already exists (owner "@
                + quoted(t.rooms[room].owner) + ")"@)
        }),
{
    lemma_names();
    lemma_lacking(b, "room"@);
    lemma_lacking(b, "to"@);
    lemma_lacking(b, "name"@);
    lemma_lacking(b, "state"@);
    lemma_lacking(b, "text"@);
    lemma_lacking(b, "target"@);
    lemma_lacking(b, "kind"@);
}

/// A field that is lacking is not there as it is needed.
proof fn lemma_lacking(b: JsonData, key: Seq<char>)
    ensures
        lacks(b, key) <==> needed(b, key) is None,
        needed(b, key) matches Some(s) ==> given(b, key, s),
{
    match text_field(b, key) {
        Some(s) => {
            if s.len() > 0 {
                assert(given(b, key, s));
            }
        },
        None => {},
    }
}

/// The entries of an inbox come in order: first the rooms that the caller is a member of, then the
/// channels, each in the order of their names.
pub open spec fn inbox_in_order(a: Seq<JsonData>, t: Tables, agent: Seq<char>, n: int) -> bool {
    &&& 0 <= n <= a.len()
    &&& forall|i: int|
        0 <= i < a.len() ==> text_field(#[trigger] a[i], "room"@) is Some && (if i < n {
            t.members.contains((text_field(a[i], "room"@)->0, agent))
        } else {
            text_field(a[i], "room"@)->0.len() > 0 && text_field(a[i], "room"@)->0[0] == '@'
        })
    &&& forall|i: int, j: int|
        0 <= i < j < a.len() && (j < n || n <= i) ==> text_lt(
            text_field(#[trigger] a[i], "room"@)->0,
            text_field(#[trigger] a[j], "room"@)->0,
        )
}

/// Some of the first entries are about rooms, the others about channels, in order.
pub open spec fn rooms_then_channels(a: Seq<JsonData>, t: Tables, agent: Seq<char>) -> bool {
    exists|n: int| inbox_in_order(a, t, agent, n)
}

/// `inbox` shows the rooms before the channels, and each of them in the order of their names.
pub proof fn law_inbox_order(t: Tables, agent: Seq<char>, b: JsonData, now: int, noted: bool)
    requires
        t.members.finite(),
    ensures
        outcome(t, "inbox"@, agent, b, now, noted) matches Outcome::Done { reply, .. } && (field(
            reply,
            "inbox"@,
        ) matches Some(JsonData::Array(a)) && rooms_then_channels(a, t, agent)),
{
    lemma_names();
    let rooms = sorted(rooms_of(t, agent));
    lemma_rooms_finite(t, agent);
    lemma_lists_exist(rooms_of(t, agent));
    let open = channels(t.messages);
    lemma_channels_finite(t.messages);
    lemma_lists_exist(open);
    let all = sorted(open);
    let names = |key: Seq<char>| has_part(key.skip(1), '|', agent);
    let kept = all.filter(names);
    let keys = relevant_keys(t, agent);
    assert(keys == rooms + kept);
    lemma_filter_ascending(all, names);
    lemma_inbox_parts(t, agent, rooms, kept);
    lemma_inbox_ascending(t, agent, rooms);
    lemma_inbox_ascending(t, agent, kept);
    let x = inbox_entries(t, agent, rooms);
    let y = inbox_entries(t, agent, kept);
    let a = x + y;
    let reply = outcome(t, "inbox"@, agent, b, now, noted)->reply;
    assert(field(reply, "inbox"@) == Some(JsonData::Array(a)));
    assert forall|i: int| 0 <= i < a.len() implies text_field(#[trigger] a[i], "room"@) is Some && (
    if i < x.len() {
        t.members.contains((text_field(a[i], "room"@)->0, agent))
    } else {
        text_field(a[i], "room"@)->0.len() > 0 && text_field(a[i], "room"@)->0[0] == '@'
    }) by {
        if i < x.len() {
            assert(a[i] == x[i]);
            let key = text_field(x[i], "room"@)->0;
            assert(rooms.contains(key));
            assert(rooms_of(t, agent).contains(key));
        } else {
            assert(a[i] == y[i - x.len()]);
            let key = text_field(y[i - x.len()], "room"@)->0;
            assert(kept.contains(key));
            all.lemma_filter_contains_rev(names, key);
            assert(open.contains(key));
        }
    }
    assert forall|i: int, j: int| 0 <= i < j < a.len() && (j < x.len() || x.len() <= i) implies text_lt(
        text_field(#[trigger] a[i], "room"@)->0,
        text_field(#[trigger] a[j], "room"@)->0,
    ) by {
        if j < x.len() {
            assert(a[i] == x[i] && a[j] == x[j]);
        } else {
            assert(a[i] == y[i - x.len()] && a[j] == y[j - x.len()]);
        }
    }
    assert(inbox_in_order(a, t, agent, x.len() as int));
    assert(rooms_then_channels(a, t, agent));
}

proof fn lemma_filter_ascending(v: Seq<Seq<char>>, p: spec_fn(Seq<char>) -> bool)
    requires
        ascending(v),
    ensures
        ascending(v.filter(p)),
    decreases v.len(),
{
    reveal(Seq::filter);
    if v.len() > 0 {
        let front = v.drop_last();
        assert forall|i: int, j: int| 0 <= i < j < front.len() implies text_lt(
            #[trigger] front[i],
            #[trigger] front[j],
        ) by {
            assert(front[i] == v[i] && front[j] == v[j]);
        }
        lemma_filter_ascending(front, p);
        let f = front.filter(p);
        let all = v.filter(p);
        assert forall|i: int, j: int| 0 <= i < j < all.len() implies text_lt(
            #[trigger] all[i],
            #[trigger] all[j],
        ) by {
            if j < f.len() {
                assert(all[i] == f[i] && all[j] == f[j]);
            } else {
                assert(f.contains(f[i]));
                front.lemma_filter_contains_rev(p, f[i]);
                let k = choose|k: int| 0 <= k < front.len() && front[k] == f[i];
                assert(v[k] == f[i]);
                assert(text_lt(v[k], v[v.len() - 1]));
            }
        }
    }
}

proof fn lemma_inbox_parts(t: Tables, agent: Seq<char>, a: Seq<Seq<char>>, b: Seq<Seq<char>>)
    ensures
        inbox_entries(t, agent, a + b) == inbox_entries(t, agent, a) + inbox_entries(t, agent, b),
    decreases b.len(),
{
    let x = inbox_entries(t, agent, a);
    if b.len() == 0 {
        assert(a + b =~= a);
        assert(x + Seq::<JsonData>::empty() =~= x);
    } else {
        lemma_inbox_parts(t, agent, a, b.drop_last());
        assert((a + b).drop_last() =~= a + b.drop_last());
        assert((a + b).last() == b.last());
        let y = inbox_entries(t, agent, b.drop_last());
        let e = inbox_entry(b.last(), unread(t, agent, b.last()));
        assert((x + y).push(e) =~= x + y.push(e));
    }
}

proof fn lemma_inbox_ascending(t: Tables, agent: Seq<char>, keys: Seq<Seq<char>>)
    requires
        ascending(keys),
    ensures
        forall|i: int|
            0 <= i < inbox_entries(t, agent, keys).len() ==> text_field(
                #[trigger] inbox_entries(t, agent, keys)[i],
                "room"@,
            ) is Some && keys.contains(
                text_field(inbox_entries(t, agent, keys)[i], "room"@)->0,
            ),
        forall|i: int, j: int|
            0 <= i < j < inbox_entries(t, agent, keys).len() ==> text_lt(
                text_field(#[trigger] inbox_entries(t, agent, keys)[i], "room"@)->0,
                text_field(#[trigger] inbox_entries(t, agent, keys)[j], "room"@)->0,
            ),
    decreases keys.len(),
{
    lemma_names();
    if keys.len() > 0 {
        let front = keys.drop_last();
        assert forall|i: int, j: int| 0 <= i < j < front.len() implies text_lt(
            #[trigger] front[i],
            #[trigger] front[j],
        ) by {
            assert(front[i] == keys[i] && front[j] == keys[j]);
        }
        lemma_inbox_ascending(t, agent, front);
        let x = inbox_entries(t, agent, front);
        let all = inbox_entries(t, agent, keys);
        let last = keys.last();
        let e = inbox_entry(last, unread(t, agent, last));
        assert(text_field(e, "room"@) == Some(last));
        assert(keys[keys.len() - 1] == last);
        assert forall|i: int| 0 <= i < x.len() implies keys.contains(
            text_field(#[trigger] x[i], "room"@)->0,
        ) && text_lt(text_field(x[i], "room"@)->0, last) by {
            let key = text_field(x[i], "room"@)->0;
            let k = choose|k: int| 0 <= k < front.len() && front[k] == key;
            assert(keys[k] == key);
            assert(text_lt(keys[k], keys[keys.len() - 1]));
        }
        assert forall|i: int| 0 <= i < all.len() implies text_field(
            #[trigger] all[i],
            "room"@,
        ) is Some && keys.contains(text_field(all[i], "room"@)->0) by {
            if i < x.len() {
                assert(all[i] == x[i]);
            } else {
                assert(all[i] == e);
                assert(keys.contains(last));
            }
        }
        assert forall|i: int, j: int| 0 <= i < j < all.len() implies text_lt(
            text_field(#[trigger] all[i], "room"@)->0,
            text_field(#[trigger] all[j], "room"@)->0,
        ) by {
            assert(all[i] == x[i]);
            if j < x.len() {
                assert(all[j] == x[j]);
            } else {
                assert(all[j] == e);
            }
        }
    }
}

/// A state, a kind of event, or an event that is refused is told what would be accepted.
pub proof fn law_refusals_say_what_is_wanted(
    t: Tables,
    agent: Seq<char>,
    b: JsonData,
    now: int,
    noted: bool,
    s: Seq<char>,
    room: Seq<char>,
)
    ensures
        given(b, "state"@, s) ==> (outcome(t, "status"@, agent, b, now, noted) matches Outcome::Refused(
            e,
        ) ==> e.msg == "bad state "@ + quoted(s)
            + "; want one of [\"active\", \"idle\", \"busy\", \"done\"]"@),
        given(b, "room"@, room) && given(b, "kind"@, s) ==> (outcome(
            t,
            "event"@,
            agent,
            b,
            now,
            noted,
        ) matches Outcome::Refused(e) ==> e.code == 400 ==> {
            &&& s == "step"@ ==> e.msg == "kind \"step\" needs step_cur/step_total or percent"@
            &&& s == "phase"@ ==> e.msg == "kind "@ + quoted(s) + " needs field "@ + quoted(
                "phase"@,
            )
            &&& s == "blocked"@ || s == "handoff"@ ==> e.msg == "kind "@ + quoted(s)
                + " needs field "@ + quoted("target"@)
            &&& s == "task-start"@ || s == "task-done"@ || s == "task-error"@ || s == "task-abort"@
                ==> e.msg == "kind "@ + quoted(s) + " needs field "@ + quoted("task"@)
            &&& s != "step"@ && s != "phase"@ && s != "blocked"@ && s != "handoff"@ && s
                != "task-start"@ && s != "task-done"@ && s != "task-error"@ && s != "task-abort"@
                ==> e.msg == "bad kind "@ + quoted(s)
                + "; want one of [\"task-start\", \"task-done\", \"task-error\", \"task-abort\", \
                  \"step\", \"phase\", \"blocked\", \"handoff\"]"@
        }),
{
    lemma_names();
    reveal_strlit("");
    reveal_strlit("task");
    reveal_strlit("phase");
    reveal_strlit("target");
    assert(""@.len() == 0 && "task"@.len() == 4 && "phase"@.len() == 5 && "target"@.len() == 6);
}

/// What is told of a message, an event, an agent and a room is what belongs to it, and nothing more.
pub proof fn law_nothing_more_is_told(m: MessageData, e: ProgressData, a: AgentEntry, r: RoomEntry)
    ensures
        keys_of(message_json(m)) == set!["seq"@, "from"@, "text"@, "ts"@],
        keys_of(event_json(e)) == set![
            "seq"@,
            "room"@,
            "agent"@,
            "kind"@,
            "task"@,
            "phase"@,
            "step_cur"@,
            "step_total"@,
            "percent"@,
            "target"@,
            "note"@,
            "ts"@,
        ],
        keys_of(agent_json(a)) == set!["id"@, "status"@],
        keys_of(room_json(r)) == set!["name"@, "type"@, "owner"@, "members"@],
{
    assert(keys_of(message_json(m)) =~= set!["seq"@, "from"@, "text"@, "ts"@]);
    assert(keys_of(event_json(e)) =~= set![
        "seq"@,
        "room"@,
        "agent"@,
        "kind"@,
        "task"@,
        "phase"@,
        "step_cur"@,
        "step_total"@,
        "percent"@,
        "target"@,
        "note"@,
        "ts"@,
    ]);
    assert(keys_of(agent_json(a)) =~= set!["id"@, "status"@]);
    assert(keys_of(room_json(r)) =~= set!["name"@, "type"@, "owner"@, "members"@]);
}

} // verus!
