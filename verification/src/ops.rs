//! The actions of the server: what each request asks for, when it is refused, what it
//! changes and what it is answered.

use crate::json::{
    all_data, array, bool_field, int_or_null, number_field, object, opt_i64, opt_int,
    opt_text as opt_text_value, text, text_array, text_field, text_or_null, Json, JsonData,
};
use crate::store::{
    agent_entries, agent_rows, owner_of, relevant_keys, room_entries, room_rows, AgentEntry,
    AgentRow, Failure, Refusal, RefusalData, RoomEntry, RoomRow, Store,
};
use crate::tables::{
    all_events_after, cursor_of, event_data, events_after, lemma_count, lemma_messages_after, made_known,
    message_data, messages_after, opt_num, with_cursor, with_event, with_member,
    with_message, with_room, with_status, without_member, without_members_of, without_messages_of,
    without_room, EventRow, MessageData, MessageRow, ProgressData, RoomData, Tables,
};
use crate::text::{concat2, concat3, copy, le, opt_text, quote, quoted, same, text_le, texts};
use vstd::prelude::*;

verus! {

/// What a request comes to: it is refused, or it changes the tables and is answered.
pub enum Outcome {
    Refused(RefusalData),
    Done { tables: Tables, reply: JsonData },
}

/// A request was carried out as `outcome` says: a refusal leaves the tables alone. Nothing is
/// said where a statement failed.
pub open spec fn meets(
    r: Result<Json, Failure>,
    before: Tables,
    after: Store,
    outcome: Outcome,
) -> bool {
    match r {
        Ok(reply) => after.wf() && outcome == (Outcome::Done { tables: after@, reply: reply@ }),
        Err(Failure::Refused(e)) => after.wf() && after@ == before && outcome == Outcome::Refused(
            e@,
        ),
        Err(Failure::Store(_)) => true,
    }
}

/// A request that a failed statement cut off.
pub open spec fn cut_off<T>(r: Result<T, Failure>) -> bool {
    r matches Err(Failure::Store(_))
}

/// What a request is answered. One that names another agent makes it known; where that could
/// not be noted, `missed` says why, and the request was carried out all the same.
#[derive(Debug)]
pub struct Reply {
    pub body: Json,
    pub missed: Option<rusqlite::Error>,
}

/// What was answered, and that nothing was missed, if anything was answered.
pub open spec fn replied(r: Result<Reply, Failure>) -> (Result<Json, Failure>, bool) {
    match r {
        Ok(reply) => (Ok(reply.body), reply.missed is None),
        Err(e) => (Err(e), true),
    }
}

/// A reply of a request that names no other agent.
fn plain(r: Result<Json, Failure>) -> (p: Result<Reply, Failure>)
    ensures
        replied(p) == (r, true),
{
    match r {
        Ok(body) => Ok(Reply { body, missed: None }),
        Err(e) => Err(e),
    }
}

/// A refusal with its status code and its message.
pub open spec fn refused(code: int, msg: Seq<char>) -> Outcome {
    Outcome::Refused(RefusalData { code, msg })
}

/// Refuses a request.
pub fn refuse(code: u16, msg: String) -> (r: Failure)
    ensures
        r matches Failure::Refused(e) && e@ == (RefusalData { code: code as int, msg: msg@ }),
{
    Failure::Refused(Refusal { code, msg })
}

// ---- fields

/// A string field that is there and not empty.
pub open spec fn needed(b: JsonData, field: Seq<char>) -> Option<Seq<char>> {
    match text_field(b, field) {
        Some(s) => if s.len() > 0 {
            Some(s)
        } else {
            None
        },
        None => None,
    }
}

/// What a request is told that lacks a field.
pub open spec fn missing(field: Seq<char>) -> Seq<char> {
    "missing field "@ + quoted(field)
}

/// A string field that has to be there.
pub fn need(b: &Json, field: &str) -> (r: Result<String, Failure>)
    ensures
        match r {
            Ok(s) => needed(b@, field@) == Some(s@),
            Err(Failure::Refused(e)) => needed(b@, field@) is None && e@ == (RefusalData {
                code: 400,
                msg: missing(field@),
            }),
            Err(Failure::Store(_)) => false,
        },
{
    if let Some(s) = b.get_text(field) {
        if !s.as_str().is_empty() {
            return Ok(s);
        }
    }
    Err(refuse(400, concat2("missing field ", quote(field).as_str())))
}

// ---- rules

/// The key of the channel between two agents: the same whoever of them writes.
pub open spec fn channel_key(a: Seq<char>, b: Seq<char>) -> Seq<char> {
    if text_le(a, b) {
        "@"@ + a + "|"@ + b
    } else {
        "@"@ + b + "|"@ + a
    }
}

/// The key of the channel between two agents.
pub fn dm_key(a: &str, b: &str) -> (r: String)
    ensures
        r@ == channel_key(a@, b@),
{
    let (first, second) = if le(a, b) {
        (a, b)
    } else {
        (b, a)
    };
    let mut key = concat2("@", first);
    key.append("|");
    key.append(second);
    key
}

/// The states that an agent can be in.
pub open spec fn is_state(s: Seq<char>) -> bool {
    s == "active"@ || s == "idle"@ || s == "busy"@ || s == "done"@
}

/// The kinds of progress events.
pub open spec fn is_event_kind(s: Seq<char>) -> bool {
    ||| s == "task-start"@
    ||| s == "task-done"@
    ||| s == "task-error"@
    ||| s == "task-abort"@
    ||| s == "step"@
    ||| s == "phase"@
    ||| s == "blocked"@
    ||| s == "handoff"@
}

/// The field that events of a kind need; the empty name for those that need none.
pub open spec fn event_needs(kind: Seq<char>) -> Seq<char> {
    if kind == "task-start"@ || kind == "task-done"@ || kind == "task-error"@ || kind
        == "task-abort"@ {
        "task"@
    } else if kind == "phase"@ {
        "phase"@
    } else if kind == "blocked"@ || kind == "handoff"@ {
        "target"@
    } else {
        ""@
    }
}

/// Whether `s` is a state that an agent can be in.
pub fn known_state(s: &str) -> (r: bool)
    ensures
        r == is_state(s@),
{
    same(s, "active") || same(s, "idle") || same(s, "busy") || same(s, "done")
}

/// Whether `s` is a kind of progress event.
pub fn known_kind(s: &str) -> (r: bool)
    ensures
        r == is_event_kind(s@),
{
    same(s, "task-start") || same(s, "task-done") || same(s, "task-error") || same(s, "task-abort")
        || same(s, "step") || same(s, "phase") || same(s, "blocked") || same(s, "handoff")
}

/// The field that events of a kind need.
pub fn required_field(kind: &str) -> (r: &'static str)
    ensures
        r@ == event_needs(kind@),
{
    if same(kind, "task-start") || same(kind, "task-done") || same(kind, "task-error") || same(
        kind,
        "task-abort",
    ) {
        "task"
    } else if same(kind, "phase") {
        "phase"
    } else if same(kind, "blocked") || same(kind, "handoff") {
        "target"
    } else {
        ""
    }
}

/// What is answered of a room that does not exist.
pub open spec fn no_room(room: Seq<char>) -> Seq<char> {
    "no room "@ + quoted(room)
}

/// What one who is no member is answered.
pub open spec fn not_member(agent: Seq<char>, room: Seq<char>) -> Seq<char> {
    quoted(agent) + " is not a member of "@ + quoted(room)
}

/// What one who is not the owner is answered.
pub open spec fn not_owner(room: Seq<char>, owner: Seq<char>) -> Seq<char> {
    "not owner of "@ + quoted(room) + " (owner "@ + quoted(owner) + ")"@
}

/// Why a room with this owner, or none, cannot be used at all.
pub open spec fn room_refusal(room: Seq<char>, owner: Option<Seq<char>>) -> Option<RefusalData> {
    match owner {
        Some(_) => None,
        None => Some(RefusalData { code: 404, msg: no_room(room) }),
    }
}

/// Why an agent cannot act as a member of a room.
pub open spec fn member_refusal(
    room: Seq<char>,
    agent: Seq<char>,
    owner: Option<Seq<char>>,
    member: bool,
) -> Option<RefusalData> {
    if owner is None {
        room_refusal(room, owner)
    } else if !member {
        Some(RefusalData { code: 403, msg: not_member(agent, room) })
    } else {
        None
    }
}

/// Why an agent cannot act as the owner of a room.
pub open spec fn owner_refusal(
    room: Seq<char>,
    agent: Seq<char>,
    owner: Option<Seq<char>>,
) -> Option<RefusalData> {
    match owner {
        None => room_refusal(room, owner),
        Some(o) => if o == agent {
            None
        } else {
            Some(RefusalData { code: 403, msg: not_owner(room, o) })
        },
    }
}

/// What a rule says: `Ok` where nothing is refused.
pub open spec fn judged(r: Result<(), Failure>, refusal: Option<RefusalData>) -> bool {
    match r {
        Ok(_) => refusal is None,
        Err(Failure::Refused(e)) => refusal == Some(e@),
        Err(Failure::Store(_)) => false,
    }
}

/// A room has to exist.
pub fn check_room(room: &str, owner: &Option<String>) -> (r: Result<(), Failure>)
    ensures
        judged(r, room_refusal(room@, opt_text(*owner))),
{
    match owner {
        Some(_) => Ok(()),
        None => Err(refuse(404, concat2("no room ", quote(room).as_str()))),
    }
}

/// A room has to exist, and the agent has to be a member.
pub fn check_member(room: &str, agent: &str, owner: &Option<String>, member: bool) -> (r: Result<
    (),
    Failure,
>)
    ensures
        judged(r, member_refusal(room@, agent@, opt_text(*owner), member)),
{
    match owner {
        None => check_room(room, owner),
        Some(_) => if member {
            Ok(())
        } else {
            Err(
                refuse(
                    403,
                    concat3(quote(agent).as_str(), " is not a member of ", quote(room).as_str()),
                ),
            )
        },
    }
}

/// A room has to exist, and the agent has to own it.
pub fn check_owner(room: &str, agent: &str, owner: &Option<String>) -> (r: Result<(), Failure>)
    ensures
        judged(r, owner_refusal(room@, agent@, opt_text(*owner))),
{
    match owner {
        None => check_room(room, owner),
        Some(o) => if same(o.as_str(), agent) {
            Ok(())
        } else {
            let mut msg = concat3("not owner of ", quote(room).as_str(), " (owner ");
            msg.append(quote(o.as_str()).as_str());
            msg.append(")");
            Err(refuse(403, msg))
        },
    }
}

// ---- whoami, agents, rooms, status

/// The answer to `whoami` of an agent that is known.
pub open spec fn whoami_outcome(t: Tables, agent: Seq<char>) -> Outcome {
    Outcome::Done {
        tables: t,
        reply: JsonData::Object(
            map!["agent"@ => JsonData::Text(agent), "status"@ => JsonData::Text(t.agents[agent])],
        ),
    }
}

/// The caller's identity and status. There is no answer for an unknown agent.
pub fn op_whoami(store: &Store, agent: &str) -> (r: Result<Json, Failure>)
    requires
        store.wf(),
    ensures
        meets(r, store@, *store, whoami_outcome(store@, agent@)),
        r is Ok ==> store@.agents.contains_key(agent@),
        r is Err ==> cut_off(r),
{
    let status = store.status(agent)?;
    Ok(object().with("agent", text(agent)).with("status", text(status.as_str())))
}

/// One agent in a reply.
pub open spec fn agent_json(a: AgentEntry) -> JsonData {
    JsonData::Object(map!["id"@ => JsonData::Text(a.id), "status"@ => JsonData::Text(a.status)])
}

/// One room in a reply.
pub open spec fn room_json(r: RoomEntry) -> JsonData {
    JsonData::Object(
        map![
            "name"@ => JsonData::Text(r.name),
            "type"@ => JsonData::Text(r.kind),
            "owner"@ => JsonData::Text(r.owner),
            "members"@ => JsonData::Array(
                Seq::new(r.members.len(), |i: int| JsonData::Text(r.members[i])),
            ),
        ],
    )
}

/// A list of agents in a reply.
pub open spec fn agents_json(v: Seq<AgentEntry>) -> JsonData {
    JsonData::Array(Seq::new(v.len(), |i: int| agent_json(v[i])))
}

/// A list of rooms in a reply.
pub open spec fn rooms_json(v: Seq<RoomEntry>) -> JsonData {
    JsonData::Array(Seq::new(v.len(), |i: int| room_json(v[i])))
}

/// A list of agents as JSON.
pub fn agents_value(rows: &[AgentRow]) -> (r: Json)
    ensures
        r@ == agents_json(agent_rows(rows@)),
{
    let mut out: Vec<Json> = Vec::new();
    let mut i: usize = 0;
    while i < rows.len()
        invariant
            i <= rows@.len(),
            out@.len() == i,
            forall|k: int| 0 <= k < i ==> (#[trigger] out@[k])@ == agent_json(rows@[k]@),
        decreases rows@.len() - i,
    {
        out.push(
            object().with("id", text(rows[i].id.as_str())).with(
                "status",
                text(rows[i].status.as_str()),
            ),
        );
        i += 1;
    }
    let r = array(out);
    proof {
        assert(r@->Array_0 =~= agents_json(agent_rows(rows@))->Array_0);
    }
    r
}

/// A list of rooms as JSON.
pub fn rooms_value(rows: &[RoomRow]) -> (r: Json)
    ensures
        r@ == rooms_json(room_rows(rows@)),
{
    let mut out: Vec<Json> = Vec::new();
    let mut i: usize = 0;
    while i < rows.len()
        invariant
            i <= rows@.len(),
            out@.len() == i,
            forall|k: int| 0 <= k < i ==> (#[trigger] out@[k])@ == room_json(rows@[k]@),
        decreases rows@.len() - i,
    {
        let members = text_array(rows[i].members.as_slice());
        proof {
            assert(members@->Array_0 =~= Seq::new(
                rows@[i as int]@.members.len(),
                |k: int| JsonData::Text(rows@[i as int]@.members[k]),
            ));
        }
        let room = object().with("name", text(rows[i].name.as_str())).with(
            "type",
            text(rows[i].kind.as_str()),
        ).with("owner", text(rows[i].owner.as_str())).with("members", members);
        out.push(room);
        i += 1;
    }
    let r = array(out);
    proof {
        assert(r@->Array_0 =~= rooms_json(room_rows(rows@))->Array_0);
    }
    r
}

/// The answer to `agents`.
pub open spec fn agents_outcome(t: Tables) -> Outcome {
    Outcome::Done {
        tables: t,
        reply: JsonData::Object(map!["agents"@ => agents_json(agent_entries(t))]),
    }
}

/// All known agents.
pub fn op_agents(store: &Store) -> (r: Result<Json, Failure>)
    requires
        store.wf(),
    ensures
        meets(r, store@, *store, agents_outcome(store@)),
{
    let rows = store.agents()?;
    Ok(object().with("agents", agents_value(rows.as_slice())))
}

/// The answer to `rooms`.
pub open spec fn rooms_outcome(t: Tables) -> Outcome {
    Outcome::Done {
        tables: t,
        reply: JsonData::Object(map!["rooms"@ => rooms_json(room_entries(t))]),
    }
}

/// All rooms with their types, owners and members.
pub fn op_rooms(store: &Store) -> (r: Result<Json, Failure>)
    requires
        store.wf(),
    ensures
        meets(r, store@, *store, rooms_outcome(store@)),
{
    let rows = store.rooms()?;
    Ok(object().with("rooms", rooms_value(rows.as_slice())))
}

/// What comes of `status`.
pub open spec fn status_outcome(t: Tables, agent: Seq<char>, b: JsonData) -> Outcome {
    match needed(b, "state"@) {
        None => refused(400, missing("state"@)),
        Some(state) => if !is_state(state) {
            refused(
                400,
                "bad state "@ + quoted(state)
                    + "; want one of [\"active\", \"idle\", \"busy\", \"done\"]"@,
            )
        } else {
            Outcome::Done {
                tables: with_status(t, agent, state),
                reply: JsonData::Object(
                    map!["ok"@ => JsonData::Bool(true), "status"@ => JsonData::Text(state)],
                ),
            }
        },
    }
}

/// Sets the caller's status.
pub fn op_status(store: &mut Store, agent: &str, b: &Json) -> (r: Result<Json, Failure>)
    requires
        old(store).wf(),
    ensures
        meets(r, old(store)@, *final(store), status_outcome(old(store)@, agent@, b@)),
        (match needed(b@, "state"@) {
            Some(state) => !is_state(state),
            None => true,
        }) ==> !cut_off(r),
{
    let state = need(b, "state")?;
    if !known_state(state.as_str()) {
        return Err(
            refuse(
                400,
                concat3(
                    "bad state ",
                    quote(state.as_str()).as_str(),
                    "; want one of [\"active\", \"idle\", \"busy\", \"done\"]",
                ),
            ),
        );
    }
    store.set_status(agent, state.as_str())?;
    Ok(object().with("ok", Json::Bool(true)).with("status", text(state.as_str())))
}

// ---- rooms and members

/// A reply that names a room.
pub open spec fn room_reply(room: Seq<char>) -> Map<Seq<char>, JsonData> {
    map!["ok"@ => JsonData::Bool(true), "room"@ => JsonData::Text(room)]
}

/// A reply that names a room.
fn room_answer(room: &str) -> (r: Json)
    ensures
        r@ == JsonData::Object(room_reply(room@)),
{
    object().with("ok", Json::Bool(true)).with("room", text(room))
}

/// What one is answered who creates a room that another one owns.
pub open spec fn room_taken(name: Seq<char>, owner: Seq<char>) -> Seq<char> {
    "room "@ + quoted(name) + " already exists (owner "@ + quoted(owner) + ")"@
}

/// Why a room with this owner, or none, cannot be created.
pub open spec fn claim_refusal(
    name: Seq<char>,
    agent: Seq<char>,
    owner: Option<Seq<char>>,
) -> Option<RefusalData> {
    match owner {
        Some(o) => if o == agent {
            None
        } else {
            Some(RefusalData { code: 409, msg: room_taken(name, o) })
        },
        None => None,
    }
}

/// A room that another one owns cannot be created.
pub fn check_claim(name: &str, agent: &str, owner: &Option<String>) -> (r: Result<(), Failure>)
    ensures
        judged(r, claim_refusal(name@, agent@, opt_text(*owner))),
{
    if let Some(o) = owner {
        if !same(o.as_str(), agent) {
            let mut msg = concat3("room ", quote(name).as_str(), " already exists (owner ");
            msg.append(quote(o.as_str()).as_str());
            msg.append(")");
            return Err(refuse(409, msg));
        }
    }
    Ok(())
}

/// What comes of `create-room`: the owner may create a room again, which changes nothing.
pub open spec fn create_room_outcome(t: Tables, agent: Seq<char>, b: JsonData) -> Outcome {
    let kind = match text_field(b, "type"@) {
        Some(kind) => kind,
        None => "public"@,
    };
    match needed(b, "name"@) {
        None => refused(400, missing("name"@)),
        Some(name) => match claim_refusal(name, agent, owner_of(t, name)) {
            Some(e) => Outcome::Refused(e),
            None => Outcome::Done {
                tables: if owner_of(t, name) is Some {
                    t
                } else {
                    with_member(with_room(t, name, RoomData { owner: agent, kind }), name, agent)
                },
                reply: JsonData::Object(room_reply(name).insert("owner"@, JsonData::Text(agent))),
            },
        },
    }
}

/// Creates a room; its owner is its first member.
pub fn op_create_room(store: &mut Store, agent: &str, b: &Json) -> (r: Result<Json, Failure>)
    requires
        old(store).wf(),
    ensures
        meets(r, old(store)@, *final(store), create_room_outcome(old(store)@, agent@, b@)),
        needed(b@, "name"@) is None ==> !cut_off(r),
{
    let name = need(b, "name")?;
    let kind = match b.get_text("type") {
        Some(kind) => kind,
        None => copy("public"),
    };
    let owner = store.room_owner(name.as_str())?;
    check_claim(name.as_str(), agent, &owner)?;
    if owner.is_none() {
        store.create_room(name.as_str(), agent, kind.as_str())?;
    }
    Ok(room_answer(name.as_str()).with("owner", text(agent)))
}

/// What comes of `join`.
pub open spec fn join_outcome(t: Tables, agent: Seq<char>, b: JsonData) -> Outcome {
    match needed(b, "room"@) {
        None => refused(400, missing("room"@)),
        Some(room) => match room_refusal(room, owner_of(t, room)) {
            Some(e) => Outcome::Refused(e),
            None => Outcome::Done {
                tables: with_member(t, room, agent),
                reply: JsonData::Object(room_reply(room)),
            },
        },
    }
}

/// Joins a room.
pub fn op_join(store: &mut Store, agent: &str, b: &Json) -> (r: Result<Json, Failure>)
    requires
        old(store).wf(),
    ensures
        meets(r, old(store)@, *final(store), join_outcome(old(store)@, agent@, b@)),
        needed(b@, "room"@) is None ==> !cut_off(r),
{
    let room = need(b, "room")?;
    let owner = store.room_owner(room.as_str())?;
    check_room(room.as_str(), &owner)?;
    store.add_member(room.as_str(), agent)?;
    Ok(room_answer(room.as_str()))
}

/// What comes of `leave`.
pub open spec fn leave_outcome(t: Tables, agent: Seq<char>, b: JsonData) -> Outcome {
    match needed(b, "room"@) {
        None => refused(400, missing("room"@)),
        Some(room) => match room_refusal(room, owner_of(t, room)) {
            Some(e) => Outcome::Refused(e),
            None => Outcome::Done {
                tables: without_member(t, room, agent),
                reply: JsonData::Object(room_reply(room)),
            },
        },
    }
}

/// Leaves a room.
pub fn op_leave(store: &mut Store, agent: &str, b: &Json) -> (r: Result<Json, Failure>)
    requires
        old(store).wf(),
    ensures
        meets(r, old(store)@, *final(store), leave_outcome(old(store)@, agent@, b@)),
        needed(b@, "room"@) is None ==> !cut_off(r),
{
    let room = need(b, "room")?;
    let owner = store.room_owner(room.as_str())?;
    check_room(room.as_str(), &owner)?;
    store.remove_member(room.as_str(), agent)?;
    Ok(room_answer(room.as_str()))
}

/// The tables without a room, its members and its messages.
pub open spec fn destroyed(t: Tables, room: Seq<char>) -> Tables {
    without_messages_of(without_members_of(without_room(t, room), room), room)
}

/// What comes of `destroy-room`: only the owner may do it.
pub open spec fn destroy_room_outcome(t: Tables, agent: Seq<char>, b: JsonData) -> Outcome {
    match needed(b, "room"@) {
        None => refused(400, missing("room"@)),
        Some(room) => match owner_refusal(room, agent, owner_of(t, room)) {
            Some(e) => Outcome::Refused(e),
            None => Outcome::Done {
                tables: destroyed(t, room),
                reply: JsonData::Object(
                    map!["ok"@ => JsonData::Bool(true), "destroyed"@ => JsonData::Text(room)],
                ),
            },
        },
    }
}

/// Destroys a room.
pub fn op_destroy_room(store: &mut Store, agent: &str, b: &Json) -> (r: Result<Json, Failure>)
    requires
        old(store).wf(),
    ensures
        meets(r, old(store)@, *final(store), destroy_room_outcome(old(store)@, agent@, b@)),
        needed(b@, "room"@) is None ==> !cut_off(r),
{
    let room = need(b, "room")?;
    let owner = store.room_owner(room.as_str())?;
    check_owner(room.as_str(), agent, &owner)?;
    store.destroy_room(room.as_str())?;
    Ok(object().with("ok", Json::Bool(true)).with("destroyed", text(room.as_str())))
}

/// What comes of `invite`: a member adds another agent, who becomes known, if that could be
/// `noted`.
pub open spec fn invite_outcome(
    t: Tables,
    agent: Seq<char>,
    b: JsonData,
    noted: bool,
) -> Outcome {
    match (needed(b, "room"@), needed(b, "target"@)) {
        (None, _) => refused(400, missing("room"@)),
        (_, None) => refused(400, missing("target"@)),
        (Some(room), Some(target)) => match member_refusal(
            room,
            agent,
            owner_of(t, room),
            t.members.contains((room, agent)),
        ) {
            Some(e) => Outcome::Refused(e),
            None => Outcome::Done {
                tables: with_member(made_known(t, target, noted), room, target),
                reply: JsonData::Object(
                    room_reply(room).insert("invited"@, JsonData::Text(target)),
                ),
            },
        },
    }
}

/// Adds another agent to a room.
pub fn op_invite(store: &mut Store, agent: &str, b: &Json) -> (r: Result<Reply, Failure>)
    requires
        old(store).wf(),
    ensures
        meets(
            replied(r).0,
            old(store)@,
            *final(store),
            invite_outcome(old(store)@, agent@, b@, replied(r).1),
        ),
        needed(b@, "room"@) is None || needed(b@, "target"@) is None ==> !cut_off(r),
{
    let room = need(b, "room")?;
    let target = need(b, "target")?;
    let owner = store.room_owner(room.as_str())?;
    let member = store.is_member(room.as_str(), agent)?;
    check_member(room.as_str(), agent, &owner, member)?;
    let missed = store.touch(target.as_str());
    store.add_member(room.as_str(), target.as_str())?;
    let body = room_answer(room.as_str()).with("invited", text(target.as_str()));
    Ok(Reply { body, missed })
}

/// What comes of `kick`: the owner takes an agent out.
pub open spec fn kick_outcome(t: Tables, agent: Seq<char>, b: JsonData) -> Outcome {
    match (needed(b, "room"@), needed(b, "target"@)) {
        (None, _) => refused(400, missing("room"@)),
        (_, None) => refused(400, missing("target"@)),
        (Some(room), Some(target)) => match owner_refusal(room, agent, owner_of(t, room)) {
            Some(e) => Outcome::Refused(e),
            None => Outcome::Done {
                tables: without_member(t, room, target),
                reply: JsonData::Object(room_reply(room).insert("kicked"@, JsonData::Text(target))),
            },
        },
    }
}

/// Takes an agent out of a room.
pub fn op_kick(store: &mut Store, agent: &str, b: &Json) -> (r: Result<Json, Failure>)
    requires
        old(store).wf(),
    ensures
        meets(r, old(store)@, *final(store), kick_outcome(old(store)@, agent@, b@)),
        needed(b@, "room"@) is None || needed(b@, "target"@) is None ==> !cut_off(r),
{
    let room = need(b, "room")?;
    let target = need(b, "target")?;
    let owner = store.room_owner(room.as_str())?;
    check_owner(room.as_str(), agent, &owner)?;
    store.remove_member(room.as_str(), target.as_str())?;
    Ok(room_answer(room.as_str()).with("kicked", text(target.as_str())))
}

// ---- messages

/// The reply to a message that was taken.
pub open spec fn sent_reply(seq: int) -> JsonData {
    JsonData::Object(map!["ok"@ => JsonData::Bool(true), "seq"@ => JsonData::Int(seq)])
}

/// What comes of `send`: only a member may write to a room.
pub open spec fn send_outcome(t: Tables, agent: Seq<char>, b: JsonData, now: int) -> Outcome {
    match (needed(b, "room"@), needed(b, "text"@)) {
        (None, _) => refused(400, missing("room"@)),
        (_, None) => refused(400, missing("text"@)),
        (Some(room), Some(text)) => match member_refusal(
            room,
            agent,
            owner_of(t, room),
            t.members.contains((room, agent)),
        ) {
            Some(e) => Outcome::Refused(e),
            None => Outcome::Done {
                tables: with_message(t, room, agent, text, now),
                reply: sent_reply(t.message_high + 1),
            },
        },
    }
}

/// Writes a message to a room.
pub fn op_send(store: &mut Store, agent: &str, b: &Json, now: i64) -> (r: Result<Json, Failure>)
    requires
        old(store).wf(),
    ensures
        meets(r, old(store)@, *final(store), send_outcome(old(store)@, agent@, b@, now as int)),
        needed(b@, "room"@) is None || needed(b@, "text"@) is None ==> !cut_off(r),
{
    let room = need(b, "room")?;
    let words = need(b, "text")?;
    let owner = store.room_owner(room.as_str())?;
    let member = store.is_member(room.as_str(), agent)?;
    check_member(room.as_str(), agent, &owner, member)?;
    let seq: i64 = store.append(room.as_str(), agent, words.as_str(), now)?;
    Ok(object().with("ok", Json::Bool(true)).with("seq", Json::Int(seq)))
}

/// What comes of `dm`: the message goes to the channel of the two agents, and the addressee
/// becomes known, if that could be `noted`.
pub open spec fn dm_outcome(
    t: Tables,
    agent: Seq<char>,
    b: JsonData,
    now: int,
    noted: bool,
) -> Outcome {
    match (needed(b, "to"@), needed(b, "text"@)) {
        (None, _) => refused(400, missing("to"@)),
        (_, None) => refused(400, missing("text"@)),
        (Some(to), Some(text)) => Outcome::Done {
            tables: with_message(
                made_known(t, to, noted),
                channel_key(agent, to),
                agent,
                text,
                now,
            ),
            reply: sent_reply(t.message_high + 1),
        },
    }
}

/// Writes a message to another agent.
pub fn op_dm(store: &mut Store, agent: &str, b: &Json, now: i64) -> (r: Result<Reply, Failure>)
    requires
        old(store).wf(),
    ensures
        meets(
            replied(r).0,
            old(store)@,
            *final(store),
            dm_outcome(old(store)@, agent@, b@, now as int, replied(r).1),
        ),
        needed(b@, "to"@) is None || needed(b@, "text"@) is None ==> !cut_off(r),
{
    let to = need(b, "to")?;
    let words = need(b, "text")?;
    let missed = store.touch(to.as_str());
    let key = dm_key(agent, to.as_str());
    let seq: i64 = store.append(key.as_str(), agent, words.as_str(), now)?;
    let body = object().with("ok", Json::Bool(true)).with("seq", Json::Int(seq));
    Ok(Reply { body, missed })
}

/// A message in a reply that is about one room.
pub open spec fn message_json(m: MessageData) -> JsonData {
    JsonData::Object(
        map![
            "seq"@ => JsonData::Int(m.seq),
            "from"@ => JsonData::Text(m.from),
            "text"@ => JsonData::Text(m.text),
            "ts"@ => int_or_null(m.ts),
        ],
    )
}

/// Messages in a reply that is about one room.
pub open spec fn messages_json(v: Seq<MessageData>) -> JsonData {
    JsonData::Array(Seq::new(v.len(), |i: int| message_json(v[i])))
}

/// Messages of one room as JSON.
pub fn messages_value(rows: &[MessageRow]) -> (r: Json)
    ensures
        r@ == messages_json(message_data(rows@)),
{
    let mut out: Vec<Json> = Vec::new();
    let mut i: usize = 0;
    while i < rows.len()
        invariant
            i <= rows@.len(),
            out@.len() == i,
            forall|k: int| 0 <= k < i ==> (#[trigger] out@[k])@ == message_json(rows@[k]@),
        decreases rows@.len() - i,
    {
        let m = object().with("seq", Json::Int(rows[i].seq)).with(
            "from",
            text(rows[i].from.as_str()),
        ).with("text", text(rows[i].text.as_str())).with("ts", opt_int(rows[i].ts));
        out.push(m);
        i += 1;
    }
    let r = array(out);
    proof {
        assert(r@->Array_0 =~= messages_json(message_data(rows@))->Array_0);
    }
    r
}

/// The number behind which `read` begins: the one that was asked for, or the caller's cursor.
pub open spec fn read_from(t: Tables, agent: Seq<char>, room: Seq<char>, b: JsonData) -> int {
    match number_field(b, "since"@) {
        Some(since) => since,
        None => cursor_of(t, agent, room),
    }
}

/// Whether a read leaves the cursor alone.
pub open spec fn peeks(b: JsonData) -> bool {
    bool_field(b, "peek"@) == Some(true)
}

/// Where the cursor is put after these messages were found; nowhere if nothing was found or
/// the read only peeks.
pub open spec fn cursor_after(found: Seq<MessageData>, peek: bool) -> Option<int> {
    if found.len() > 0 && !peek {
        Some(found.last().seq)
    } else {
        None
    }
}

/// Where the cursor is put after these messages were found.
pub fn next_cursor(found: &[MessageRow], peek: bool) -> (r: Option<i64>)
    ensures
        opt_num(r) == cursor_after(message_data(found@), peek),
{
    if found.len() > 0 && !peek {
        proof {
            assert(message_data(found@).last() == found@.last()@);
        }
        Some(found[found.len() - 1].seq)
    } else {
        None
    }
}

/// What comes of `read`: the messages behind the cursor. Reading moves the cursor to the last
/// of them; peeking does not.
pub open spec fn read_outcome(t: Tables, agent: Seq<char>, b: JsonData) -> Outcome {
    match needed(b, "room"@) {
        None => refused(400, missing("room"@)),
        Some(room) => {
            let found = messages_after(t.messages, set![room], read_from(t, agent, room, b));
            Outcome::Done {
                tables: match cursor_after(found, peeks(b)) {
                    Some(seq) => with_cursor(t, agent, room, seq),
                    None => t,
                },
                reply: JsonData::Object(
                    map!["room"@ => JsonData::Text(room), "messages"@ => messages_json(found)],
                ),
            }
        },
    }
}

/// Reads the messages of a room.
pub fn op_read(store: &mut Store, agent: &str, b: &Json) -> (r: Result<Json, Failure>)
    requires
        old(store).wf(),
    ensures
        meets(r, old(store)@, *final(store), read_outcome(old(store)@, agent@, b@)),
        needed(b@, "room"@) is None ==> !cut_off(r),
{
    let room = need(b, "room")?;
    let since: i64 = match opt_i64(b, "since") {
        Some(since) => since,
        None => store.cursor(agent, room.as_str())?,
    };
    let found = store.messages_after(room.as_str(), since)?;
    let peek = match b.get_bool("peek") {
        Some(peek) => peek,
        None => false,
    };
    if let Some(seq) = next_cursor(found.as_slice(), peek) {
        store.advance_cursor(agent, room.as_str(), seq)?;
    }
    Ok(object().with("room", text(room.as_str())).with("messages", messages_value(found.as_slice())))
}

/// What an agent has not read yet under a key.
pub open spec fn unread(t: Tables, agent: Seq<char>, key: Seq<char>) -> Seq<MessageData> {
    messages_after(t.messages, set![key], cursor_of(t, agent, key))
}

/// What an inbox shows of one key.
pub open spec fn inbox_entry(key: Seq<char>, messages: Seq<MessageData>) -> JsonData {
    JsonData::Object(
        map![
            "room"@ => JsonData::Text(key),
            "unread"@ => JsonData::Int(messages.len() as int),
            "messages"@ => messages_json(messages),
        ],
    )
}

/// What an inbox shows of the keys: those with something unread.
pub open spec fn inbox_entries(t: Tables, agent: Seq<char>, keys: Seq<Seq<char>>) -> Seq<JsonData>
    decreases keys.len(),
{
    if keys.len() == 0 {
        Seq::empty()
    } else {
        let front = inbox_entries(t, agent, keys.drop_last());
        let messages = unread(t, agent, keys.last());
        if messages.len() == 0 {
            front
        } else {
            front.push(inbox_entry(keys.last(), messages))
        }
    }
}

/// What comes of `inbox`.
pub open spec fn inbox_outcome(t: Tables, agent: Seq<char>) -> Outcome {
    Outcome::Done {
        tables: t,
        reply: JsonData::Object(
            map![
                "inbox"@ => JsonData::Array(
                    inbox_entries(t, agent, relevant_keys(t, agent)),
                ),
            ],
        ),
    }
}

/// What the caller has not read yet, by room and channel.
pub fn op_inbox(store: &Store, agent: &str) -> (r: Result<Json, Failure>)
    requires
        store.wf(),
    ensures
        meets(r, store@, *store, inbox_outcome(store@, agent@)),
{
    let keys = store.relevant_rooms(agent)?;
    let ghost all = texts(keys@);
    let mut out: Vec<Json> = Vec::new();
    proof {
        assert(all_data(out@) =~= Seq::<JsonData>::empty());
    }
    let mut i: usize = 0;
    while i < keys.len()
        invariant
            store.wf(),
            i <= keys@.len(),
            all == texts(keys@),
            all_data(out@) == inbox_entries(store@, agent@, all.take(i as int)),
        decreases keys@.len() - i,
    {
        proof {
            assert(all.take(i + 1).drop_last() =~= all.take(i as int));
            assert(all.take(i + 1).last() == keys@[i as int]@);
        }
        let key = keys[i].as_str();
        let since: i64 = store.cursor(agent, key)?;
        let found = store.messages_after(key, since)?;
        proof {
            assert(message_data(found@).len() == found@.len());
        }
        if found.len() > 0 {
            proof {
                store.lemma_wf();
                lemma_messages_after(store@, set![key@], since as int);
                lemma_count(message_data(found@));
                assert(message_data(found@).last() == found@.last()@);
            }
            let entry = object().with("room", text(key)).with(
                "unread",
                Json::Int(found.len() as i64),
            ).with("messages", messages_value(found.as_slice()));
            let ghost before = all_data(out@);
            out.push(entry);
            assert(all_data(out@) =~= before.push(entry@));
        }
        i += 1;
    }
    proof {
        assert(all.take(keys@.len() as int) =~= all);
    }
    Ok(object().with("inbox", array(out)))
}

// ---- progress events

/// An event in a reply.
pub open spec fn event_json(e: ProgressData) -> JsonData {
    JsonData::Object(
        map![
            "seq"@ => JsonData::Int(e.seq),
            "room"@ => JsonData::Text(e.room),
            "agent"@ => JsonData::Text(e.agent),
            "kind"@ => JsonData::Text(e.kind),
            "task"@ => text_or_null(e.task),
            "phase"@ => text_or_null(e.phase),
            "step_cur"@ => int_or_null(e.step_cur),
            "step_total"@ => int_or_null(e.step_total),
            "percent"@ => int_or_null(e.percent),
            "target"@ => text_or_null(e.target),
            "note"@ => text_or_null(e.note),
            "ts"@ => JsonData::Int(e.ts),
        ],
    )
}

/// Events in a reply.
pub open spec fn events_json(v: Seq<ProgressData>) -> JsonData {
    JsonData::Array(Seq::new(v.len(), |i: int| event_json(v[i])))
}

/// An event as JSON.
pub fn event_value(e: &EventRow) -> (r: Json)
    ensures
        r@ == event_json(e@),
{
    object().with("seq", Json::Int(e.seq)).with("room", text(e.room.as_str())).with(
        "agent",
        text(e.agent.as_str()),
    ).with("kind", text(e.kind.as_str())).with("task", opt_text_value(&e.task)).with(
        "phase",
        opt_text_value(&e.phase),
    ).with("step_cur", opt_int(e.step_cur)).with("step_total", opt_int(e.step_total)).with(
        "percent",
        opt_int(e.percent),
    ).with("target", opt_text_value(&e.target)).with("note", opt_text_value(&e.note)).with(
        "ts",
        Json::Int(e.ts),
    )
}

/// Events as JSON.
pub fn events_value(rows: &[EventRow]) -> (r: Json)
    ensures
        r@ == events_json(event_data(rows@)),
{
    let mut out: Vec<Json> = Vec::new();
    let mut i: usize = 0;
    while i < rows.len()
        invariant
            i <= rows@.len(),
            out@.len() == i,
            forall|k: int| 0 <= k < i ==> (#[trigger] out@[k])@ == event_json(rows@[k]@),
        decreases rows@.len() - i,
    {
        out.push(event_value(&rows[i]));
        i += 1;
    }
    let r = array(out);
    proof {
        assert(r@->Array_0 =~= events_json(event_data(rows@))->Array_0);
    }
    r
}

/// The event that a request describes.
pub open spec fn event_of(
    room: Seq<char>,
    agent: Seq<char>,
    kind: Seq<char>,
    b: JsonData,
    now: int,
) -> ProgressData {
    ProgressData {
        seq: 0,
        room,
        agent,
        kind,
        task: text_field(b, "task"@),
        phase: text_field(b, "phase"@),
        step_cur: number_field(b, "step_cur"@),
        step_total: number_field(b, "step_total"@),
        percent: number_field(b, "percent"@),
        target: text_field(b, "target"@),
        note: text_field(b, "note"@),
        ts: now,
    }
}

/// Why an event lacks what its kind needs.
pub open spec fn event_refusal(e: ProgressData) -> Option<RefusalData> {
    let need = event_needs(e.kind);
    if e.kind == "step"@ && e.step_cur is None && e.step_total is None && e.percent is None {
        Some(
            RefusalData {
                code: 400,
                msg: "kind \"step\" needs step_cur/step_total or percent"@,
            },
        )
    } else if (need == "task"@ && e.task is None) || (need == "phase"@ && e.phase is None) || (need
        == "target"@ && e.target is None) {
        Some(
            RefusalData {
                code: 400,
                msg: "kind "@ + quoted(e.kind) + " needs field "@ + quoted(need),
            },
        )
    } else {
        None
    }
}

/// An event has to hold what its kind needs.
pub fn check_event(e: &EventRow) -> (r: Result<(), Failure>)
    ensures
        judged(r, event_refusal(e@)),
{
    if same(e.kind.as_str(), "step") && e.step_cur.is_none() && e.step_total.is_none()
        && e.percent.is_none() {
        return Err(refuse(400, copy("kind \"step\" needs step_cur/step_total or percent")));
    }
    let need = required_field(e.kind.as_str());
    let lacking = if same(need, "task") {
        e.task.is_none()
    } else if same(need, "phase") {
        e.phase.is_none()
    } else if same(need, "target") {
        e.target.is_none()
    } else {
        false
    };
    proof {
        reveal_strlit("task");
        reveal_strlit("phase");
        reveal_strlit("target");
        assert("task"@.len() == 4 && "phase"@.len() == 5 && "target"@.len() == 6);
    }
    if lacking {
        let mut msg = concat3("kind ", quote(e.kind.as_str()).as_str(), " needs field ");
        msg.append(quote(need).as_str());
        return Err(refuse(400, msg));
    }
    Ok(())
}

/// What one is answered who names an unknown kind of event.
pub open spec fn bad_kind(kind: Seq<char>) -> Seq<char> {
    "bad kind "@ + quoted(kind)
        + "; want one of [\"task-start\", \"task-done\", \"task-error\", \"task-abort\", \
          \"step\", \"phase\", \"blocked\", \"handoff\"]"@
}

/// What comes of `event`.
pub open spec fn event_outcome(t: Tables, agent: Seq<char>, b: JsonData, now: int) -> Outcome {
    match (needed(b, "room"@), needed(b, "kind"@)) {
        (None, _) => refused(400, missing("room"@)),
        (_, None) => refused(400, missing("kind"@)),
        (Some(room), Some(kind)) => {
            let e = event_of(room, agent, kind, b, now);
            if !is_event_kind(kind) {
                refused(400, bad_kind(kind))
            } else if owner_of(t, room) is None {
                refused(404, no_room(room))
            } else {
                match event_refusal(e) {
                    Some(e) => Outcome::Refused(e),
                    None => Outcome::Done {
                        tables: with_event(t, e),
                        reply: JsonData::Object(
                            map![
                                "ok"@ => JsonData::Bool(true),
                                "seq"@ => JsonData::Int(t.event_high + 1),
                                "ts"@ => JsonData::Int(now),
                            ],
                        ),
                    },
                }
            }
        },
    }
}

/// Records a progress event.
pub fn op_event(store: &mut Store, agent: &str, b: &Json, now: i64) -> (r: Result<Json, Failure>)
    requires
        old(store).wf(),
    ensures
        meets(r, old(store)@, *final(store), event_outcome(old(store)@, agent@, b@, now as int)),
        (match (needed(b@, "room"@), needed(b@, "kind"@)) {
            (Some(_), Some(kind)) => !is_event_kind(kind),
            _ => true,
        }) ==> !cut_off(r),
{
    let room = need(b, "room")?;
    let kind = need(b, "kind")?;
    if !known_kind(kind.as_str()) {
        return Err(
            refuse(
                400,
                concat3(
                    "bad kind ",
                    quote(kind.as_str()).as_str(),
                    "; want one of [\"task-start\", \"task-done\", \"task-error\", \"task-abort\", \
                     \"step\", \"phase\", \"blocked\", \"handoff\"]",
                ),
            ),
        );
    }
    let owner = store.room_owner(room.as_str())?;
    check_room(room.as_str(), &owner)?;
    let e = EventRow {
        seq: 0,
        room,
        agent: copy(agent),
        kind,
        task: b.get_text("task"),
        phase: b.get_text("phase"),
        step_cur: opt_i64(b, "step_cur"),
        step_total: opt_i64(b, "step_total"),
        percent: opt_i64(b, "percent"),
        target: b.get_text("target"),
        note: b.get_text("note"),
        ts: now,
    };
    proof {
        assert(e@ == event_of(room@, agent@, kind@, b@, now as int));
    }
    check_event(&e)?;
    let seq: i64 = store.append_event(&e)?;
    Ok(object().with("ok", Json::Bool(true)).with("seq", Json::Int(seq)).with("ts", Json::Int(now)))
}

/// What comes of `events`: it consumes nothing, and spans all rooms where none is named.
pub open spec fn events_outcome(t: Tables, b: JsonData) -> Outcome {
    let since = match number_field(b, "since"@) {
        Some(since) => since,
        None => 0,
    };
    let found = match text_field(b, "room"@) {
        Some(room) => events_after(t.events, set![room], since),
        None => all_events_after(t.events, since),
    };
    Outcome::Done {
        tables: t,
        reply: JsonData::Object(map!["events"@ => events_json(found)]),
    }
}

/// Reads progress events.
pub fn op_events(store: &Store, b: &Json) -> (r: Result<Json, Failure>)
    requires
        store.wf(),
    ensures
        meets(r, store@, *store, events_outcome(store@, b@)),
{
    let since: i64 = match opt_i64(b, "since") {
        Some(since) => since,
        None => 0,
    };
    let found = match b.get_str("room") {
        Some(room) => store.events_after(room, since)?,
        None => store.all_events_after(since)?,
    };
    Ok(object().with("events", events_value(found.as_slice())))
}

// ---- dispatch

/// The answer to `register`.
pub open spec fn register_outcome(t: Tables, agent: Seq<char>) -> Outcome {
    Outcome::Done {
        tables: t,
        reply: JsonData::Object(
            map!["ok"@ => JsonData::Bool(true), "agent"@ => JsonData::Text(agent)],
        ),
    }
}

/// What comes of an action. `noted` says whether another agent that it names could be made
/// known.
pub open spec fn outcome(
    t: Tables,
    action: Seq<char>,
    agent: Seq<char>,
    b: JsonData,
    now: int,
    noted: bool,
) -> Outcome {
    if action == "register"@ {
        register_outcome(t, agent)
    } else if action == "whoami"@ {
        whoami_outcome(t, agent)
    } else if action == "agents"@ {
        agents_outcome(t)
    } else if action == "status"@ {
        status_outcome(t, agent, b)
    } else if action == "create-room"@ {
        create_room_outcome(t, agent, b)
    } else if action == "rooms"@ {
        rooms_outcome(t)
    } else if action == "join"@ {
        join_outcome(t, agent, b)
    } else if action == "leave"@ {
        leave_outcome(t, agent, b)
    } else if action == "destroy-room"@ {
        destroy_room_outcome(t, agent, b)
    } else if action == "send"@ {
        send_outcome(t, agent, b, now)
    } else if action == "dm"@ {
        dm_outcome(t, agent, b, now, noted)
    } else if action == "read"@ || action == "peek"@ {
        read_outcome(t, agent, b)
    } else if action == "inbox"@ {
        inbox_outcome(t, agent)
    } else if action == "invite"@ {
        invite_outcome(t, agent, b, noted)
    } else if action == "kick"@ {
        kick_outcome(t, agent, b)
    } else if action == "event"@ {
        event_outcome(t, agent, b, now)
    } else if action == "events"@ {
        events_outcome(t, b)
    } else {
        refused(404, "unknown action "@ + quoted(action))
    }
}

/// The names of the actions.
pub open spec fn is_action(action: Seq<char>) -> bool {
    ||| action == "register"@
    ||| action == "whoami"@
    ||| action == "agents"@
    ||| action == "status"@
    ||| action == "create-room"@
    ||| action == "rooms"@
    ||| action == "join"@
    ||| action == "leave"@
    ||| action == "destroy-room"@
    ||| action == "send"@
    ||| action == "dm"@
    ||| action == "read"@
    ||| action == "peek"@
    ||| action == "inbox"@
    ||| action == "invite"@
    ||| action == "kick"@
    ||| action == "event"@
    ||| action == "events"@
}

/// Requests that are refused for what they say, whatever the tables hold: a field that they need
/// is missing, or they name a state, a kind or an action that there is none of.
pub open spec fn refused_early(action: Seq<char>, b: JsonData) -> bool {
    if action == "register"@ || action == "whoami"@ || action == "agents"@ {
        false
    } else if action == "status"@ {
        match needed(b, "state"@) {
            Some(state) => !is_state(state),
            None => true,
        }
    } else if action == "create-room"@ {
        needed(b, "name"@) is None
    } else if action == "rooms"@ {
        false
    } else if action == "join"@ || action == "leave"@ || action == "destroy-room"@ {
        needed(b, "room"@) is None
    } else if action == "send"@ {
        needed(b, "room"@) is None || needed(b, "text"@) is None
    } else if action == "dm"@ {
        needed(b, "to"@) is None || needed(b, "text"@) is None
    } else if action == "read"@ || action == "peek"@ {
        needed(b, "room"@) is None
    } else if action == "inbox"@ {
        false
    } else if action == "invite"@ || action == "kick"@ {
        needed(b, "room"@) is None || needed(b, "target"@) is None
    } else if action == "event"@ {
        match (needed(b, "room"@), needed(b, "kind"@)) {
            (Some(_), Some(kind)) => !is_event_kind(kind),
            _ => true,
        }
    } else {
        action != "events"@
    }
}

/// Carries out an action of an agent. Requests that are refused for what they say are refused
/// before any statement is run. An unknown agent gets no answer to `whoami`.
pub fn dispatch(store: &mut Store, action: &str, agent: &str, b: &Json, now: i64) -> (r: Result<
    Reply,
    Failure,
>)
    requires
        old(store).wf(),
    ensures
        meets(
            replied(r).0,
            old(store)@,
            *final(store),
            outcome(old(store)@, action@, agent@, b@, now as int, replied(r).1),
        ),
        action@ == "register"@ || refused_early(action@, b@) ==> !cut_off(r),
        action@ == "whoami"@ && r is Ok ==> old(store)@.agents.contains_key(agent@),
        action@ != "dm"@ && action@ != "invite"@ ==> replied(r).1,
{
    proof {
        reveal_strlit("register");
        reveal_strlit("whoami");
        assert("register"@.len() == 8 && "whoami"@.len() == 6);
    }
    if same(action, "register") {
        plain(Ok(object().with("ok", Json::Bool(true)).with("agent", text(agent))))
    } else if same(action, "whoami") {
        plain(op_whoami(store, agent))
    } else if same(action, "agents") {
        plain(op_agents(store))
    } else if same(action, "status") {
        plain(op_status(store, agent, b))
    } else if same(action, "create-room") {
        plain(op_create_room(store, agent, b))
    } else if same(action, "rooms") {
        plain(op_rooms(store))
    } else if same(action, "join") {
        plain(op_join(store, agent, b))
    } else if same(action, "leave") {
        plain(op_leave(store, agent, b))
    } else if same(action, "destroy-room") {
        plain(op_destroy_room(store, agent, b))
    } else if same(action, "send") {
        plain(op_send(store, agent, b, now))
    } else if same(action, "dm") {
        op_dm(store, agent, b, now)
    } else if same(action, "read") || same(action, "peek") {
        plain(op_read(store, agent, b))
    } else if same(action, "inbox") {
        plain(op_inbox(store, agent))
    } else if same(action, "invite") {
        op_invite(store, agent, b)
    } else if same(action, "kick") {
        plain(op_kick(store, agent, b))
    } else if same(action, "event") {
        plain(op_event(store, agent, b, now))
    } else if same(action, "events") {
        plain(op_events(store, b))
    } else {
        Err(refuse(404, concat2("unknown action ", quote(action).as_str())))
    }
}

} // verus!
