//! What a stream is sent, said of the tables and of the fields of the frames: which messages and
//! events, under which ids, and when a roster.

use crate::delivery::{law_recv_leaves_nothing_unread, lemma_filter_agree};
use crate::json::{
    bool_field, field, json_parse, json_text, number_field, text_field, JsonData,
};
use crate::names::lemma_names;
use crate::ops::unread;
use crate::requests::{
    holds, keys_of, lemma_agents_told, lemma_event_told, lemma_rooms_told, tells_agents,
    tells_event, tells_message, tells_rooms,
};
use crate::sse::{law_since_roundtrip, since_text, since_value, EventData};
use crate::store::{agent_entries, room_entries, AgentEntry, RoomEntry};
use crate::stream::{
    after_delivery, after_round, block_of, consumes, event_out, evt_mark, message_out, msg_mark, new_events,
    new_messages, next_step, plan_of, roster_out, round_out, scope, started_if, Next, OutgoingData,
    PlanData, RosterData, SessionData,
};
use crate::tables::{
    lemma_filter_order, lemma_lists_exist, lemma_messages_after, lists, members_of, sorted,
    well_formed, MessageData, ProgressData, Tables,
};
use vstd::prelude::*;

verus! {

/// A message or an event in this room belongs to the stream: it is of the one room that was asked
/// for, or of any room that exists.
pub open spec fn belongs(t: Tables, s: SessionData, room: Seq<char>) -> bool {
    match s.room {
        Some(r) => room == r,
        None => t.rooms.contains_key(room),
    }
}

/// The messages that belong to the stream and have a higher number than the last one sent.
pub open spec fn due_messages(t: Tables, s: SessionData) -> Seq<MessageData> {
    t.messages.filter(|m: MessageData| belongs(t, s, m.room) && m.seq > s.last_msg)
}

/// The events that belong to a monitor and have a higher number than the last one sent.
pub open spec fn due_events(t: Tables, s: SessionData) -> Seq<ProgressData> {
    t.events.filter(|e: ProgressData| s.monitor && belongs(t, s, e.room) && e.seq > s.last_evt)
}

proof fn lemma_due(t: Tables, s: SessionData)
    ensures
        new_messages(t, s) == due_messages(t, s),
        new_events(t, s) == due_events(t, s),
{
    lemma_filter_agree(
        t.messages,
        |m: MessageData| scope(t, s).contains(m.room) && m.seq > s.last_msg,
        |m: MessageData| belongs(t, s, m.room) && m.seq > s.last_msg,
    );
    if s.monitor {
        lemma_filter_agree(
            t.events,
            |e: ProgressData| scope(t, s).contains(e.room) && e.seq > s.last_evt,
            |e: ProgressData| s.monitor && belongs(t, s, e.room) && e.seq > s.last_evt,
        );
    } else {
        t.events.lemma_all_neg_filter_empty(
            |e: ProgressData| s.monitor && belongs(t, s, e.room) && e.seq > s.last_evt,
        );
        assert(due_events(t, s) =~= Seq::<ProgressData>::empty());
    }
}

/// The frame of a message: its data tell the message and its room, its id is the number of the
/// message and that of the last event.
pub open spec fn frames_message(o: OutgoingData, m: MessageData, last_evt: int) -> bool {
    &&& o.event == "message"@
    &&& since_value(o.id) == Some((m.seq, last_evt))
    &&& tells_message(o.value, m)
    &&& holds(o.value, "room"@, JsonData::Text(m.room))
    &&& keys_of(o.value) == set!["seq"@, "room"@, "from"@, "text"@, "ts"@]
}

/// The frame of an event: its data tell the event, its id is the number of the last message and
/// that of the event. It moves no cursor.
pub open spec fn frames_event(o: OutgoingData, e: ProgressData, last_msg: int) -> bool {
    &&& o.event == "progress"@
    &&& since_value(o.id) == Some((last_msg, e.seq))
    &&& tells_event(o.value, e)
    &&& o.cursor is None
}

/// An array of objects tells these agents one by one.
pub open spec fn tells_agent_entries(a: Seq<JsonData>, agents: Seq<AgentEntry>) -> bool {
    a.len() == agents.len() && forall|i: int|
        0 <= i < a.len() ==> holds(#[trigger] a[i], "id"@, JsonData::Text(agents[i].id)) && holds(
            a[i],
            "status"@,
            JsonData::Text(agents[i].status),
        )
}

/// An array holds these texts.
pub open spec fn are_texts(v: Seq<JsonData>, texts: Seq<Seq<char>>) -> bool {
    v.len() == texts.len() && forall|i: int|
        0 <= i < v.len() ==> #[trigger] v[i] == JsonData::Text(texts[i])
}

/// An object tells a room.
pub open spec fn tells_room_entry(d: JsonData, r: RoomEntry) -> bool {
    &&& holds(d, "name"@, JsonData::Text(r.name))
    &&& holds(d, "type"@, JsonData::Text(r.kind))
    &&& holds(d, "owner"@, JsonData::Text(r.owner))
    &&& field(d, "members"@) matches Some(JsonData::Array(v)) && are_texts(v, r.members)
}

/// An array of objects tells these rooms one by one.
pub open spec fn tells_room_entries(a: Seq<JsonData>, rooms: Seq<RoomEntry>) -> bool {
    a.len() == rooms.len() && forall|i: int|
        0 <= i < a.len() ==> tells_room_entry(#[trigger] a[i], rooms[i])
}

/// The frame of a roster: its data tell these agents and these rooms, and it moves no cursor.
pub open spec fn frames_roster(o: OutgoingData, agents: Seq<AgentEntry>, rooms: Seq<RoomEntry>) -> bool {
    &&& o.event == "roster"@
    &&& o.cursor is None
    &&& field(o.value, "agents"@) matches Some(JsonData::Array(a)) && tells_agent_entries(a, agents)
    &&& field(o.value, "rooms"@) matches Some(JsonData::Array(a)) && tells_room_entries(a, rooms)
    &&& keys_of(o.value) == set!["agents"@, "rooms"@]
}

/// A roster frame tells its roster.
pub proof fn lemma_roster_framed(r: RosterData, last_msg: int, last_evt: int)
    ensures
        frames_roster(roster_out(r, last_msg, last_evt), r.agents, r.rooms),
{
    lemma_names();
    let o = roster_out(r, last_msg, last_evt);
    assert(keys_of(o.value) =~= set!["agents"@, "rooms"@]);
    let a = field(o.value, "rooms"@)->0->Array_0;
    assert forall|i: int| 0 <= i < a.len() implies tells_room_entry(#[trigger] a[i], r.rooms[i]) by {
        let v = field(a[i], "members"@)->0->Array_0;
        assert(are_texts(v, r.rooms[i].members));
    }
}

/// After a round, the roster that a monitor was sent last is the full current one, agents and
/// rooms. Whenever the one before differs from it, in agents or in rooms, the last frame of the
/// round is a roster frame that carries it, with the marks of the round; otherwise the round has
/// no roster frame. Other streams get none.
pub proof fn law_roster_is_current(t: Tables, s: SessionData)
    ensures
        ({
            let out = round_out(t, s);
            let current = RosterData { agents: agent_entries(t), rooms: room_entries(t) };
            let same = s.last_roster matches Some(r) && r.agents == agent_entries(t) && r.rooms
                == room_entries(t);
            &&& s.monitor ==> after_round(t, s).last_roster == Some(current)
            &&& s.monitor && !same ==> {
                &&& out.len() > 0
                &&& frames_roster(out.last(), agent_entries(t), room_entries(t))
                &&& out.last().id == since_text(
                    after_round(t, s).last_msg,
                    after_round(t, s).last_evt,
                )
                &&& forall|i: int|
                    0 <= i < out.len() - 1 ==> (#[trigger] out[i]).event != "roster"@
            }
            &&& s.monitor && same || !s.monitor ==> forall|i: int|
                0 <= i < out.len() ==> (#[trigger] out[i]).event != "roster"@
            &&& !s.monitor ==> after_round(t, s).last_roster == s.last_roster
        }),
{
    lemma_names();
    lemma_roster_framed(
        RosterData { agents: agent_entries(t), rooms: room_entries(t) },
        msg_mark(t, s),
        evt_mark(t, s),
    );
    if let Some(r) = s.last_roster {
        if r.agents == agent_entries(t) && r.rooms == room_entries(t) {
            assert(r =~= RosterData { agents: agent_entries(t), rooms: room_entries(t) });
        }
    }
}

/// What the first roster of a monitor tells is all agents with their statuses, and all rooms with
/// their types, owners and members.
pub proof fn law_first_roster_tells_all(t: Tables, s: SessionData)
    requires
        s.monitor,
        s.last_roster is None,
        t.agents.dom().finite(),
        t.rooms.dom().finite(),
        t.members.finite(),
    ensures
        ({
            let d = round_out(t, s).last().value;
            &&& round_out(t, s).last().event == "roster"@
            &&& field(d, "agents"@) matches Some(JsonData::Array(a)) && tells_agents(a, t)
            &&& field(d, "rooms"@) matches Some(JsonData::Array(a)) && tells_rooms(a, t)
        }),
{
    lemma_names();
    lemma_agents_told(t);
    lemma_rooms_told(t);
}

/// Whatever changes of the agents, their statuses, the rooms, or the members of a room, a monitor
/// that was up to date is sent a roster that tells it.
pub proof fn law_changes_are_pushed(t1: Tables, t2: Tables, s: SessionData)
    requires
        s.monitor,
        t1.agents.dom().finite(),
        t1.rooms.dom().finite(),
        t1.members.finite(),
        t2.agents.dom().finite(),
        t2.rooms.dom().finite(),
        t2.members.finite(),
        t1.agents != t2.agents || t1.rooms != t2.rooms || (exists|room: Seq<char>, a: Seq<char>|
            t1.rooms.contains_key(room) && #[trigger] t1.members.contains((room, a))
                != t2.members.contains((room, a))),
    ensures
        ({
            let out = round_out(t2, after_round(t1, s));
            &&& out.len() > 0
            &&& out.last().event == "roster"@
            &&& field(out.last().value, "agents"@) matches Some(JsonData::Array(a))
                && tells_agents(a, t2)
            &&& field(out.last().value, "rooms"@) matches Some(JsonData::Array(a)) && tells_rooms(
                a,
                t2,
            )
        }),
{
    let now = after_round(t1, s);
    law_roster_is_current(t1, s);
    law_roster_is_current(t2, now);
    lemma_names();
    lemma_agents_told(t2);
    lemma_rooms_told(t2);
    let ids1 = sorted(t1.agents.dom());
    let ids2 = sorted(t2.agents.dom());
    let names1 = sorted(t1.rooms.dom());
    let names2 = sorted(t2.rooms.dom());
    lemma_lists_exist(t1.agents.dom());
    lemma_lists_exist(t2.agents.dom());
    lemma_lists_exist(t1.rooms.dom());
    lemma_lists_exist(t2.rooms.dom());
    if agent_entries(t1) == agent_entries(t2) && room_entries(t1) == room_entries(t2) {
        assert(ids1.len() == agent_entries(t1).len() && ids2.len() == agent_entries(t2).len());
        assert forall|i: int| 0 <= i < ids1.len() implies ids1[i] == ids2[i] && t1.agents[ids1[i]]
            == t2.agents[ids2[i]] by {
            assert(agent_entries(t1)[i].id == ids1[i] && agent_entries(t2)[i].id == ids2[i]);
            assert(agent_entries(t1)[i].status == agent_entries(t2)[i].status);
        }
        assert(ids1 =~= ids2);
        assert forall|a: Seq<char>| t1.agents.dom().contains(a) implies t2.agents.dom().contains(a)
            && t1.agents[a] == t2.agents[a] by {
            let i = choose|i: int| 0 <= i < ids1.len() && ids1[i] == a;
            assert(ids2.contains(a));
        }
        assert forall|a: Seq<char>| t2.agents.dom().contains(a) implies t1.agents.dom().contains(
            a,
        ) by {
            assert(ids1.contains(a));
        }
        assert(t1.agents =~= t2.agents);
        assert(names1.len() == room_entries(t1).len() && names2.len() == room_entries(t2).len());
        assert forall|i: int| 0 <= i < names1.len() implies names1[i] == names2[i]
            && t1.rooms[names1[i]] == t2.rooms[names2[i]] by {
            assert(room_entries(t1)[i].name == names1[i] && room_entries(t2)[i].name == names2[i]);
            assert(room_entries(t1)[i].owner == room_entries(t2)[i].owner);
            assert(room_entries(t1)[i].kind == room_entries(t2)[i].kind);
        }
        assert(names1 =~= names2);
        assert forall|r: Seq<char>| t1.rooms.dom().contains(r) implies t2.rooms.dom().contains(r)
            && t1.rooms[r] == t2.rooms[r] by {
            let i = choose|i: int| 0 <= i < names1.len() && names1[i] == r;
            assert(names2.contains(r));
        }
        assert forall|r: Seq<char>| t2.rooms.dom().contains(r) implies t1.rooms.dom().contains(
            r,
        ) by {
            assert(names1.contains(r));
        }
        assert(t1.rooms =~= t2.rooms);
        let (room, a) = choose|room: Seq<char>, a: Seq<char>|
            t1.rooms.contains_key(room) && #[trigger] t1.members.contains((room, a))
                != t2.members.contains((room, a));
        assert(t1.rooms.dom().contains(room));
        let i = choose|i: int| 0 <= i < names1.len() && names1[i] == room;
        assert(room_entries(t1)[i].members == room_entries(t2)[i].members);
        lemma_members_listed(t1, room);
        lemma_members_listed(t2, room);
        assert(members_of(t1, room).contains(a) == t1.members.contains((room, a)));
        assert(members_of(t2, room).contains(a) == t2.members.contains((room, a)));
        assert(false);
    }
}

proof fn lemma_members_listed(t: Tables, room: Seq<char>)
    requires
        t.members.finite(),
    ensures
        lists(sorted(members_of(t, room)), members_of(t, room)),
{
    let ends = t.members.map(|m: (Seq<char>, Seq<char>)| m.1);
    t.members.lemma_map_finite(|m: (Seq<char>, Seq<char>)| m.1);
    assert forall|s: Seq<char>| members_of(t, room).contains(s) implies ends.contains(s) by {
        assert(t.members.contains((room, s)));
        assert((room, s).1 == s);
    }
    vstd::set_lib::lemma_set_subset_finite(ends, members_of(t, room));
    lemma_lists_exist(members_of(t, room));
}

/// A round sends the messages that are due, in their order, then the events that are due, in
/// theirs, then at most a roster. A message that is consumed sets the cursor to its own number.
/// The marks go to the last of each, and nothing else of the stream changes but its roster.
pub proof fn law_round_sends_what_is_due(t: Tables, s: SessionData)
    requires
        well_formed(t),
        t.message_high <= i64::MAX,
        t.event_high <= i64::MAX,
        i64::MIN <= s.last_msg <= i64::MAX,
        i64::MIN <= s.last_evt <= i64::MAX,
    ensures
        ({
            let out = round_out(t, s);
            let found = due_messages(t, s);
            let noted = due_events(t, s);
            let next = after_round(t, s);
            &&& found.len() + noted.len() <= out.len() <= found.len() + noted.len() + 1
            &&& forall|i: int|
                0 <= i < found.len() ==> frames_message(#[trigger] out[i], found[i], s.last_evt)
                    && out[i].cursor == (if s.monitor || s.follow {
                    None
                } else {
                    Some(found[i].seq)
                })
            &&& forall|i: int|
                found.len() <= i < found.len() + noted.len() ==> frames_event(
                    #[trigger] out[i],
                    noted[i - found.len()],
                    next.last_msg,
                )
            &&& out.len() > found.len() + noted.len() ==> out.last().event == "roster"@
            &&& next == (SessionData {
                last_msg: if found.len() > 0 {
                    found.last().seq
                } else {
                    s.last_msg
                },
                last_evt: if noted.len() > 0 {
                    noted.last().seq
                } else {
                    s.last_evt
                },
                last_roster: next.last_roster,
                ..s
            })
        }),
{
    lemma_names();
    lemma_due(t, s);
    let out = round_out(t, s);
    let found = new_messages(t, s);
    let noted = new_events(t, s);
    lemma_messages_after(t, scope(t, s), s.last_msg);
    let number = |e: ProgressData| e.seq;
    let wanted = |e: ProgressData| s.monitor && belongs(t, s, e.room) && e.seq > s.last_evt;
    lemma_filter_order(t.events, number, wanted);
    assert(noted == t.events.filter(wanted));
    assert forall|i: int| 0 <= i < noted.len() implies 0 < (#[trigger] noted[i]).seq
        <= t.event_high by {
        assert(t.events.contains(noted[i]));
        let j = choose|j: int| 0 <= j < t.events.len() && t.events[j] == noted[i];
        assert(0 < t.events[j].seq <= t.event_high);
    }
    assert forall|i: int| 0 <= i < found.len() implies frames_message(
        #[trigger] out[i],
        found[i],
        s.last_evt,
    ) && out[i].cursor == (if s.monitor || s.follow {
        None
    } else {
        Some(found[i].seq)
    }) by {
        assert(out[i] == message_out(found[i], s.last_evt, consumes(s)));
        assert(keys_of(out[i].value) =~= set!["seq"@, "room"@, "from"@, "text"@, "ts"@]);
        law_since_roundtrip(found[i].seq as i64, s.last_evt as i64);
    }
    let msg = msg_mark(t, s);
    assert forall|i: int| found.len() <= i < found.len() + noted.len() implies frames_event(
        #[trigger] out[i],
        noted[i - found.len()],
        after_round(t, s).last_msg,
    ) by {
        let e = noted[i - found.len()];
        assert(out[i] == event_out(e, msg));
        lemma_event_told(e);
        law_since_roundtrip(msg as i64, e.seq as i64);
    }
}

/// A frame arrives as what was sent: with its event, its id, and data that read as its value.
pub proof fn law_frame_is_read_back(o: OutgoingData)
    requires
        json_parse(json_text(o.value)) == Some(o.value),
    ensures
        block_of(o) matches EventData::Frame { event, id, data } && event == o.event && id == Some(
            o.id,
        ) && json_parse(data) == Some(o.value),
{
}

/// What a stream is asked for: a monitor, or one room. Flags count only where they are `true`.
/// The time is in seconds, two minutes where none is given or a negative one. Where to resume
/// stands in the header, or else in the body. Anything else is refused with 400.
pub proof fn law_plan(b: JsonData, last_event_id: Option<Seq<char>>)
    ensures
        ({
            let p = plan_of(b, last_event_id);
            let monitor = holds(b, "mode"@, JsonData::Text("monitor"@));
            let recv = holds(b, "mode"@, JsonData::Text("recv"@));
            &&& p is Ok <==> monitor || (recv && text_field(b, "room"@) is Some)
            &&& p matches Err(e) ==> e.code == 400
            &&& p matches Err(e) ==> e.msg == (if recv {
                "recv requires 'room'"@
            } else {
                "mode must be \"recv\" or \"monitor\""@
            })
            &&& p matches Ok(p) ==> {
                &&& p.monitor == monitor
                &&& p.room == text_field(b, "room"@)
                &&& p.follow == holds(b, "follow"@, JsonData::Bool(true))
                &&& p.once == holds(b, "once"@, JsonData::Bool(true))
                &&& last_event_id matches Some(id) ==> p.since == since_value(id)
                &&& last_event_id is None ==> (text_field(b, "since"@) matches Some(id)
                    ==> p.since == since_value(id))
                &&& last_event_id is None && text_field(b, "since"@) is None ==> p.since is None
                &&& number_field(b, "timeout"@) matches Some(n) ==> {
                    &&& n < 0 ==> p.timeout_ms == 120_000
                    &&& n >= 0 && n * 1000 <= u64::MAX ==> p.timeout_ms == n * 1000
                    &&& n * 1000 > u64::MAX ==> p.timeout_ms == u64::MAX
                }
                &&& number_field(b, "timeout"@) is None ==> p.timeout_ms == 120_000
            }
        }),
{
    lemma_names();
    assert("recv"@ != "monitor"@);
    assert(text_field(b, "mode"@) == Some("monitor"@) <==> holds(
        b,
        "mode"@,
        JsonData::Text("monitor"@),
    ));
    assert(text_field(b, "mode"@) == Some("recv"@) <==> holds(b, "mode"@, JsonData::Text("recv"@)));
    assert(bool_field(b, "follow"@) == Some(true) <==> holds(b, "follow"@, JsonData::Bool(true)));
    assert(bool_field(b, "once"@) == Some(true) <==> holds(b, "once"@, JsonData::Bool(true)));
}

/// A stream begins at the marks that it was given. Without them a monitor begins at the
/// beginning, and a stream of one room at its agent's cursor there and the highest number among
/// the events, or zero if that could not be looked up. It has sent no roster.
pub proof fn law_stream_begins(t: Tables, p: PlanData, agent: Seq<char>, looked: bool)
    ensures
        ({
            let s = started_if(t, p, agent, looked);
            &&& s.agent == agent
            &&& s.monitor == p.monitor
            &&& s.follow == p.follow
            &&& s.room == p.room
            &&& s.once == p.once
            &&& s.timeout_ms == p.timeout_ms
            &&& s.last_roster is None
            &&& p.since matches Some(marks) ==> s.last_msg == marks.0 && s.last_evt == marks.1
            &&& p.since is None && p.monitor ==> s.last_msg == 0 && s.last_evt == 0
            &&& p.since is None && !p.monitor && p.room is Some ==> {
                let at = (agent, p.room->0);
                &&& t.cursors.contains_key(at) ==> s.last_msg == t.cursors[at]
                &&& !t.cursors.contains_key(at) ==> s.last_msg == 0
                &&& !looked || t.events.len() == 0 ==> s.last_evt == 0
                &&& looked && t.events.len() > 0 ==> s.last_evt == t.events[t.events.len()
                    - 1].seq
            }
        }),
{
}

/// A stream that wrote something, or has not finished its backlog, looks again; a one-shot one
/// that wrote something ends, and so does one whose time is up. Otherwise it waits: until a
/// comment is due, twenty seconds after the last byte, but a tenth of a second at least; and no
/// longer than its time, if it is one-shot.
pub proof fn law_what_comes_next(s: SessionData, wrote: bool, live: bool, idle_ms: int, age_ms: int)
    requires
        0 <= idle_ms,
        0 <= age_ms,
        0 <= s.timeout_ms <= u64::MAX,
    ensures
        ({
            let next = next_step(s, wrote, live, idle_ms, age_ms);
            &&& s.once && wrote ==> next == Next::Close
            &&& !s.once && wrote ==> next == Next::Round
            &&& !wrote && !live ==> next == Next::Round
            &&& !wrote && live && s.once && age_ms >= s.timeout_ms ==> next == Next::Close
            &&& !wrote && live && (!s.once || age_ms < s.timeout_ms) ==> (next matches Next::Park {
                keepalive,
                wait_ms,
            } && {
                &&& keepalive == (idle_ms >= 20_000)
                &&& !s.once && idle_ms >= 20_000 ==> wait_ms == 20_000
                &&& !s.once && 19_900 <= idle_ms < 20_000 ==> wait_ms == 100
                &&& !s.once && idle_ms < 19_900 ==> idle_ms + wait_ms == 20_000
                &&& s.once ==> {
                    let other = next_step(
                        SessionData { once: false, ..s },
                        wrote,
                        live,
                        idle_ms,
                        age_ms,
                    );
                    &&& wait_ms <= other->wait_ms
                    &&& age_ms + wait_ms <= s.timeout_ms
                    &&& wait_ms == other->wait_ms || age_ms + wait_ms == s.timeout_ms
                }
            })
        }),
{
}

/// A message that was written on a stream of one room that is not followed is read by its agent
/// there, and by nobody else and nowhere else; any other stream leaves all cursors alone. After
/// the last message of a round nothing is left that its agent could be sent again.
pub proof fn law_delivery_is_reading(t: Tables, s: SessionData, seq: int)
    requires
        !s.monitor ==> s.room is Some,
    ensures
        ({
            let after = after_delivery(t, s, seq);
            let at = (s.agent, s.room->0);
            &&& s.monitor || s.follow ==> after == t
            &&& !s.monitor && !s.follow ==> {
                &&& after == (Tables { cursors: after.cursors, ..t })
                &&& after.cursors.contains_key(at)
                &&& after.cursors[at] == seq
                &&& after.cursors.remove(at) == t.cursors.remove(at)
            }
        }),
        well_formed(t) && !s.monitor && !s.follow && due_messages(t, s).len() > 0 ==> unread(
            after_delivery(t, s, after_round(t, s).last_msg),
            s.agent,
            s.room->0,
        ).len() == 0,
{
    let after = after_delivery(t, s, seq);
    let at = (s.agent, s.room->0);
    if !s.monitor && !s.follow {
        assert(after.cursors.remove(at) =~= t.cursors.remove(at));
    }
    lemma_due(t, s);
    if well_formed(t) && !s.monitor && !s.follow && due_messages(t, s).len() > 0 {
        law_recv_leaves_nothing_unread(t, s);
    }
}

} // verus!
