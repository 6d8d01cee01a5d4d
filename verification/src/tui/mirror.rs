//! The dashboard shows what the server holds: what it makes of the frames of messages, events and
//! rosters, said of what was recorded.

use crate::delivery::lemma_filter_agree;
use crate::json::{array_field, field, int_field, json_parse, json_text, text_field, JsonData};
use crate::names::lemma_names;
use crate::ops::event_json;
use crate::requests::{holds, lemma_event_told, tells_event, tells_message};
use crate::rounds::{
    are_texts, frames_roster, lemma_roster_framed, tells_agent_entries, tells_room_entry,
};
use crate::server::error_json;
use crate::sse::{law_since_roundtrip, since_text, since_value, EventData};
use crate::store::{AgentEntry, RoomEntry};
use crate::stream::{
    block_of, event_out, message_out, plan_of, roster_out, stream_message_json, OutgoingData,
    RosterData,
};
use crate::tables::{MessageData, ProgressData};
use crate::text::lemma_first_of;
use crate::tui::{
    agent_infos, event_infos, item_infos, reply_data, room_infos, EventInfo, ItemInfo, MsgInfo,
    RoomInfo, Snapshot,
};
use crate::tui::data::{
    agents_of, at_time, capped, event_of, feed_after, feed_step, item_key, law_merge_is_in_time,
    law_merge_is_stable, merged, monitor_json, msg_of, not_after, published, roster_rooms, rooms_after,
    strings_of, with_item, FeedData, ThreadMap,
};
use crate::tui::view::{no_progress, progressed, ProgressInfo};
use vstd::prelude::*;

verus! {

/// What the dashboard holds of an event is what was recorded, field by field.
pub open spec fn mirrors_event(e: EventInfo, p: ProgressData) -> bool {
    &&& e.room == p.room
    &&& e.agent == p.agent
    &&& e.kind == p.kind
    &&& e.task == p.task
    &&& e.phase == p.phase
    &&& e.step_cur == p.step_cur
    &&& e.step_total == p.step_total
    &&& e.percent == p.percent
    &&& e.target == p.target
    &&& e.note == p.note
    &&& e.ts == p.ts
}

/// What the dashboard holds of a message is what was recorded, field by field.
pub open spec fn mirrors_message(x: MsgInfo, m: MessageData) -> bool {
    x.from == m.from && x.text == m.text && x.ts == m.ts
}

/// What the dashboard holds of a room is what the server told of it.
pub open spec fn mirrors_room(x: RoomInfo, r: RoomEntry) -> bool {
    x.name == r.name && x.rtype == r.kind && x.owner == r.owner && x.members == r.members
}

/// Every recorded event comes through to the dashboard: what it reads off the JSON that the server
/// writes for an event, in a reply and in a frame, and off any object that tells the event, is
/// that event. After the start of a task the label in the panel is the task of that event.
pub proof fn law_events_come_through(
    p: ProgressData,
    last_msg: int,
    d: JsonData,
    before: ProgressInfo,
)
    ensures
        event_of(event_json(p)) matches Some(e) && mirrors_event(e, p),
        event_of(event_out(p, last_msg).value) matches Some(e) && mirrors_event(e, p),
        tells_event(d, p) ==> (event_of(d) matches Some(e) && mirrors_event(e, p)),
        int_field(d, "seq"@) is None ==> event_of(d) is None,
        p.kind == "task-start"@ ==> progressed(before, event_of(event_json(p))->0).task_label
            == p.task,
{
    lemma_names();
    lemma_event_told(p);
}

/// Every recorded message comes through to the dashboard.
pub proof fn law_messages_come_through(m: MessageData, last_evt: int, consuming: bool, d: JsonData)
    ensures
        mirrors_message(msg_of(stream_message_json(m)), m),
        mirrors_message(msg_of(message_out(m, last_evt, consuming).value), m),
        tells_message(d, m) ==> mirrors_message(msg_of(d), m),
{
    lemma_names();
}

proof fn lemma_agents_read(a: Seq<JsonData>, agents: Seq<AgentEntry>)
    requires
        tells_agent_entries(a, agents),
    ensures
        agents_of(a) == agents,
    decreases a.len(),
{
    lemma_names();
    if a.len() > 0 {
        let front = a.drop_last();
        assert forall|i: int| 0 <= i < front.len() implies holds(
            #[trigger] front[i],
            "id"@,
            JsonData::Text(agents.drop_last()[i].id),
        ) && holds(front[i], "status"@, JsonData::Text(agents.drop_last()[i].status)) by {
            assert(front[i] == a[i]);
        }
        lemma_agents_read(front, agents.drop_last());
        assert(holds(a[a.len() - 1], "id"@, JsonData::Text(agents[a.len() - 1].id)));
        assert(agents =~= agents.drop_last().push(agents.last()));
    } else {
        assert(agents =~= Seq::<AgentEntry>::empty());
    }
}

proof fn lemma_texts_read(v: Seq<JsonData>, texts: Seq<Seq<char>>)
    requires
        are_texts(v, texts),
    ensures
        strings_of(v) == texts,
    decreases v.len(),
{
    if v.len() > 0 {
        let front = v.drop_last();
        assert forall|i: int| 0 <= i < front.len() implies #[trigger] front[i] == JsonData::Text(
            texts.drop_last()[i],
        ) by {
            assert(front[i] == v[i]);
        }
        lemma_texts_read(front, texts.drop_last());
        assert(v[v.len() - 1] == JsonData::Text(texts[v.len() - 1]));
        assert(texts =~= texts.drop_last().push(texts.last()));
    } else {
        assert(texts =~= Seq::<Seq<char>>::empty());
    }
}

/// Every roster comes through to the dashboard: it holds exactly the agents and the rooms that the
/// frame tells, in their order. Of a room that it knew it keeps the count and the latest message;
/// of any other it has seen nothing.
pub proof fn law_rosters_come_through(
    o: OutgoingData,
    agents: Seq<AgentEntry>,
    rooms: Seq<RoomEntry>,
    before: Seq<RoomInfo>,
)
    requires
        frames_roster(o, agents, rooms),
    ensures
        agents_of(array_field(o.value, "agents"@)) == agents,
        ({
            let after = roster_rooms(before, o.value);
            &&& after.len() == rooms.len()
            &&& forall|i: int| 0 <= i < rooms.len() ==> mirrors_room(#[trigger] after[i], rooms[i])
            &&& forall|i: int, k: int|
                0 <= i < rooms.len() && 0 <= k < before.len() && before[k].name == rooms[i].name && (
                forall|j: int| 0 <= j < k ==> (#[trigger] before[j]).name != rooms[i].name)
                    ==> (#[trigger] after[i]).total_seen == (#[trigger] before[k]).total_seen
                    && after[i].last == before[k].last
            &&& forall|i: int|
                0 <= i < rooms.len() && (forall|k: int|
                    0 <= k < before.len() ==> (#[trigger] before[k]).name != rooms[i].name)
                    ==> (#[trigger] after[i]).total_seen == 0 && after[i].last is None
        }),
{
    lemma_names();
    let a = field(o.value, "agents"@)->0->Array_0;
    lemma_agents_read(a, agents);
    let listed = field(o.value, "rooms"@)->0->Array_0;
    let after = roster_rooms(before, o.value);
    assert forall|i: int| 0 <= i < rooms.len() implies mirrors_room(#[trigger] after[i], rooms[i]) by {
        assert(tells_room_entry(listed[i], rooms[i]));
        let v = field(listed[i], "members"@)->0->Array_0;
        lemma_texts_read(v, rooms[i].members);
    }
    let names = Seq::new(before.len(), |j: int| before[j].name);
    assert forall|i: int, k: int|
        0 <= i < rooms.len() && 0 <= k < before.len() && before[k].name == rooms[i].name && (forall|
            j: int,
        |
            0 <= j < k ==> (#[trigger] before[j]).name != rooms[i].name) implies (
    #[trigger] after[i]).total_seen == (#[trigger] before[k]).total_seen && after[i].last
        == before[k].last by {
        assert(mirrors_room(after[i], rooms[i]));
        lemma_first_of(names, rooms[i].name, k);
    }
    assert forall|i: int|
        0 <= i < rooms.len() && (forall|k: int|
            0 <= k < before.len() ==> (#[trigger] before[k]).name != rooms[i].name) implies (
    #[trigger] after[i]).total_seen == 0 && after[i].last is None by {
        assert(mirrors_room(after[i], rooms[i]));
        lemma_first_of(names, rooms[i].name, before.len() as int);
    }
}

/// The entries of a list with one more behind them, of which the last ones are kept.
pub open spec fn grows_by<T>(before: Seq<T>, after: Seq<T>, x: T, most: int) -> bool {
    &&& after.len() > 0
    &&& after.last() == x
    &&& before.len() < most ==> after.drop_last() == before
    &&& before.len() >= most ==> after.len() == most && after.drop_last() == before.skip(
        before.len() - most + 1,
    )
}

/// The thread of one room has one more entry, of which the last five hundred are kept; the others
/// are as they were.
pub open spec fn thread_grows(
    before: ThreadMap,
    after: ThreadMap,
    room: Seq<char>,
    x: ItemInfo,
) -> bool {
    &&& after.contains_key(room)
    &&& grows_by(
        if before.contains_key(room) {
            before[room]
        } else {
            Seq::empty()
        },
        after[room],
        x,
        500,
    )
    &&& after.remove(room) == before.remove(room)
}

proof fn lemma_thread_grows(threads: ThreadMap, room: Seq<char>, x: ItemInfo)
    ensures
        thread_grows(threads, with_item(threads, room, x), room, x),
{
    let after = with_item(threads, room, x);
    let had = if threads.contains_key(room) {
        threads[room]
    } else {
        Seq::empty()
    };
    assert(after.remove(room) =~= threads.remove(room));
    lemma_grows(had, x, 500);
}

proof fn lemma_grows<T>(s: Seq<T>, x: T, most: int)
    requires
        most > 0,
    ensures
        grows_by(s, capped(s.push(x), most), x, most),
{
    let after = capped(s.push(x), most);
    if s.len() < most {
        assert(after.drop_last() =~= s);
    } else {
        assert(after.drop_last() =~= s.skip(s.len() - most + 1));
    }
}

/// The marks of the feed after a frame with the id of these two numbers: they never go back.
pub open spec fn marks_move(before: FeedData, after: FeedData, msg: int, evt: int) -> bool {
    &&& after.last_msg == before.last_msg || after.last_msg == msg
    &&& after.last_evt == before.last_evt || after.last_evt == evt
    &&& after.last_msg >= before.last_msg && after.last_msg >= msg
    &&& after.last_evt >= before.last_evt && after.last_evt >= evt
}

/// A frame of an event that arrives puts the event at the end of the events, of which the last two
/// thousand are kept, and at the end of the thread of its room. Agents, rooms and the other
/// threads stay as they were.
pub proof fn law_event_arrives(f: FeedData, p: ProgressData, last_msg: i64)
    requires
        json_parse(json_text(event_out(p, last_msg as int).value)) == Some(
            event_out(p, last_msg as int).value,
        ),
        i64::MIN <= p.seq <= i64::MAX,
    ensures
        ({
            let after = feed_step(f, block_of(event_out(p, last_msg as int)));
            let e = after.events.last();
            &&& mirrors_event(e, p)
            &&& grows_by(f.events, after.events, e, 2000)
            &&& thread_grows(f.threads, after.threads, p.room, ItemInfo::Evt(e))
            &&& after.agents == f.agents
            &&& after.rooms == f.rooms
            &&& marks_move(f, after, last_msg as int, p.seq)
        }),
{
    lemma_names();
    law_events_come_through(p, last_msg as int, JsonData::Null, no_progress());
    law_since_roundtrip(last_msg, p.seq as i64);
    let e = event_of(event_out(p, last_msg as int).value)->0;
    lemma_grows(f.events, e, 2000);
    lemma_thread_grows(f.threads, p.room, ItemInfo::Evt(e));
}

/// A room has one more message: it is counted, and it is the latest. A room that was not known is
/// added with it. The other rooms are as they were.
pub open spec fn room_gets(
    before: Seq<RoomInfo>,
    after: Seq<RoomInfo>,
    room: Seq<char>,
    x: MsgInfo,
) -> bool {
    &&& (forall|k: int| 0 <= k < before.len() ==> (#[trigger] before[k]).name != room) ==> {
        &&& after.len() == before.len() + 1
        &&& after.drop_last() == before
        &&& after.last().name == room
        &&& after.last().total_seen == 1
        &&& after.last().last == Some(x)
        &&& after.last().members.len() == 0
        &&& after.last().owner.len() == 0
        &&& after.last().rtype.len() == 0
    }
    &&& forall|i: int|
        0 <= i < before.len() && (#[trigger] before[i]).name == room && (forall|j: int|
            0 <= j < i ==> (#[trigger] before[j]).name != room) ==> {
            &&& after.len() == before.len()
            &&& after[i].name == room
            &&& after[i].rtype == before[i].rtype
            &&& after[i].owner == before[i].owner
            &&& after[i].members == before[i].members
            &&& before[i].total_seen < u64::MAX ==> after[i].total_seen == before[i].total_seen + 1
            &&& before[i].total_seen == u64::MAX ==> after[i].total_seen == u64::MAX
            &&& after[i].last == Some(x)
            &&& forall|j: int| 0 <= j < before.len() && j != i ==> #[trigger] after[j] == before[j]
        }
}

proof fn lemma_room_gets(rooms: Seq<RoomInfo>, room: Seq<char>, x: MsgInfo)
    ensures
        room_gets(rooms, rooms_after(rooms, room, x), room, x),
{
    let after = rooms_after(rooms, room, x);
    let names = Seq::new(rooms.len(), |j: int| rooms[j].name);
    if forall|k: int| 0 <= k < rooms.len() ==> (#[trigger] rooms[k]).name != room {
        lemma_first_of(names, room, rooms.len() as int);
        assert(after.drop_last() =~= rooms);
    }
    assert forall|i: int|
        0 <= i < rooms.len() && (#[trigger] rooms[i]).name == room && (forall|j: int|
            0 <= j < i ==> (#[trigger] rooms[j]).name != room) implies {
        &&& after.len() == rooms.len()
        &&& after[i].name == room
        &&& after[i].rtype == rooms[i].rtype
        &&& after[i].owner == rooms[i].owner
        &&& after[i].members == rooms[i].members
        &&& rooms[i].total_seen < u64::MAX ==> after[i].total_seen == rooms[i].total_seen + 1
        &&& rooms[i].total_seen == u64::MAX ==> after[i].total_seen == u64::MAX
        &&& after[i].last == Some(x)
        &&& forall|j: int| 0 <= j < rooms.len() && j != i ==> #[trigger] after[j] == rooms[j]
    } by {
        lemma_first_of(names, room, i);
    }
}

/// A frame of a message that arrives counts it in its room, shows it there as the latest, and puts
/// it at the end of the room's thread. Agents and events stay as they were. Of a message of a
/// channel, whose key begins with an `@`, nothing is shown: only the marks move.
pub proof fn law_message_arrives(f: FeedData, m: MessageData, last_evt: i64, consuming: bool)
    requires
        json_parse(json_text(message_out(m, last_evt as int, consuming).value)) == Some(
            message_out(m, last_evt as int, consuming).value,
        ),
        i64::MIN <= m.seq <= i64::MAX,
    ensures
        ({
            let after = feed_step(f, block_of(message_out(m, last_evt as int, consuming)));
            let hidden = m.room.len() > 0 && m.room[0] == '@';
            &&& after.agents == f.agents
            &&& after.events == f.events
            &&& marks_move(f, after, m.seq, last_evt as int)
            &&& hidden ==> after.rooms == f.rooms && after.threads == f.threads
            &&& !hidden ==> {
                let x = MsgInfo { from: m.from, text: m.text, ts: m.ts };
                &&& room_gets(f.rooms, after.rooms, m.room, x)
                &&& thread_grows(f.threads, after.threads, m.room, ItemInfo::Msg(x))
            }
        }),
{
    lemma_names();
    let o = message_out(m, last_evt as int, consuming);
    law_messages_come_through(m, last_evt as int, consuming, JsonData::Null);
    law_since_roundtrip(m.seq as i64, last_evt);
    let x = msg_of(o.value);
    assert(x == MsgInfo { from: m.from, text: m.text, ts: m.ts });
    assert(holds(o.value, "room"@, JsonData::Text(m.room)));
    lemma_room_gets(f.rooms, m.room, x);
    lemma_thread_grows(f.threads, m.room, ItemInfo::Msg(x));
}

/// A frame of a roster that arrives replaces the agents and the rooms by those that it tells. The
/// events and all threads stay as they were.
pub proof fn law_roster_arrives(f: FeedData, r: RosterData, last_msg: i64, last_evt: i64)
    requires
        json_parse(json_text(roster_out(r, last_msg as int, last_evt as int).value)) == Some(
            roster_out(r, last_msg as int, last_evt as int).value,
        ),
    ensures
        ({
            let after = feed_step(f, block_of(roster_out(r, last_msg as int, last_evt as int)));
            &&& after.agents == r.agents
            &&& after.rooms.len() == r.rooms.len()
            &&& forall|i: int|
                0 <= i < r.rooms.len() ==> mirrors_room(#[trigger] after.rooms[i], r.rooms[i])
            &&& after.events == f.events
            &&& after.threads == f.threads
            &&& marks_move(f, after, last_msg as int, last_evt as int)
        }),
{
    lemma_names();
    let o = roster_out(r, last_msg as int, last_evt as int);
    lemma_roster_framed(r, last_msg as int, last_evt as int);
    law_since_roundtrip(last_msg, last_evt);
    law_rosters_come_through(o, r.agents, r.rooms, f.rooms);
}

/// Comments change nothing. Frames of other events, and data that is no JSON, move at most the
/// marks, and only where the id is one.
pub proof fn law_nothing_else_counts(
    f: FeedData,
    comment: Seq<char>,
    event: Seq<char>,
    id: Option<Seq<char>>,
    data: Seq<char>,
)
    ensures
        feed_step(f, EventData::Comment(comment)) == f,
        event != "message"@ && event != "progress"@ && event != "roster"@ || json_parse(
            data,
        ) is None ==> {
            let after = feed_step(f, EventData::Frame { event, id, data });
            &&& after.agents == f.agents
            &&& after.rooms == f.rooms
            &&& after.events == f.events
            &&& after.threads == f.threads
            &&& id is None || since_value(id->0) is None ==> after == f
        },
{
}

/// A dashboard that connects again asks for all rooms behind its marks, as a monitor that follows
/// nothing, is not one-shot and consumes nothing.
pub proof fn law_dashboard_resumes(agent: Seq<char>, last_msg: i64, last_evt: i64)
    ensures
        plan_of(monitor_json(agent), Some(since_text(last_msg as int, last_evt as int))) matches Ok(
            p,
        ) && p.monitor && p.room is None && p.since == Some((last_msg as int, last_evt as int))
            && !p.follow && !p.once,
        holds(monitor_json(agent), "agent"@, JsonData::Text(agent)),
{
    lemma_names();
    law_since_roundtrip(last_msg, last_evt);
}

/// When an entry of a thread was: a message without a time counts as older than all others.
pub open spec fn time_of(x: ItemInfo) -> int {
    match x {
        ItemInfo::Msg(m) => match m.ts {
            Some(ts) => ts,
            None => i64::MIN as int,
        },
        ItemInfo::Evt(e) => e.ts,
    }
}

/// A merged thread goes forward in time; of entries of one time, messages come before events. Of
/// one time, messages keep the order in which they came, and so do events.
pub proof fn law_thread_goes_forward(s: Seq<ItemInfo>, ts: int)
    requires
        ts > i64::MIN,
    ensures
        ({
            let all = merged(s);
            &&& all.len() == s.len()
            &&& forall|i: int, j: int|
                0 <= i < j < all.len() ==> time_of(#[trigger] all[i]) <= time_of(#[trigger] all[j])
            &&& forall|i: int, j: int|
                0 <= i < j < all.len() && time_of(#[trigger] all[i]) == time_of(#[trigger] all[j])
                    && all[i] is Evt ==> all[j] is Evt
            &&& all.filter(|x: ItemInfo| x is Msg && time_of(x) == ts) =~= s.filter(
                |x: ItemInfo| x is Msg && time_of(x) == ts,
            )
            &&& all.filter(|x: ItemInfo| x is Evt && time_of(x) == ts) =~= s.filter(
                |x: ItemInfo| x is Evt && time_of(x) == ts,
            )
        }),
{
    let all = merged(s);
    law_merge_is_in_time(s);
    law_merge_is_stable(s, (ts, 0));
    law_merge_is_stable(s, (ts, 1));
    let m = |x: ItemInfo| x is Msg && time_of(x) == ts;
    let e = |x: ItemInfo| x is Evt && time_of(x) == ts;
    lemma_filter_agree(all, at_time((ts, 0)), m);
    lemma_filter_agree(s, at_time((ts, 0)), m);
    lemma_filter_agree(all, at_time((ts, 1)), e);
    lemma_filter_agree(s, at_time((ts, 1)), e);
    assert forall|i: int, j: int| 0 <= i < j < all.len() implies time_of(#[trigger] all[i])
        <= time_of(#[trigger] all[j]) && (time_of(all[i]) == time_of(all[j]) && all[i] is Evt
        ==> all[j] is Evt) by {
        assert(not_after(all[i], all[j]));
    }
}

/// What a frame lacks is shown as empty: texts of a message or an event that are not there, and
/// numbers and times that are not there or are none.
pub proof fn law_what_is_not_there_is_empty(d: JsonData)
    ensures
        text_field(d, "from"@) is None ==> msg_of(d).from.len() == 0,
        text_field(d, "text"@) is None ==> msg_of(d).text.len() == 0,
        int_field(d, "ts"@) is None ==> msg_of(d).ts is None,
        int_field(d, "seq"@) is Some ==> (event_of(d) matches Some(e) && {
            &&& text_field(d, "room"@) is None ==> e.room.len() == 0
            &&& text_field(d, "agent"@) is None ==> e.agent.len() == 0
            &&& text_field(d, "kind"@) is None ==> e.kind.len() == 0
            &&& text_field(d, "task"@) is None ==> e.task is None
            &&& text_field(d, "phase"@) is None ==> e.phase is None
            &&& text_field(d, "target"@) is None ==> e.target is None
            &&& text_field(d, "note"@) is None ==> e.note is None
            &&& int_field(d, "step_cur"@) is None ==> e.step_cur is None
            &&& int_field(d, "step_total"@) is None ==> e.step_total is None
            &&& int_field(d, "percent"@) is None ==> e.percent is None
            &&& int_field(d, "ts"@) is None ==> e.ts == 0
        }),
{
}

/// Of a roster, agents without a name are left out, and so are members that are no texts; rooms
/// are shown with what they have. A message frame without a room changes nothing but the marks.
pub proof fn law_partial_rosters(v: Seq<JsonData>, d: JsonData, rooms: Seq<RoomInfo>, f: FeedData)
    ensures
        text_field(d, "id"@) is None ==> agents_of(v.push(d)) == agents_of(v),
        text_field(d, "id"@) matches Some(id) ==> agents_of(v.push(d)) == agents_of(v).push(
            AgentEntry {
                id,
                status: match text_field(d, "status"@) {
                    Some(status) => status,
                    None => Seq::empty(),
                },
            },
        ),
        agents_of(Seq::empty()).len() == 0,
        d matches JsonData::Text(s) ==> strings_of(v.push(d)) == strings_of(v).push(s),
        !(d is Text) ==> strings_of(v.push(d)) == strings_of(v),
        strings_of(Seq::empty()).len() == 0,
        !(field(d, "rooms"@) matches Some(JsonData::Array(_))) ==> roster_rooms(rooms, d).len() == 0,
        text_field(d, "room"@) is None ==> feed_after(f, "message"@, Some(d)) == f,
        feed_after(f, "message"@, None) == f,
        feed_after(f, "progress"@, None) == f,
        feed_after(f, "roster"@, None) == f,
{
    lemma_names();
    assert(v.push(d).drop_last() =~= v);
}

/// A refresh shows the feed: its agents, rooms and events as they are, and of the room that is
/// looked into all entries of its thread, forward in time. It counts as one more, and as made now;
/// the server counts as connected, and the observer stays.
pub proof fn law_refresh_shows_feed(
    f: FeedData,
    before: Snapshot,
    after: Snapshot,
    focus: Option<Seq<char>>,
    now_ms: u64,
)
    requires
        published(f, before, after, focus, now_ms),
    ensures
        after.health is Connected,
        agent_infos(after.agents@) == f.agents,
        room_infos(after.rooms@) == f.rooms,
        event_infos(after.events@) == f.events,
        after.observer == before.observer,
        after.last_update == Some(now_ms),
        before.polls < u64::MAX ==> after.polls == before.polls + 1,
        focus is None ==> after.thread is None,
        focus matches Some(room) ==> (after.thread matches Some(t) && {
            let items = item_infos(t.items@);
            let came = if f.threads.contains_key(room) {
                f.threads[room]
            } else {
                Seq::empty()
            };
            &&& t.room@ == room
            &&& items.len() == came.len()
            &&& forall|x: ItemInfo| #[trigger] items.contains(x) <==> came.contains(x)
            &&& forall|i: int, j: int|
                0 <= i < j < items.len() ==> time_of(#[trigger] items[i]) <= time_of(
                    #[trigger] items[j],
                )
        }),
{
    if let Some(room) = focus {
        let came = if f.threads.contains_key(room) {
            f.threads[room]
        } else {
            Seq::empty()
        };
        let items = merged(came);
        law_thread_goes_forward(came, 0);
        assert forall|x: ItemInfo| #[trigger] items.contains(x) <==> came.contains(x) by {
            let key = item_key(x);
            let p = at_time(key);
            law_merge_is_stable(came, key);
            if items.contains(x) {
                let i = choose|i: int| 0 <= i < items.len() && items[i] == x;
                items.lemma_filter_contains(p, i);
                came.lemma_filter_contains_rev(p, x);
            }
            if came.contains(x) {
                let i = choose|i: int| 0 <= i < came.len() && came[i] == x;
                came.lemma_filter_contains(p, i);
                items.lemma_filter_contains_rev(p, x);
            }
        }
    }
}

/// An answer with status 200 is its document, or `null` where that is no JSON. Any other answer is
/// an error with its code and the reason that the server gave.
pub proof fn law_replies(code: int, doc: Option<JsonData>, msg: Seq<char>)
    ensures
        doc matches Some(d) ==> reply_data(200, doc) == Ok::<JsonData, (int, Seq<char>)>(d),
        reply_data(200, None) == Ok::<JsonData, (int, Seq<char>)>(JsonData::Null),
        code != 200 ==> reply_data(code, Some(error_json(msg))) == Err::<
            JsonData,
            (int, Seq<char>),
        >((code, msg)),
        code != 200 ==> (reply_data(code, doc) matches Err(e) && e.0 == code),
{
    lemma_names();
}

} // verus!
