//! What the dashboard makes of its stream: rooms, agents, the ring of progress events, and the
//! thread of each room.

use crate::json::{
    all_data, array_field, int_field, json_parse, json_text, object, parse, text, text_field,
    text_of, Json, JsonData,
};
use crate::sse::{parse_since, since_str, since_text, since_value, EventData, SseEvent};
use crate::store::AgentEntry;
use crate::text::{chars_of, copy, first_of, lemma_first_of, opt_text, same, texts};
use crate::tui::{
    agent_infos, copy_agent, copy_event, copy_item, copy_msg, copy_opt_msg, copy_room, event_infos,
    item_infos, room_infos, AgentView, EventInfo, EventView, Health, ItemInfo, MsgInfo, MsgView,
    RoomInfo, RoomThread, RoomView, Snapshot, ThreadItem,
};
use vstd::prelude::*;

verus! {

/// How many events the ring keeps.
pub const EVENT_RING_CAP: usize = 2000;

/// How many entries each room's thread keeps.
pub const ROOM_THREAD_CAP: usize = 500;

/// How long the dashboard sleeps at a time, in nanoseconds.
pub const NAP: u64 = 100_000_000;

// ---- frames

/// The string under a key, or the empty string.
pub open spec fn text_or_empty(d: JsonData, key: Seq<char>) -> Seq<char> {
    match text_field(d, key) {
        Some(s) => s,
        None => Seq::empty(),
    }
}

/// The message that a frame's data describes.
pub open spec fn msg_of(d: JsonData) -> MsgInfo {
    MsgInfo {
        from: text_or_empty(d, "from"@),
        text: text_or_empty(d, "text"@),
        ts: int_field(d, "ts"@),
    }
}

/// The event that a frame's data describes; one without a number is no event.
pub open spec fn event_of(d: JsonData) -> Option<EventInfo> {
    if int_field(d, "seq"@) is None {
        None
    } else {
        Some(
            EventInfo {
                room: text_or_empty(d, "room"@),
                agent: text_or_empty(d, "agent"@),
                kind: text_or_empty(d, "kind"@),
                task: text_field(d, "task"@),
                phase: text_field(d, "phase"@),
                step_cur: int_field(d, "step_cur"@),
                step_total: int_field(d, "step_total"@),
                percent: int_field(d, "percent"@),
                target: text_field(d, "target"@),
                note: text_field(d, "note"@),
                ts: match int_field(d, "ts"@) {
                    Some(ts) => ts,
                    None => 0,
                },
            },
        )
    }
}

/// The agents that data describes; those without an id are left out.
pub open spec fn agents_of(v: Seq<JsonData>) -> Seq<AgentEntry>
    decreases v.len(),
{
    if v.len() == 0 {
        Seq::empty()
    } else {
        let front = agents_of(v.drop_last());
        match text_field(v.last(), "id"@) {
            Some(id) => front.push(AgentEntry { id, status: text_or_empty(v.last(), "status"@) }),
            None => front,
        }
    }
}

/// The strings among values.
pub open spec fn strings_of(v: Seq<JsonData>) -> Seq<Seq<char>>
    decreases v.len(),
{
    if v.len() == 0 {
        Seq::empty()
    } else {
        let front = strings_of(v.drop_last());
        match v.last() {
            JsonData::Text(s) => front.push(s),
            _ => front,
        }
    }
}

/// The message that a frame's data describes.
pub fn parse_msg(m: &Json) -> (r: MsgView)
    ensures
        r@ == msg_of(m@),
{
    MsgView {
        from: m.get_text_or_empty("from"),
        text: m.get_text_or_empty("text"),
        ts: m.get_i64("ts"),
    }
}

/// The event that a frame's data describes.
pub fn parse_event(e: &Json) -> (r: Option<EventView>)
    ensures
        match r {
            Some(v) => event_of(e@) == Some(v@),
            None => event_of(e@) is None,
        },
{
    if e.get_i64("seq").is_none() {
        return None;
    }
    let ts: i64 = match e.get_i64("ts") {
        Some(ts) => ts,
        None => 0,
    };
    Some(
        EventView {
            room: e.get_text_or_empty("room"),
            agent: e.get_text_or_empty("agent"),
            kind: e.get_text_or_empty("kind"),
            task: e.get_text("task"),
            phase: e.get_text("phase"),
            step_cur: e.get_i64("step_cur"),
            step_total: e.get_i64("step_total"),
            percent: e.get_i64("percent"),
            target: e.get_text("target"),
            note: e.get_text("note"),
            ts,
        },
    )
}

/// The agents of a roster.
pub fn parse_agents(v: &Json) -> (r: Vec<AgentView>)
    ensures
        agent_infos(r@) == agents_of(array_field(v@, "agents"@)),
{
    let mut out: Vec<AgentView> = Vec::new();
    proof {
        assert(agent_infos(out@) =~= Seq::<AgentEntry>::empty());
    }
    if let Some(list) = v.get_array("agents") {
        let ghost all = all_data(list@);
        let mut i: usize = 0;
        while i < list.len()
            invariant
                i <= list@.len(),
                all == all_data(list@),
                agent_infos(out@) == agents_of(all.take(i as int)),
            decreases list@.len() - i,
        {
            proof {
                assert(all.take(i + 1).drop_last() =~= all.take(i as int));
                assert(all.take(i + 1).last() == list@[i as int]@);
            }
            if let Some(id) = list[i].get_text("id") {
                let agent = AgentView { id, status: list[i].get_text_or_empty("status") };
                let ghost before = agent_infos(out@);
                out.push(agent);
                assert(agent_infos(out@) =~= before.push(agent@));
            }
            i += 1;
        }
        proof {
            assert(all.take(list@.len() as int) =~= all);
        }
    }
    out
}

/// The strings in the array under a key.
fn parse_strings(v: &Json, key: &str) -> (r: Vec<String>)
    ensures
        texts(r@) == strings_of(array_field(v@, key@)),
{
    let mut out: Vec<String> = Vec::new();
    proof {
        assert(texts(out@) =~= Seq::<Seq<char>>::empty());
    }
    if let Some(list) = v.get_array(key) {
        let ghost all = all_data(list@);
        let mut i: usize = 0;
        while i < list.len()
            invariant
                i <= list@.len(),
                all == all_data(list@),
                texts(out@) == strings_of(all.take(i as int)),
            decreases list@.len() - i,
        {
            proof {
                assert(all.take(i + 1).drop_last() =~= all.take(i as int));
                assert(all.take(i + 1).last() == list@[i as int]@);
            }
            if let Some(s) = list[i].as_str() {
                let ghost before = texts(out@);
                out.push(copy(s));
                assert(texts(out@) =~= before.push(s@));
            }
            i += 1;
        }
        proof {
            assert(all.take(list@.len() as int) =~= all);
        }
    }
    out
}

// ---- threads

/// The last `cap` entries.
pub open spec fn capped<T>(s: Seq<T>, cap: int) -> Seq<T> {
    if s.len() > cap {
        s.skip(s.len() - cap)
    } else {
        s
    }
}

/// The threads of all rooms, by the rooms' names.
pub type ThreadMap = Map<Seq<char>, Seq<ItemInfo>>;

/// The threads with one more entry in a room's; the oldest entries give way.
pub open spec fn with_item(threads: ThreadMap, room: Seq<char>, item: ItemInfo) -> ThreadMap {
    let before = if threads.contains_key(room) {
        threads[room]
    } else {
        Seq::empty()
    };
    threads.insert(room, capped(before.push(item), ROOM_THREAD_CAP as int))
}

/// A room's name and the entries of its thread.
#[derive(Debug, PartialEq, Eq)]
pub struct Buffer {
    pub room: String,
    pub items: Vec<ThreadItem>,
}

/// The threads of all rooms.
#[derive(Debug, PartialEq, Eq)]
pub struct Threads {
    buffers: Vec<Buffer>,
}

/// The threads that buffers hold: the first buffer with a name counts.
spec fn thread_map(buffers: Seq<Buffer>) -> ThreadMap
    decreases buffers.len(),
{
    if buffers.len() == 0 {
        Map::empty()
    } else {
        let front = thread_map(buffers.drop_last());
        if front.contains_key(buffers.last().room@) {
            front
        } else {
            front.insert(buffers.last().room@, item_infos(buffers.last().items@))
        }
    }
}

impl View for Threads {
    type V = ThreadMap;

    closed spec fn view(&self) -> ThreadMap {
        thread_map(self.buffers@)
    }
}

/// A room without a buffer has no thread; a room's thread is that of its first buffer.
proof fn lemma_thread_map(buffers: Seq<Buffer>, room: Seq<char>, i: int)
    requires
        0 <= i <= buffers.len(),
        forall|k: int| 0 <= k < i ==> (#[trigger] buffers[k]).room@ != room,
        i < buffers.len() ==> buffers[i].room@ == room,
    ensures
        thread_map(buffers).contains_key(room) == (i < buffers.len()),
        i < buffers.len() ==> thread_map(buffers)[room] == item_infos(buffers[i].items@),
    decreases buffers.len(),
{
    if buffers.len() > 0 {
        let front = buffers.drop_last();
        if i < buffers.len() {
            lemma_thread_map(front, room, i);
        } else {
            lemma_thread_map(front, room, i - 1);
            assert(buffers[buffers.len() - 1].room@ != room);
        }
    }
}

/// Replacing the entries of a room's first buffer replaces the room's thread.
proof fn lemma_thread_update(buffers: Seq<Buffer>, after: Seq<Buffer>, room: Seq<char>, i: int)
    requires
        0 <= i < buffers.len(),
        after.len() == buffers.len(),
        forall|k: int| 0 <= k < i ==> (#[trigger] buffers[k]).room@ != room,
        buffers[i].room@ == room,
        after[i].room@ == room,
        forall|k: int| 0 <= k < buffers.len() && k != i ==> #[trigger] after[k] == buffers[k],
    ensures
        thread_map(after) =~= thread_map(buffers).insert(room, item_infos(after[i].items@)),
    decreases buffers.len(),
{
    let front = buffers.drop_last();
    let front2 = after.drop_last();
    if i < buffers.len() - 1 {
        assert forall|k: int| 0 <= k < front.len() && k != i implies #[trigger] front2[k]
            == front[k] by {
            assert(after[k] == buffers[k]);
        }
        lemma_thread_update(front, front2, room, i);
        assert(after[buffers.len() - 1] == buffers[buffers.len() - 1]);
        assert(front2[i] == after[i]);
    } else {
        assert(front2 =~= front) by {
            assert forall|k: int| 0 <= k < front.len() implies front2[k] == front[k] by {
                assert(after[k] == buffers[k]);
            }
        }
        lemma_thread_map(front, room, front.len() as int);
    }
}

impl Threads {
    /// No threads.
    pub fn new() -> (r: Threads)
        ensures
            r@ == ThreadMap::empty(),
    {
        Threads { buffers: Vec::new() }
    }

    /// Whether there is no thread at all.
    pub fn is_empty(&self) -> (r: bool)
        ensures
            r == (self@ == ThreadMap::empty()),
    {
        proof {
            if self.buffers@.len() > 0 {
                lemma_thread_map(self.buffers@, self.buffers@[0].room@, 0);
                assert(self@.contains_key(self.buffers@[0].room@));
            }
        }
        self.buffers.len() == 0
    }

    /// The position of a room's first buffer, or the number of buffers.
    fn find(&self, room: &str) -> (r: usize)
        ensures
            r <= self.buffers@.len(),
            forall|k: int| 0 <= k < r ==> (#[trigger] self.buffers@[k]).room@ != room@,
            r < self.buffers@.len() ==> self.buffers@[r as int].room@ == room@,
    {
        let mut i: usize = 0;
        while i < self.buffers.len() && !same(self.buffers[i].room.as_str(), room)
            invariant
                i <= self.buffers@.len(),
                forall|k: int| 0 <= k < i ==> (#[trigger] self.buffers@[k]).room@ != room@,
            decreases self.buffers@.len() - i,
        {
            i += 1;
        }
        i
    }

    /// The thread of a room.
    pub fn get(&self, room: &str) -> (r: Option<&Vec<ThreadItem>>)
        ensures
            match r {
                Some(v) => self@.contains_key(room@) && self@[room@] == item_infos(v@),
                None => !self@.contains_key(room@),
            },
    {
        let i: usize = self.find(room);
        proof {
            lemma_thread_map(self.buffers@, room@, i as int);
        }
        if i < self.buffers.len() {
            Some(&self.buffers[i].items)
        } else {
            None
        }
    }

    /// Adds an entry to a room's thread. Only the last entries are kept.
    pub fn push_thread_item(&mut self, room: &str, item: ThreadItem)
        ensures
            final(self)@ == with_item(old(self)@, room@, item@),
    {
        let i: usize = self.find(room);
        let ghost before = self.buffers@;
        let ghost info = item@;
        proof {
            lemma_thread_map(before, room@, i as int);
        }
        if i < self.buffers.len() {
            let ghost had = item_infos(before[i as int].items@);
            let mut items: Vec<ThreadItem> = Vec::new();
            std::mem::swap(&mut items, &mut self.buffers[i].items);
            items.push(item);
            proof {
                assert(item_infos(items@) =~= had.push(info));
            }
            if items.len() > ROOM_THREAD_CAP {
                let ghost all = items@;
                let drop: usize = items.len() - ROOM_THREAD_CAP;
                items = items.split_off(drop);
                proof {
                    assert(item_infos(items@) =~= item_infos(all).skip(drop as int));
                }
            }
            std::mem::swap(&mut items, &mut self.buffers[i].items);
            proof {
                lemma_thread_update(before, self.buffers@, room@, i as int);
            }
        } else {
            let mut items: Vec<ThreadItem> = Vec::new();
            items.push(item);
            self.buffers.push(Buffer { room: copy(room), items });
            proof {
                assert(self.buffers@.drop_last() =~= before);
                assert(item_infos(items@) =~= Seq::<ItemInfo>::empty().push(info));
            }
        }
    }
}

// ---- what frames change

/// One more, as far as the counter goes.
pub open spec fn bumped(n: int) -> int {
    if n < u64::MAX {
        n + 1
    } else {
        n
    }
}

/// The position of the first room with a name, or the number of rooms.
pub open spec fn room_at(rooms: Seq<RoomInfo>, name: Seq<char>) -> int {
    first_of(Seq::new(rooms.len(), |i: int| rooms[i].name), name)
}

/// The rooms after a message: it is counted and shown as the latest one. A room that is not
/// known yet is added without its particulars, which the next roster brings.
pub open spec fn rooms_after(rooms: Seq<RoomInfo>, room: Seq<char>, msg: MsgInfo) -> Seq<RoomInfo> {
    let i = room_at(rooms, room);
    if i < rooms.len() {
        rooms.update(
            i,
            RoomInfo {
                total_seen: bumped(rooms[i].total_seen),
                last: Some(msg),
                ..rooms[i]
            },
        )
    } else {
        rooms.push(
            RoomInfo {
                name: room,
                rtype: Seq::empty(),
                owner: Seq::empty(),
                members: Seq::empty(),
                total_seen: 1,
                last: Some(msg),
            },
        )
    }
}

/// The room that a message frame is about; direct-message channels are not shown.
pub open spec fn shown_room(d: Option<JsonData>) -> Option<Seq<char>> {
    match d {
        Some(d) => match text_field(d, "room"@) {
            Some(room) => if room.len() > 0 && room[0] == '@' {
                None
            } else {
                Some(room)
            },
            None => None,
        },
        None => None,
    }
}

/// Finds a room by its name.
fn find_room(rooms: &[RoomView], name: &str) -> (r: usize)
    ensures
        r == room_at(room_infos(rooms@), name@),
        r <= rooms@.len(),
{
    let ghost names = Seq::new(
        room_infos(rooms@).len(),
        |i: int| room_infos(rooms@)[i].name,
    );
    let mut i: usize = 0;
    while i < rooms.len() && !same(rooms[i].name.as_str(), name)
        invariant
            i <= rooms@.len(),
            names == Seq::new(room_infos(rooms@).len(), |i: int| room_infos(rooms@)[i].name),
            forall|k: int| 0 <= k < i ==> #[trigger] names[k] != name@,
        decreases rooms@.len() - i,
    {
        proof {
            assert(names[i as int] == rooms@[i as int].name@);
        }
        i += 1;
    }
    proof {
        if i < rooms@.len() {
            assert(names[i as int] == rooms@[i as int].name@);
        }
        lemma_first_of(names, name@, i as int);
    }
    i
}

/// Takes a message frame whose data was parsed.
pub fn message_arrived(v: &Option<Json>, rooms: &mut Vec<RoomView>, threads: &mut Threads)
    ensures
        ({
            let d = match *v {
                Some(j) => Some(j@),
                None => None,
            };
            match shown_room(d) {
                Some(room) => {
                    &&& room_infos(final(rooms)@) == rooms_after(
                        room_infos(old(rooms)@),
                        room,
                        msg_of(d->0),
                    )
                    &&& final(threads)@ == with_item(
                        old(threads)@,
                        room,
                        ItemInfo::Msg(msg_of(d->0)),
                    )
                },
                None => *final(rooms) == *old(rooms) && *final(threads) == *old(threads),
            }
        }),
{
    let v = match v {
        Some(v) => v,
        None => {
            return;
        },
    };
    let room = match v.get_text("room") {
        Some(room) => room,
        None => {
            return;
        },
    };
    let cs = chars_of(room.as_str());
    if cs.len() > 0 && cs[0] == '@' {
        return;
    }
    let msg = parse_msg(v);
    let i: usize = find_room(rooms.as_slice(), room.as_str());
    let ghost before = room_infos(rooms@);
    if i < rooms.len() {
        let shown = copy_msg(&msg);
        let mut r = RoomView {
            name: String::new(),
            rtype: String::new(),
            owner: String::new(),
            members: Vec::new(),
            total_seen: 0,
            last: None,
        };
        std::mem::swap(&mut r, &mut rooms[i]);
        if r.total_seen < u64::MAX {
            r.total_seen = r.total_seen + 1;
        }
        r.last = Some(shown);
        std::mem::swap(&mut r, &mut rooms[i]);
        proof {
            assert(room_infos(rooms@) =~= rooms_after(before, room@, msg@));
        }
    } else {
        let r = RoomView {
            name: copy(room.as_str()),
            rtype: String::new(),
            owner: String::new(),
            members: Vec::new(),
            total_seen: 1,
            last: Some(copy_msg(&msg)),
        };
        proof {
            assert(texts(r.members@) =~= Seq::<Seq<char>>::empty());
        }
        rooms.push(r);
        proof {
            assert(room_infos(rooms@) =~= rooms_after(before, room@, msg@));
        }
    }
    threads.push_thread_item(room.as_str(), ThreadItem::Msg(msg));
}

/// Takes a message frame.
pub fn handle_message(data: &str, rooms: &mut Vec<RoomView>, threads: &mut Threads)
    ensures
        match shown_room(json_parse(data@)) {
            Some(room) => {
                let d = json_parse(data@)->0;
                &&& room_infos(final(rooms)@) == rooms_after(
                    room_infos(old(rooms)@),
                    room,
                    msg_of(d),
                )
                &&& final(threads)@ == with_item(old(threads)@, room, ItemInfo::Msg(msg_of(d)))
            },
            None => *final(rooms) == *old(rooms) && *final(threads) == *old(threads),
        },
{
    message_arrived(&parse(data), rooms, threads);
}

/// The event that a frame's data describes, if it is JSON at all.
pub open spec fn shown_event(d: Option<JsonData>) -> Option<EventInfo> {
    match d {
        Some(d) => event_of(d),
        None => None,
    }
}

/// Takes a progress frame whose data was parsed.
pub fn progress_arrived(v: &Option<Json>, events: &mut Vec<EventView>, threads: &mut Threads)
    ensures
        ({
            let d = match *v {
                Some(j) => Some(j@),
                None => None,
            };
            match shown_event(d) {
                Some(e) => {
                    &&& event_infos(final(events)@) == capped(
                        event_infos(old(events)@).push(e),
                        EVENT_RING_CAP as int,
                    )
                    &&& final(threads)@ == with_item(old(threads)@, e.room, ItemInfo::Evt(e))
                },
                None => *final(events) == *old(events) && *final(threads) == *old(threads),
            }
        }),
{
    let v = match v {
        Some(v) => v,
        None => {
            return;
        },
    };
    let e = match parse_event(v) {
        Some(e) => e,
        None => {
            return;
        },
    };
    let room = copy(e.room.as_str());
    let ghost before = event_infos(events@);
    events.push(copy_event(&e));
    proof {
        assert(event_infos(events@) =~= before.push(e@));
    }
    if events.len() > EVENT_RING_CAP {
        let ghost all = event_infos(events@);
        let drop: usize = events.len() - EVENT_RING_CAP;
        let mut kept = events.split_off(drop);
        std::mem::swap(events, &mut kept);
        proof {
            assert(event_infos(events@) =~= all.skip(drop as int));
        }
    }
    threads.push_thread_item(room.as_str(), ThreadItem::Evt(e));
}

/// Takes a progress frame.
pub fn handle_progress(data: &str, events: &mut Vec<EventView>, threads: &mut Threads)
    ensures
        match shown_event(json_parse(data@)) {
            Some(e) => {
                &&& event_infos(final(events)@) == capped(
                    event_infos(old(events)@).push(e),
                    EVENT_RING_CAP as int,
                )
                &&& final(threads)@ == with_item(old(threads)@, e.room, ItemInfo::Evt(e))
            },
            None => *final(events) == *old(events) && *final(threads) == *old(threads),
        },
{
    progress_arrived(&parse(data), events, threads);
}

/// A room of the roster, with what was observed in it before.
pub open spec fn roster_room(rooms: Seq<RoomInfo>, d: JsonData) -> RoomInfo {
    let name = text_or_empty(d, "name"@);
    let i = room_at(rooms, name);
    RoomInfo {
        name,
        rtype: text_or_empty(d, "type"@),
        owner: text_or_empty(d, "owner"@),
        members: strings_of(array_field(d, "members"@)),
        total_seen: if i < rooms.len() {
            rooms[i].total_seen
        } else {
            0
        },
        last: if i < rooms.len() {
            rooms[i].last
        } else {
            None
        },
    }
}

/// The rooms of a roster. Rooms that it does not name are gone.
pub open spec fn roster_rooms(rooms: Seq<RoomInfo>, d: JsonData) -> Seq<RoomInfo> {
    let listed = array_field(d, "rooms"@);
    Seq::new(listed.len(), |i: int| roster_room(rooms, listed[i]))
}

/// Takes a roster frame whose data was parsed.
pub fn roster_arrived(v: &Option<Json>, agents: &mut Vec<AgentView>, rooms: &mut Vec<RoomView>)
    ensures
        match *v {
            Some(j) => {
                &&& agent_infos(final(agents)@) == agents_of(array_field(j@, "agents"@))
                &&& room_infos(final(rooms)@) == roster_rooms(room_infos(old(rooms)@), j@)
            },
            None => *final(agents) == *old(agents) && *final(rooms) == *old(rooms),
        },
{
    let v = match v {
        Some(v) => v,
        None => {
            return;
        },
    };
    *agents = parse_agents(v);
    let mut merged: Vec<RoomView> = Vec::new();
    let ghost before = room_infos(rooms@);
    let ghost listed = array_field(v@, "rooms"@);
    if let Some(list) = v.get_array("rooms") {
        let mut i: usize = 0;
        while i < list.len()
            invariant
                i <= list@.len(),
                listed == all_data(list@),
                before == room_infos(rooms@),
                merged@.len() == i,
                forall|k: int|
                    0 <= k < i ==> (#[trigger] merged@[k])@ == roster_room(before, listed[k]),
            decreases list@.len() - i,
        {
            let r = &list[i];
            let name = r.get_text_or_empty("name");
            let at: usize = find_room(rooms.as_slice(), name.as_str());
            let (total_seen, last) = if at < rooms.len() {
                (rooms[at].total_seen, copy_opt_msg(&rooms[at].last))
            } else {
                (0, None)
            };
            let room = RoomView {
                name,
                rtype: r.get_text_or_empty("type"),
                owner: r.get_text_or_empty("owner"),
                members: parse_strings(r, "members"),
                total_seen,
                last,
            };
            proof {
                assert(listed[i as int] == r@);
                assert(room@ == roster_room(before, listed[i as int]));
            }
            merged.push(room);
            i += 1;
        }
    }
    proof {
        assert(room_infos(merged@) =~= roster_rooms(before, v@));
    }
    *rooms = merged;
}

/// Takes a roster frame.
pub fn handle_roster(data: &str, agents: &mut Vec<AgentView>, rooms: &mut Vec<RoomView>)
    ensures
        match json_parse(data@) {
            Some(d) => {
                &&& agent_infos(final(agents)@) == agents_of(array_field(d, "agents"@))
                &&& room_infos(final(rooms)@) == roster_rooms(room_infos(old(rooms)@), d)
            },
            None => *final(agents) == *old(agents) && *final(rooms) == *old(rooms),
        },
{
    roster_arrived(&parse(data), agents, rooms);
}

// ---- a thread in the order of time

/// Where an entry stands in time: a message without a time comes first, and of entries at one
/// time, messages come before events.
pub open spec fn item_key(x: ItemInfo) -> (int, int) {
    match x {
        ItemInfo::Msg(m) => (
            match m.ts {
                Some(ts) => ts,
                None => i64::MIN as int,
            },
            0,
        ),
        ItemInfo::Evt(e) => (e.ts, 1),
    }
}

/// `a` does not come after `b`.
pub open spec fn not_after(a: ItemInfo, b: ItemInfo) -> bool {
    let x = item_key(a);
    let y = item_key(b);
    x.0 < y.0 || (x.0 == y.0 && x.1 <= y.1)
}

/// The entries with one more, behind all that do not come after it.
pub open spec fn insert_item(s: Seq<ItemInfo>, x: ItemInfo) -> Seq<ItemInfo>
    decreases s.len(),
{
    if s.len() == 0 || not_after(s.last(), x) {
        s.push(x)
    } else {
        insert_item(s.drop_last(), x).push(s.last())
    }
}

/// The entries in the order of time.
pub open spec fn merged(s: Seq<ItemInfo>) -> Seq<ItemInfo>
    decreases s.len(),
{
    if s.len() == 0 {
        Seq::empty()
    } else {
        insert_item(merged(s.drop_last()), s.last())
    }
}

/// Entries of which none comes after a later one.
pub open spec fn in_time(s: Seq<ItemInfo>) -> bool {
    forall|i: int, j: int| 0 <= i < j < s.len() ==> not_after(#[trigger] s[i], #[trigger] s[j])
}

proof fn lemma_insert_in_time(s: Seq<ItemInfo>, x: ItemInfo)
    requires
        in_time(s),
    ensures
        in_time(insert_item(s, x)),
        insert_item(s, x).len() == s.len() + 1,
        forall|i: int|
            0 <= i < insert_item(s, x).len() ==> (#[trigger] insert_item(s, x)[i] == x
                || s.contains(insert_item(s, x)[i])),
    decreases s.len(),
{
    let out = insert_item(s, x);
    if s.len() == 0 || not_after(s.last(), x) {
        assert forall|i: int, j: int| 0 <= i < j < out.len() implies not_after(
            #[trigger] out[i],
            #[trigger] out[j],
        ) by {
            if j == out.len() - 1 && i < s.len() - 1 {
                assert(not_after(s[i], s[s.len() - 1]));
            }
        }
        assert forall|i: int| 0 <= i < out.len() implies (#[trigger] out[i] == x || s.contains(
            out[i],
        )) by {
            if i < s.len() {
                assert(s[i] == out[i]);
            }
        }
    } else {
        let front = s.drop_last();
        let mid = insert_item(front, x);
        lemma_insert_in_time(front, x);
        assert forall|i: int| 0 <= i < mid.len() implies (#[trigger] mid[i] == x || s.contains(
            mid[i],
        )) && not_after(mid[i], s.last()) by {
            if mid[i] != x {
                assert(front.contains(mid[i]));
                let k = choose|k: int| 0 <= k < front.len() && front[k] == mid[i];
                assert(s[k] == mid[i]);
                assert(not_after(s[k], s[s.len() - 1]));
            }
        }
        assert forall|i: int, j: int| 0 <= i < j < out.len() implies not_after(
            #[trigger] out[i],
            #[trigger] out[j],
        ) by {
            assert(out[i] == mid[i]);
            if j < out.len() - 1 {
                assert(out[j] == mid[j]);
            }
        }
        assert forall|i: int| 0 <= i < out.len() implies (#[trigger] out[i] == x || s.contains(
            out[i],
        )) by {
            if i < mid.len() {
                assert(out[i] == mid[i]);
            } else {
                assert(s[s.len() - 1] == out[i]);
            }
        }
    }
}

/// A merged thread is in the order of time.
pub proof fn law_merge_is_in_time(s: Seq<ItemInfo>)
    ensures
        in_time(merged(s)),
        merged(s).len() == s.len(),
    decreases s.len(),
{
    if s.len() > 0 {
        law_merge_is_in_time(s.drop_last());
        lemma_insert_in_time(merged(s.drop_last()), s.last());
    }
}

/// The entries at one place in time.
pub open spec fn at_time(key: (int, int)) -> spec_fn(ItemInfo) -> bool {
    |x: ItemInfo| item_key(x) == key
}

proof fn lemma_insert_keeps(s: Seq<ItemInfo>, x: ItemInfo, key: (int, int))
    ensures
        insert_item(s, x).filter(at_time(key)) =~= s.push(x).filter(at_time(key)),
    decreases s.len(),
{
    let p = at_time(key);
    reveal(Seq::filter);
    assert(s.push(x).drop_last() =~= s);
    if s.len() > 0 && !not_after(s.last(), x) {
        let front = s.drop_last();
        lemma_insert_keeps(front, x, key);
        let out = insert_item(s, x);
        assert(out.drop_last() =~= insert_item(front, x));
        assert(front.push(x).drop_last() =~= front);
        assert(!(p(s.last()) && p(x)));
        let kept = front.filter(p);
        assert(s.filter(p) == (if p(s.last()) {
            kept.push(s.last())
        } else {
            kept
        }));
        assert(insert_item(front, x).filter(p) == (if p(x) {
            kept.push(x)
        } else {
            kept
        }));
    }
}

/// A merged thread holds the same entries, and those at the same place in time in the order
/// in which they came.
pub proof fn law_merge_is_stable(s: Seq<ItemInfo>, key: (int, int))
    ensures
        merged(s).filter(at_time(key)) =~= s.filter(at_time(key)),
    decreases s.len(),
{
    reveal(Seq::filter);
    if s.len() > 0 {
        let front = s.drop_last();
        law_merge_is_stable(front, key);
        lemma_insert_keeps(merged(front), s.last(), key);
        assert(merged(front).push(s.last()).drop_last() =~= merged(front));
    }
}

proof fn lemma_insert_at(s: Seq<ItemInfo>, x: ItemInfo, p: int)
    requires
        0 <= p <= s.len(),
        p > 0 ==> not_after(s[p - 1], x),
        forall|k: int| p <= k < s.len() ==> !not_after(#[trigger] s[k], x),
    ensures
        insert_item(s, x) =~= s.insert(p, x),
    decreases s.len(),
{
    if p < s.len() {
        let front = s.drop_last();
        assert(!not_after(s[s.len() - 1], x));
        lemma_insert_at(front, x, p);
        assert(s.insert(p, x) =~= front.insert(p, x).push(s.last()));
    }
}

/// Whether `a` does not come after `b`.
fn comes_before(a: &ThreadItem, b: &ThreadItem) -> (r: bool)
    ensures
        r == not_after(a@, b@),
{
    let (x, xe) = place_in_time(a);
    let (y, ye) = place_in_time(b);
    x < y || (x == y && (!xe || ye))
}

/// Where an entry stands in time, and whether it is an event.
fn place_in_time(a: &ThreadItem) -> (r: (i64, bool))
    ensures
        item_key(a@) == (
            r.0 as int,
            if r.1 {
                1int
            } else {
                0int
            },
        ),
{
    match a {
        ThreadItem::Msg(m) => match m.ts {
            Some(ts) => (ts, false),
            None => (i64::MIN, false),
        },
        ThreadItem::Evt(e) => (e.ts, true),
    }
}

/// Puts a room's messages and events into one thread, in the order of time.
pub fn merge_thread_items(items: &[ThreadItem]) -> (r: Vec<ThreadItem>)
    ensures
        item_infos(r@) == merged(item_infos(items@)),
{
    let ghost all = item_infos(items@);
    let mut out: Vec<ThreadItem> = Vec::new();
    proof {
        assert(item_infos(out@) =~= Seq::<ItemInfo>::empty());
    }
    let mut i: usize = 0;
    while i < items.len()
        invariant
            i <= items@.len(),
            all == item_infos(items@),
            item_infos(out@) == merged(all.take(i as int)),
        decreases items@.len() - i,
    {
        proof {
            assert(all.take(i + 1).drop_last() =~= all.take(i as int));
            assert(all.take(i + 1).last() == items@[i as int]@);
        }
        let ghost sofar = item_infos(out@);
        let mut p: usize = out.len();
        while p > 0 && !comes_before(&out[p - 1], &items[i])
            invariant
                p <= out@.len(),
                i < items@.len(),
                sofar == item_infos(out@),
                forall|k: int|
                    p <= k < sofar.len() ==> !not_after(#[trigger] sofar[k], items@[i as int]@),
            decreases p,
        {
            proof {
                assert(sofar[p - 1] == out@[p - 1]@);
            }
            p -= 1;
        }
        proof {
            if p > 0 {
                assert(sofar[p - 1] == out@[p - 1]@);
            }
            lemma_insert_at(sofar, items@[i as int]@, p as int);
        }
        out.insert(p, copy_item(&items[i]));
        proof {
            assert(item_infos(out@) =~= sofar.insert(p as int, items@[i as int]@));
        }
        i += 1;
    }
    proof {
        assert(all.take(items@.len() as int) =~= all);
    }
    out
}

// ---- the feed

/// All that came from the stream.
pub struct FeedData {
    pub agents: Seq<AgentEntry>,
    pub rooms: Seq<RoomInfo>,
    pub events: Seq<EventInfo>,
    pub threads: ThreadMap,
    pub last_msg: int,
    pub last_evt: int,
}

/// All that came from the stream. It outlives a connection, and so do the marks, which is why
/// connecting again replays nothing and misses nothing.
pub struct Feed {
    pub agents: Vec<AgentView>,
    pub rooms: Vec<RoomView>,
    pub events: Vec<EventView>,
    pub threads: Threads,
    pub last_msg: i64,
    pub last_evt: i64,
}

impl View for Feed {
    type V = FeedData;

    open spec fn view(&self) -> FeedData {
        FeedData {
            agents: agent_infos(self.agents@),
            rooms: room_infos(self.rooms@),
            events: event_infos(self.events@),
            threads: self.threads@,
            last_msg: self.last_msg as int,
            last_evt: self.last_evt as int,
        }
    }
}

/// The greater of two numbers.
pub open spec fn greater(a: int, b: int) -> int {
    if a < b {
        b
    } else {
        a
    }
}

/// The feed with the marks of a frame's id; they never go back.
pub open spec fn with_marks(f: FeedData, id: Option<Seq<char>>) -> FeedData {
    match id {
        Some(id) => match since_value(id) {
            Some((m, e)) => FeedData {
                last_msg: greater(f.last_msg, m),
                last_evt: greater(f.last_evt, e),
                ..f
            },
            None => f,
        },
        None => f,
    }
}

/// The feed after a frame whose data is `d`.
pub open spec fn feed_after(f: FeedData, event: Seq<char>, d: Option<JsonData>) -> FeedData {
    if event == "message"@ {
        match shown_room(d) {
            Some(room) => FeedData {
                rooms: rooms_after(f.rooms, room, msg_of(d->0)),
                threads: with_item(f.threads, room, ItemInfo::Msg(msg_of(d->0))),
                ..f
            },
            None => f,
        }
    } else if event == "progress"@ {
        match shown_event(d) {
            Some(e) => FeedData {
                events: capped(f.events.push(e), EVENT_RING_CAP as int),
                threads: with_item(f.threads, e.room, ItemInfo::Evt(e)),
                ..f
            },
            None => f,
        }
    } else if event == "roster"@ {
        match d {
            Some(d) => FeedData {
                agents: agents_of(array_field(d, "agents"@)),
                rooms: roster_rooms(f.rooms, d),
                ..f
            },
            None => f,
        }
    } else {
        f
    }
}

/// The feed after a block of the stream; comments change nothing.
pub open spec fn feed_step(f: FeedData, e: EventData) -> FeedData {
    match e {
        EventData::Frame { event, id, data } => feed_after(
            with_marks(f, id),
            event,
            json_parse(data),
        ),
        EventData::Comment(_) => f,
    }
}

/// The thread of a room, in the order of time; empty where nothing was seen of it.
pub open spec fn thread_of(f: FeedData, room: Seq<char>) -> Seq<ItemInfo> {
    merged(
        if f.threads.contains_key(room) {
            f.threads[room]
        } else {
            Seq::empty()
        },
    )
}

/// What is shown after a refresh: all that came from the stream, and the thread of the room that is
/// looked into.
pub open spec fn published(
    f: FeedData,
    before: Snapshot,
    after: Snapshot,
    focus: Option<Seq<char>>,
    now_ms: u64,
) -> bool {
    &&& after.health is Connected
    &&& agent_infos(after.agents@) == f.agents
    &&& room_infos(after.rooms@) == f.rooms
    &&& event_infos(after.events@) == f.events
    &&& match (after.thread, focus) {
        (Some(t), Some(room)) => t.room@ == room && item_infos(t.items@) == thread_of(f, room),
        (None, None) => true,
        _ => false,
    }
    &&& after.observer == before.observer
    &&& after.last_update == Some(now_ms)
    &&& after.polls == bumped(before.polls as int)
}

impl Feed {
    /// A feed that has seen nothing.
    pub fn new() -> (r: Feed)
        ensures
            r@.agents.len() == 0,
            r@.rooms.len() == 0,
            r@.events.len() == 0,
            r@.threads == ThreadMap::empty(),
            r@.last_msg == 0,
            r@.last_evt == 0,
    {
        Feed {
            agents: Vec::new(),
            rooms: Vec::new(),
            events: Vec::new(),
            threads: Threads::new(),
            last_msg: 0,
            last_evt: 0,
        }
    }

    /// Takes a frame whose data was parsed.
    pub fn take(&mut self, event: &str, v: &Option<Json>)
        ensures
            final(self)@ == feed_after(
                old(self)@,
                event@,
                match *v {
                    Some(j) => Some(j@),
                    None => None,
                },
            ),
    {
        if same(event, "message") {
            message_arrived(v, &mut self.rooms, &mut self.threads);
        } else if same(event, "progress") {
            progress_arrived(v, &mut self.events, &mut self.threads);
        } else if same(event, "roster") {
            roster_arrived(v, &mut self.agents, &mut self.rooms);
        }
    }

    /// Takes a block of the stream.
    pub fn event(&mut self, e: &SseEvent)
        ensures
            final(self)@ == feed_step(old(self)@, e@),
    {
        if let SseEvent::Frame { event, id, data } = e {
            if let Some(id) = id {
                if let Some((m, e)) = parse_since(id.as_str()) {
                    if self.last_msg < m {
                        self.last_msg = m;
                    }
                    if self.last_evt < e {
                        self.last_evt = e;
                    }
                }
            }
            self.take(event.as_str(), &parse(data.as_str()));
        }
    }

    /// Where to resume when connecting again.
    pub fn since(&self) -> (r: String)
        ensures
            r@ == since_text(self@.last_msg, self@.last_evt),
    {
        since_str(self.last_msg, self.last_evt)
    }

    /// Shows what came from the stream; `focus` is the room that is looked into.
    pub fn publish(&self, snap: &mut Snapshot, focus: &Option<String>, now_ms: u64)
        ensures
            published(self@, *old(snap), *final(snap), opt_text(*focus), now_ms),
    {
        snap.thread = match focus {
            Some(room) => {
                let items = match self.threads.get(room.as_str()) {
                    Some(items) => merge_thread_items(items.as_slice()),
                    None => {
                        let none: Vec<ThreadItem> = Vec::new();
                        proof {
                            assert(item_infos(none@) =~= merged(Seq::<ItemInfo>::empty()));
                        }
                        none
                    },
                };
                Some(RoomThread { room: copy(room.as_str()), items })
            },
            None => None,
        };
        snap.health = Health::Connected;
        snap.agents = copy_agents(self.agents.as_slice());
        snap.rooms = copy_rooms(self.rooms.as_slice());
        snap.events = copy_events(self.events.as_slice());
        snap.last_update = Some(now_ms);
        if snap.polls < u64::MAX {
            snap.polls = snap.polls + 1;
        }
    }
}

/// A copy of agents.
fn copy_agents(v: &[AgentView]) -> (r: Vec<AgentView>)
    ensures
        agent_infos(r@) == agent_infos(v@),
{
    let mut out: Vec<AgentView> = Vec::new();
    let mut i: usize = 0;
    while i < v.len()
        invariant
            i <= v@.len(),
            out@.len() == i,
            forall|k: int| 0 <= k < i ==> (#[trigger] out@[k])@ == v@[k]@,
        decreases v@.len() - i,
    {
        out.push(copy_agent(&v[i]));
        i += 1;
    }
    proof {
        assert(agent_infos(out@) =~= agent_infos(v@));
    }
    out
}

/// A copy of rooms.
fn copy_rooms(v: &[RoomView]) -> (r: Vec<RoomView>)
    ensures
        room_infos(r@) == room_infos(v@),
{
    let mut out: Vec<RoomView> = Vec::new();
    let mut i: usize = 0;
    while i < v.len()
        invariant
            i <= v@.len(),
            out@.len() == i,
            forall|k: int| 0 <= k < i ==> (#[trigger] out@[k])@ == v@[k]@,
        decreases v@.len() - i,
    {
        out.push(copy_room(&v[i]));
        i += 1;
    }
    proof {
        assert(room_infos(out@) =~= room_infos(v@));
    }
    out
}

/// A copy of events.
fn copy_events(v: &[EventView]) -> (r: Vec<EventView>)
    ensures
        event_infos(r@) == event_infos(v@),
{
    let mut out: Vec<EventView> = Vec::new();
    let mut i: usize = 0;
    while i < v.len()
        invariant
            i <= v@.len(),
            out@.len() == i,
            forall|k: int| 0 <= k < i ==> (#[trigger] out@[k])@ == v@[k]@,
        decreases v@.len() - i,
    {
        out.push(copy_event(&v[i]));
        i += 1;
    }
    proof {
        assert(event_infos(out@) =~= event_infos(v@));
    }
    out
}

/// The body of the stream that the dashboard opens.
pub open spec fn monitor_json(agent: Seq<char>) -> JsonData {
    JsonData::Object(
        map!["agent"@ => JsonData::Text(agent), "mode"@ => JsonData::Text("monitor"@)],
    )
}

/// The body of the stream that the dashboard opens: it watches all rooms.
pub fn monitor_payload(agent: &str) -> (r: String)
    ensures
        r@ == json_text(monitor_json(agent@)),
{
    text_of(&object().with("agent", text(agent)).with("mode", text("monitor")))
}

/// How long to sleep of the time that is left: short naps let the dashboard notice that it
/// is to stop.
pub fn nap(remaining: u64) -> (r: u64)
    ensures
        r == (if remaining < NAP {
            remaining
        } else {
            NAP
        }),
{
    if remaining < NAP {
        remaining
    } else {
        NAP
    }
}

/// Each ring and thread keeps the latest entries, and no more than its capacity.
pub proof fn law_capped<T>(s: Seq<T>, x: T, cap: int)
    requires
        0 < cap,
        s.len() <= cap,
    ensures
        capped(s.push(x), cap).len() <= cap,
        capped(s.push(x), cap).last() == x,
        s.len() < cap ==> capped(s.push(x), cap) == s.push(x),
        s.len() == cap ==> capped(s.push(x), cap) =~= s.skip(1).push(x),
{
}

/// A roster keeps what was observed in the rooms that it names, and forgets all others.
pub proof fn law_roster_carries_forward(rooms: Seq<RoomInfo>, d: JsonData, i: int)
    requires
        0 <= i < array_field(d, "rooms"@).len(),
    ensures
        ({
            let r = roster_rooms(rooms, d)[i];
            let at = room_at(rooms, r.name);
            &&& roster_rooms(rooms, d).len() == array_field(d, "rooms"@).len()
            &&& at < rooms.len() ==> r.total_seen == rooms[at].total_seen && r.last
                == rooms[at].last
            &&& at >= rooms.len() ==> r.total_seen == 0 && r.last is None
        }),
{
}

} // verus!
