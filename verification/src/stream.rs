//! The server's side of a stream: which messages, events and rosters a connection is sent, in
//! which order and under which ids, and when it is kept alive, parked or closed.

use crate::chunked::chunk_bytes;
use crate::json::{
    bool_field, int_or_null, json_parse, json_text, number_field, object, opt_i64, opt_int, text,
    text_field, text_of, within, Json, JsonData,
};
use crate::number::lemma_decimal_chars;
use crate::ops::{agents_json, agents_value, event_json, event_value, rooms_json, rooms_value};
use crate::sse::{parse_since, since_str, since_text, since_value, EventData};
use crate::store::{
    agent_entries, agent_rows, room_entries, room_rows, AgentEntry, AgentRow, Failure, Refusal,
    RefusalData, RoomEntry, RoomRow, Store,
};
use crate::tables::{
    cursor_of, event_data, events_after, last_event, made_known, message_data, messages_after,
    opt_num, text_set, with_cursor, EventRow, MessageData, MessageRow, ProgressData, Tables,
};
use crate::text::{copy, opt_text, same, texts};
use crate::wire::{block_text, frame_chunk, sendable, single_line};
use vstd::prelude::*;
use vstd::utf8::encode_utf8;

verus! {

/// How long a stream may be silent: after this many milliseconds a comment is sent that
/// keeps the connection alive.
pub const KEEPALIVE_MS: u64 = 20_000;

/// How long a parked stream waits at least, in milliseconds.
pub const SHORTEST_WAIT_MS: u64 = 100;

/// How long a one-shot stream waits for a message unless the client says otherwise.
pub const DEFAULT_TIMEOUT_MS: u64 = 120_000;

// ---- what a client asks for

/// What a client asks of a stream.
#[derive(Debug, PartialEq, Eq)]
pub struct StreamPlan {
    /// Watches rooms, events and the roster, and consumes nothing.
    pub monitor: bool,
    pub room: Option<String>,
    /// Where to resume.
    pub since: Option<(i64, i64)>,
    /// Tails a room and consumes nothing.
    pub follow: bool,
    /// Ends as soon as something was delivered, or after `timeout_ms`.
    pub once: bool,
    pub timeout_ms: u64,
}

/// What a client asks of a stream, as data.
pub struct PlanData {
    pub monitor: bool,
    pub room: Option<Seq<char>>,
    pub since: Option<(int, int)>,
    pub follow: bool,
    pub once: bool,
    pub timeout_ms: int,
}

impl View for StreamPlan {
    type V = PlanData;

    open spec fn view(&self) -> PlanData {
        PlanData {
            monitor: self.monitor,
            room: opt_text(self.room),
            since: match self.since {
                Some((m, e)) => Some((m as int, e as int)),
                None => None,
            },
            follow: self.follow,
            once: self.once,
            timeout_ms: self.timeout_ms as int,
        }
    }
}

/// The cursor to resume at: the one in the header, or else the one in the body. A cursor that
/// is malformed counts as none.
pub open spec fn resume_point(b: JsonData, last_event_id: Option<Seq<char>>) -> Option<(int, int)> {
    match last_event_id {
        Some(id) => since_value(id),
        None => match text_field(b, "since"@) {
            Some(s) => since_value(s),
            None => None,
        },
    }
}

/// How long a one-shot stream waits.
pub open spec fn wait_ms(b: JsonData) -> int {
    match number_field(b, "timeout"@) {
        Some(secs) => if secs < 0 {
            DEFAULT_TIMEOUT_MS as int
        } else if secs * 1000 > u64::MAX {
            u64::MAX as int
        } else {
            secs * 1000
        },
        None => DEFAULT_TIMEOUT_MS as int,
    }
}

/// What a body and the `Last-Event-ID` header ask of a stream.
pub open spec fn plan_of(b: JsonData, last_event_id: Option<Seq<char>>) -> Result<
    PlanData,
    RefusalData,
> {
    let mode = text_field(b, "mode"@);
    let room = text_field(b, "room"@);
    if mode != Some("recv"@) && mode != Some("monitor"@) {
        Err(RefusalData { code: 400, msg: "mode must be \"recv\" or \"monitor\""@ })
    } else if mode == Some("recv"@) && room is None {
        Err(RefusalData { code: 400, msg: "recv requires 'room'"@ })
    } else {
        Ok(
            PlanData {
                monitor: mode == Some("monitor"@),
                room,
                since: resume_point(b, last_event_id),
                follow: bool_field(b, "follow"@) == Some(true),
                once: bool_field(b, "once"@) == Some(true),
                timeout_ms: wait_ms(b),
            },
        )
    }
}

/// Whether a flag is set.
fn flag(b: &Json, field: &str) -> (r: bool)
    ensures
        r == (bool_field(b@, field@) == Some(true)),
{
    match b.get_bool(field) {
        Some(v) => v,
        None => false,
    }
}

/// Reads off a body and the `Last-Event-ID` header what is asked of a stream.
pub fn read_plan(b: &Json, last_event_id: &Option<String>) -> (r: Result<StreamPlan, Refusal>)
    ensures
        match r {
            Ok(p) => plan_of(b@, opt_text(*last_event_id)) == Ok::<PlanData, RefusalData>(p@),
            Err(e) => plan_of(b@, opt_text(*last_event_id)) == Err::<PlanData, RefusalData>(e@),
        },
{
    let mode = b.get_text("mode");
    let (recv, monitor) = match &mode {
        Some(mode) => (same(mode.as_str(), "recv"), same(mode.as_str(), "monitor")),
        None => (false, false),
    };
    proof {
        reveal_strlit("recv");
        reveal_strlit("monitor");
        assert("recv"@.len() == 4 && "monitor"@.len() == 7);
    }
    if !recv && !monitor {
        return Err(Refusal { code: 400, msg: copy("mode must be \"recv\" or \"monitor\"") });
    }
    let room = b.get_text("room");
    if recv && room.is_none() {
        return Err(Refusal { code: 400, msg: copy("recv requires 'room'") });
    }
    let since = match last_event_id {
        Some(id) => parse_since(id.as_str()),
        None => match b.get_str("since") {
            Some(s) => parse_since(s),
            None => None,
        },
    };
    let timeout_ms: u64 = match opt_i64(b, "timeout") {
        Some(secs) => if secs < 0 {
            DEFAULT_TIMEOUT_MS
        } else if secs as u64 > u64::MAX / 1000 {
            u64::MAX
        } else {
            secs as u64 * 1000
        },
        None => DEFAULT_TIMEOUT_MS,
    };
    Ok(
        StreamPlan {
            monitor,
            room,
            since,
            follow: flag(b, "follow"),
            once: flag(b, "once"),
            timeout_ms,
        },
    )
}

// ---- rosters

/// All agents and rooms at one moment.
#[derive(Debug, PartialEq, Eq)]
pub struct Roster {
    pub agents: Vec<AgentRow>,
    pub rooms: Vec<RoomRow>,
}

/// A roster as data.
#[verifier::ext_equal]
pub struct RosterData {
    pub agents: Seq<AgentEntry>,
    pub rooms: Seq<RoomEntry>,
}

impl View for Roster {
    type V = RosterData;

    open spec fn view(&self) -> RosterData {
        RosterData { agents: agent_rows(self.agents@), rooms: room_rows(self.rooms@) }
    }
}

/// The roster that the tables give.
pub open spec fn roster_of(t: Tables) -> RosterData {
    RosterData { agents: agent_entries(t), rooms: room_entries(t) }
}

/// The data of a roster frame.
pub open spec fn roster_json(r: RosterData) -> JsonData {
    JsonData::Object(map!["agents"@ => agents_json(r.agents), "rooms"@ => rooms_json(r.rooms)])
}

/// The roster at this moment.
pub fn roster_snapshot(store: &Store) -> (r: Result<Roster, Failure>)
    requires
        store.wf(),
    ensures
        match r {
            Ok(v) => v@ == roster_of(store@),
            Err(f) => f is Store,
        },
{
    let agents = store.agents()?;
    let rooms = store.rooms()?;
    Ok(Roster { agents, rooms })
}

/// Whether two lists hold the same texts.
fn same_texts(a: &[String], b: &[String]) -> (r: bool)
    ensures
        r == (texts(a@) == texts(b@)),
{
    if a.len() != b.len() {
        proof {
            assert(texts(a@).len() != texts(b@).len());
        }
        return false;
    }
    let mut i: usize = 0;
    while i < a.len()
        invariant
            i <= a@.len(),
            a@.len() == b@.len(),
            forall|k: int| 0 <= k < i ==> (#[trigger] a@[k])@ == b@[k]@,
        decreases a@.len() - i,
    {
        if !same(a[i].as_str(), b[i].as_str()) {
            proof {
                assert(texts(a@)[i as int] != texts(b@)[i as int]);
            }
            return false;
        }
        i += 1;
    }
    proof {
        assert(texts(a@) =~= texts(b@));
    }
    true
}

/// Whether two agents are the same.
fn same_agent(a: &AgentRow, b: &AgentRow) -> (r: bool)
    ensures
        r == (a@ == b@),
{
    same(a.id.as_str(), b.id.as_str()) && same(a.status.as_str(), b.status.as_str())
}

/// Whether two rooms are the same.
fn same_room(a: &RoomRow, b: &RoomRow) -> (r: bool)
    ensures
        r == (a@ == b@),
{
    same(a.name.as_str(), b.name.as_str()) && same(a.owner.as_str(), b.owner.as_str()) && same(
        a.kind.as_str(),
        b.kind.as_str(),
    ) && same_texts(a.members.as_slice(), b.members.as_slice())
}

/// Whether two rosters are the same.
pub fn same_roster(a: &Roster, b: &Roster) -> (r: bool)
    ensures
        r == (a@ == b@),
{
    if a.agents.len() != b.agents.len() || a.rooms.len() != b.rooms.len() {
        proof {
            assert(a@.agents.len() != b@.agents.len() || a@.rooms.len() != b@.rooms.len());
        }
        return false;
    }
    let mut i: usize = 0;
    while i < a.agents.len()
        invariant
            i <= a.agents@.len(),
            a.agents@.len() == b.agents@.len(),
            forall|k: int| 0 <= k < i ==> (#[trigger] a.agents@[k])@ == b.agents@[k]@,
        decreases a.agents@.len() - i,
    {
        if !same_agent(&a.agents[i], &b.agents[i]) {
            proof {
                assert(a@.agents[i as int] != b@.agents[i as int]);
            }
            return false;
        }
        i += 1;
    }
    let mut j: usize = 0;
    while j < a.rooms.len()
        invariant
            j <= a.rooms@.len(),
            a.rooms@.len() == b.rooms@.len(),
            forall|k: int| 0 <= k < j ==> (#[trigger] a.rooms@[k])@ == b.rooms@[k]@,
        decreases a.rooms@.len() - j,
    {
        if !same_room(&a.rooms[j], &b.rooms[j]) {
            proof {
                assert(a@.rooms[j as int] != b@.rooms[j as int]);
            }
            return false;
        }
        j += 1;
    }
    proof {
        assert(a@ =~= b@);
    }
    true
}

// ---- a connection

/// What a connection has been sent so far, and what it is for.
pub struct SessionData {
    pub agent: Seq<char>,
    pub monitor: bool,
    pub follow: bool,
    pub room: Option<Seq<char>>,
    pub last_msg: int,
    pub last_evt: int,
    pub last_roster: Option<RosterData>,
    pub once: bool,
    pub timeout_ms: int,
}

/// One open stream.
pub struct Session {
    agent: String,
    monitor: bool,
    follow: bool,
    room: Option<String>,
    last_msg: i64,
    last_evt: i64,
    last_roster: Option<Roster>,
    once: bool,
    timeout_ms: u64,
}

impl View for Session {
    type V = SessionData;

    closed spec fn view(&self) -> SessionData {
        SessionData {
            agent: self.agent@,
            monitor: self.monitor,
            follow: self.follow,
            room: opt_text(self.room),
            last_msg: self.last_msg as int,
            last_evt: self.last_evt as int,
            last_roster: match self.last_roster {
                Some(r) => Some(r@),
                None => None,
            },
            once: self.once,
            timeout_ms: self.timeout_ms as int,
        }
    }
}

/// A stream of one room is consumed: what it delivers, its agent has read.
pub open spec fn consumes(s: SessionData) -> bool {
    !s.monitor && !s.follow
}

/// A stream that is no monitor has a room.
pub open spec fn has_scope(s: SessionData) -> bool {
    !s.monitor ==> s.room is Some
}

/// The rooms that a stream is about: the one that was asked for, or else every room that
/// exists. Direct-message channels are not among the latter.
pub open spec fn scope(t: Tables, s: SessionData) -> Set<Seq<char>> {
    match s.room {
        Some(room) => set![room],
        None => t.rooms.dom(),
    }
}

/// A stream at its start, where nothing fails.
pub open spec fn started(t: Tables, p: PlanData, agent: Seq<char>) -> SessionData {
    started_if(t, p, agent, true)
}

/// A stream at its start: it resumes where the client says. Without that, a stream of one
/// room begins at the agent's cursor, and a monitor at the beginning. The mark of the events,
/// which a stream of one room only passes on, is the highest number among them, or zero if
/// that could not be `looked` up.
pub open spec fn started_if(
    t: Tables,
    p: PlanData,
    agent: Seq<char>,
    looked: bool,
) -> SessionData {
    let marks = match p.since {
        Some(marks) => marks,
        None => if p.monitor {
            (0, 0)
        } else {
            (
                cursor_of(
                    t,
                    agent,
                    match p.room {
                        Some(room) => room,
                        None => Seq::empty(),
                    },
                ),
                if looked {
                    last_event(t.events)
                } else {
                    0
                },
            )
        },
    };
    SessionData {
        agent,
        monitor: p.monitor,
        follow: p.follow,
        room: p.room,
        last_msg: marks.0,
        last_evt: marks.1,
        last_roster: None,
        once: p.once,
        timeout_ms: p.timeout_ms,
    }
}

/// One frame to be written, and the read cursor to be set once it was.
pub struct OutgoingData {
    pub event: Seq<char>,
    pub id: Seq<char>,
    pub value: JsonData,
    pub cursor: Option<int>,
}

/// The block of a frame.
pub open spec fn block_of(d: OutgoingData) -> EventData {
    EventData::Frame { event: d.event, id: Some(d.id), data: json_text(d.value) }
}

/// The bytes of one frame, and the read cursor to be set once they were written.
#[derive(Debug, PartialEq, Eq)]
pub struct Outgoing {
    pub bytes: Vec<u8>,
    pub cursor: Option<i64>,
}

/// The bytes are those of the frame, in a chunk of their own; a client that reads them gets
/// the frame's value back.
pub open spec fn carries(o: Outgoing, d: OutgoingData) -> bool {
    &&& o.bytes@ == chunk_bytes(encode_utf8(block_text(block_of(d))))
    &&& opt_num(o.cursor) == d.cursor
    &&& sendable(block_of(d))
    &&& json_parse(json_text(d.value)) == Some(d.value)
}

/// Each of the one carries each of the other.
pub open spec fn carries_all(v: Seq<Outgoing>, d: Seq<OutgoingData>) -> bool {
    v.len() == d.len() && forall|i: int| 0 <= i < v.len() ==> carries(#[trigger] v[i], d[i])
}

/// The data of a message frame.
pub open spec fn stream_message_json(m: MessageData) -> JsonData {
    JsonData::Object(
        map![
            "seq"@ => JsonData::Int(m.seq),
            "room"@ => JsonData::Text(m.room),
            "from"@ => JsonData::Text(m.from),
            "text"@ => JsonData::Text(m.text),
            "ts"@ => int_or_null(m.ts),
        ],
    )
}

/// The frame for a message. Its id is the message's number and the last event's.
pub open spec fn message_out(m: MessageData, last_evt: int, consuming: bool) -> OutgoingData {
    OutgoingData {
        event: "message"@,
        id: since_text(m.seq, last_evt),
        value: stream_message_json(m),
        cursor: if consuming {
            Some(m.seq)
        } else {
            None
        },
    }
}

/// The frame for an event. Its id is the last message's number and the event's.
pub open spec fn event_out(e: ProgressData, last_msg: int) -> OutgoingData {
    OutgoingData {
        event: "progress"@,
        id: since_text(last_msg, e.seq),
        value: event_json(e),
        cursor: None,
    }
}

/// The frame for a roster.
pub open spec fn roster_out(r: RosterData, last_msg: int, last_evt: int) -> OutgoingData {
    OutgoingData {
        event: "roster"@,
        id: since_text(last_msg, last_evt),
        value: roster_json(r),
        cursor: None,
    }
}

/// The messages that a stream has not been sent yet.
pub open spec fn new_messages(t: Tables, s: SessionData) -> Seq<MessageData> {
    messages_after(t.messages, scope(t, s), s.last_msg)
}

/// The events that a stream has not been sent yet; only monitors are sent events.
pub open spec fn new_events(t: Tables, s: SessionData) -> Seq<ProgressData> {
    if s.monitor {
        events_after(t.events, scope(t, s), s.last_evt)
    } else {
        Seq::empty()
    }
}

/// The roster, if it is news to a monitor.
pub open spec fn new_roster(t: Tables, s: SessionData) -> Option<RosterData> {
    if s.monitor && s.last_roster != Some(roster_of(t)) {
        Some(roster_of(t))
    } else {
        None
    }
}

/// The number of the last message, or `mark` where there is none.
pub open spec fn last_message(messages: Seq<MessageData>, mark: int) -> int {
    if messages.len() > 0 {
        messages.last().seq
    } else {
        mark
    }
}

/// The number of the last event, or `mark` where there is none.
pub open spec fn last_progress(events: Seq<ProgressData>, mark: int) -> int {
    if events.len() > 0 {
        events.last().seq
    } else {
        mark
    }
}

/// The frames for news: messages in order, then events in order, then the roster.
pub open spec fn composed(
    s: SessionData,
    messages: Seq<MessageData>,
    events: Seq<ProgressData>,
    roster: Option<RosterData>,
) -> Seq<OutgoingData> {
    let msg = last_message(messages, s.last_msg);
    let evt = last_progress(events, s.last_evt);
    let first = Seq::new(
        messages.len(),
        |i: int| message_out(messages[i], s.last_evt, consumes(s)),
    );
    let second = Seq::new(events.len(), |i: int| event_out(events[i], msg));
    let third = match roster {
        Some(r) => seq![roster_out(r, msg, evt)],
        None => Seq::empty(),
    };
    first + second + third
}

/// A stream after news was put into frames.
pub open spec fn after_news(
    s: SessionData,
    messages: Seq<MessageData>,
    events: Seq<ProgressData>,
    roster: Option<RosterData>,
) -> SessionData {
    SessionData {
        last_msg: last_message(messages, s.last_msg),
        last_evt: last_progress(events, s.last_evt),
        last_roster: match roster {
            Some(r) => Some(r),
            None => s.last_roster,
        },
        ..s
    }
}

/// The last message's number after a round.
pub open spec fn msg_mark(t: Tables, s: SessionData) -> int {
    last_message(new_messages(t, s), s.last_msg)
}

/// The last event's number after a round.
pub open spec fn evt_mark(t: Tables, s: SessionData) -> int {
    last_progress(new_events(t, s), s.last_evt)
}

/// What a round sends.
pub open spec fn round_out(t: Tables, s: SessionData) -> Seq<OutgoingData> {
    composed(s, new_messages(t, s), new_events(t, s), new_roster(t, s))
}

/// A stream after a round.
pub open spec fn after_round(t: Tables, s: SessionData) -> SessionData {
    after_news(s, new_messages(t, s), new_events(t, s), new_roster(t, s))
}

/// The tables after a message was written on a stream: its agent has read it, if the stream is
/// consumed.
pub open spec fn after_delivery(t: Tables, s: SessionData, seq: int) -> Tables {
    if consumes(s) {
        with_cursor(t, s.agent, s.room->0, seq)
    } else {
        t
    }
}

/// A composite cursor stands on one line.
proof fn lemma_since_line(m: int, e: int)
    ensures
        single_line(since_text(m, e)),
{
    lemma_decimal_chars(m);
    lemma_decimal_chars(e);
    let s = since_text(m, e);
    let a = decimal_of(m);
    let b = decimal_of(e);
    assert forall|i: int| 0 <= i < s.len() implies #[trigger] s[i] != '\n' && s[i] != '\r' by {
        if i < a.len() {
            assert(s[i] == a[i]);
        } else if i > a.len() {
            assert(s[i] == b[i - a.len() - 1]);
        }
    }
    assert(s[s.len() - 1] != '\r');
}

spec fn decimal_of(n: int) -> Seq<char> {
    crate::number::decimal(n)
}

/// One frame, in a chunk of its own.
fn frame(event: &str, id: &str, value: &Json, cursor: Option<i64>) -> (r: Outgoing)
    requires
        single_line(event@),
        single_line(id@),
        within(value@, 127),
    ensures
        carries(
            r,
            (OutgoingData { event: event@, id: id@, value: value@, cursor: opt_num(cursor) }),
        ),
{
    let data = text_of(value);
    Outgoing { bytes: frame_chunk(event, id, data.as_str()), cursor }
}

/// The data of a message frame.
fn message_value(m: &MessageRow) -> (r: Json)
    ensures
        r@ == stream_message_json(m@),
{
    object().with("seq", Json::Int(m.seq)).with("room", text(m.room.as_str())).with(
        "from",
        text(m.from.as_str()),
    ).with("text", text(m.text.as_str())).with("ts", opt_int(m.ts))
}

/// The frame for a message.
fn message_frame(m: &MessageRow, last_evt: i64, consuming: bool) -> (r: Outgoing)
    ensures
        carries(r, message_out(m@, last_evt as int, consuming)),
{
    let value = message_value(m);
    let id = since_str(m.seq, last_evt);
    let cursor = if consuming {
        Some(m.seq)
    } else {
        None
    };
    proof {
        reveal_strlit("message");
        lemma_since_line(m.seq as int, last_evt as int);
        reveal_with_fuel(within, 2);
    }
    frame("message", id.as_str(), &value, cursor)
}

/// The frame for an event.
fn event_frame(e: &EventRow, last_msg: i64) -> (r: Outgoing)
    ensures
        carries(r, event_out(e@, last_msg as int)),
{
    let value = event_value(e);
    let id = since_str(last_msg, e.seq);
    proof {
        reveal_strlit("progress");
        lemma_since_line(last_msg as int, e.seq as int);
        reveal_with_fuel(within, 2);
    }
    frame("progress", id.as_str(), &value, None)
}

/// The frame for a roster.
fn roster_frame(r: &Roster, last_msg: i64, last_evt: i64) -> (o: Outgoing)
    ensures
        carries(o, roster_out(r@, last_msg as int, last_evt as int)),
{
    let value = object().with("agents", agents_value(r.agents.as_slice())).with(
        "rooms",
        rooms_value(r.rooms.as_slice()),
    );
    let id = since_str(last_msg, last_evt);
    proof {
        reveal_strlit("roster");
        lemma_since_line(last_msg as int, last_evt as int);
        reveal_with_fuel(within, 5);
    }
    frame("roster", id.as_str(), &value, None)
}

/// What a connection does next.
#[derive(Debug, PartialEq, Eq, Clone, Copy, Structural)]
pub enum Next {
    /// Looks at the tables again.
    Round,
    /// Ends the stream.
    Close,
    /// Sends a comment that keeps the connection alive, if that is due, and waits to be woken.
    Park { keepalive: bool, wait_ms: u64 },
}

/// What a connection does after a round. One that is one-shot ends once it has delivered
/// something or its time is up. Any other one looks again after it wrote something; when
/// there was nothing it waits, until a comment is due at the latest.
pub open spec fn next_step(
    s: SessionData,
    wrote: bool,
    live: bool,
    idle_ms: int,
    age_ms: int,
) -> Next {
    if s.once && wrote {
        Next::Close
    } else if wrote || !live {
        Next::Round
    } else if s.once && age_ms >= s.timeout_ms {
        Next::Close
    } else {
        let keepalive = idle_ms >= KEEPALIVE_MS;
        let silent = if keepalive {
            0
        } else {
            idle_ms
        };
        let until_comment = if KEEPALIVE_MS - silent > SHORTEST_WAIT_MS {
            KEEPALIVE_MS - silent
        } else {
            SHORTEST_WAIT_MS as int
        };
        let wait = if s.once && s.timeout_ms - age_ms < until_comment {
            s.timeout_ms - age_ms
        } else {
            until_comment
        };
        Next::Park { keepalive, wait_ms: wait as u64 }
    }
}

/// Whether a connection may wait: not if something woke streams after it began to look. The
/// generation is read before the tables are, and it grows after they were changed, so what the
/// look missed is never slept over.
pub fn may_park(generation_seen: u64, generation_now: u64) -> (r: bool)
    ensures
        r == (generation_seen == generation_now),
{
    generation_seen == generation_now
}

/// A stream that was opened, and what could not be done on the way.
pub struct Started {
    pub session: Session,
    /// Why the agent could not be noted as known.
    pub missed_agent: Option<rusqlite::Error>,
    /// Why the highest number among the events could not be looked up.
    pub missed_mark: Option<rusqlite::Error>,
}

impl Session {
    /// Opens a stream: makes the agent known and finds where to begin.
    pub fn start(store: &mut Store, plan: StreamPlan, agent: &str) -> (r: Result<Started, Failure>)
        requires
            old(store).wf(),
            plan@.monitor || plan@.room is Some,
        ensures
            match r {
                Ok(s) => {
                    &&& final(store).wf()
                    &&& final(store)@ == made_known(old(store)@, agent@, s.missed_agent is None)
                    &&& s.session@ == started_if(
                        final(store)@,
                        plan@,
                        agent@,
                        s.missed_mark is None,
                    )
                    &&& has_scope(s.session@)
                },
                Err(f) => f is Store,
            },
            plan@.monitor || plan@.since is Some ==> r is Ok,
    {
        let missed_agent = store.touch(agent);
        let mut missed_mark: Option<rusqlite::Error> = None;
        let (last_msg, last_evt) = match plan.since {
            Some(marks) => marks,
            None => match (&plan.room, plan.monitor) {
                (Some(room), false) => {
                    let at: i64 = store.cursor(agent, room.as_str())?;
                    let evt: i64 = match store.max_event_seq() {
                        Ok(evt) => evt,
                        Err(e) => {
                            missed_mark = Some(e);
                            0
                        },
                    };
                    (at, evt)
                },
                _ => (0, 0),
            },
        };
        let session = Session {
            agent: copy(agent),
            monitor: plan.monitor,
            follow: plan.follow,
            room: plan.room,
            last_msg,
            last_evt,
            last_roster: None,
            once: plan.once,
            timeout_ms: plan.timeout_ms,
        };
        Ok(Started { session, missed_agent, missed_mark })
    }

    /// The rooms that the stream is about.
    fn scope_keys(&self, store: &Store) -> (r: Result<Vec<String>, Failure>)
        requires
            store.wf(),
        ensures
            match r {
                Ok(v) => text_set(v@) == scope(store@, self@),
                Err(f) => f is Store,
            },
            self@.room is Some ==> r is Ok,
    {
        match &self.room {
            Some(room) => {
                let mut keys: Vec<String> = Vec::new();
                keys.push(copy(room.as_str()));
                proof {
                    assert(texts(keys@) =~= seq![room@]);
                    assert(text_set(keys@) =~= set![room@]) by {
                        assert(texts(keys@)[0] == room@);
                        assert forall|x: Seq<char>| text_set(keys@).contains(x) implies x
                            == room@ by {
                            let i = choose|i: int|
                                0 <= i < texts(keys@).len() && texts(keys@)[i] == x;
                            assert(i == 0);
                        }
                    }
                }
                Ok(keys)
            },
            None => store.all_room_names(),
        }
    }

    /// Puts news into frames.
    pub fn compose(
        &mut self,
        messages: &[MessageRow],
        events: &[EventRow],
        roster: Option<Roster>,
    ) -> (out: Vec<Outgoing>)
        ensures
            ({
                let r = match roster {
                    Some(r) => Some(r@),
                    None => None,
                };
                &&& final(self)@ == after_news(
                    old(self)@,
                    message_data(messages@),
                    event_data(events@),
                    r,
                )
                &&& carries_all(
                    out@,
                    composed(old(self)@, message_data(messages@), event_data(events@), r),
                )
            }),
    {
        let ghost s = self@;
        let consuming = !self.monitor && !self.follow;
        let ghost found = message_data(messages@);
        let ghost noted = event_data(events@);
        let ghost msg = last_message(found, s.last_msg);
        let mut out: Vec<Outgoing> = Vec::new();
        let ghost first = Seq::new(
            found.len(),
            |i: int| message_out(found[i], s.last_evt, consumes(s)),
        );
        let mut i: usize = 0;
        while i < messages.len()
            invariant
                i <= messages@.len(),
                out@.len() == i,
                consuming == consumes(s),
                self.last_evt == s.last_evt,
                found == message_data(messages@),
                first == Seq::new(
                    found.len(),
                    |i: int| message_out(found[i], s.last_evt, consumes(s)),
                ),
                forall|k: int| 0 <= k < i ==> carries(#[trigger] out@[k], first[k]),
            decreases messages@.len() - i,
        {
            out.push(message_frame(&messages[i], self.last_evt, consuming));
            i += 1;
        }
        if messages.len() > 0 {
            self.last_msg = messages[messages.len() - 1].seq;
            proof {
                assert(found.last() == messages@.last()@);
            }
        }
        let ghost second = Seq::new(noted.len(), |i: int| event_out(noted[i], msg));
        let mut j: usize = 0;
        while j < events.len()
            invariant
                j <= events@.len(),
                out@.len() == first.len() + j,
                self.last_msg == msg,
                noted == event_data(events@),
                second == Seq::new(noted.len(), |i: int| event_out(noted[i], msg)),
                forall|k: int| 0 <= k < first.len() ==> carries(#[trigger] out@[k], first[k]),
                forall|k: int|
                    first.len() <= k < out@.len() ==> carries(
                        #[trigger] out@[k],
                        second[k - first.len()],
                    ),
            decreases events@.len() - j,
        {
            out.push(event_frame(&events[j], self.last_msg));
            j += 1;
        }
        if events.len() > 0 {
            self.last_evt = events[events.len() - 1].seq;
            proof {
                assert(noted.last() == events@.last()@);
            }
        }
        if let Some(r) = roster {
            out.push(roster_frame(&r, self.last_msg, self.last_evt));
            self.last_roster = Some(r);
        }
        out
    }

    /// Looks at the tables once and puts together what the client has not been sent yet.
    pub fn round(&mut self, store: &Store) -> (r: Result<Vec<Outgoing>, Failure>)
        requires
            store.wf(),
        ensures
            match r {
                Ok(out) => final(self)@ == after_round(store@, old(self)@) && carries_all(
                    out@,
                    round_out(store@, old(self)@),
                ),
                Err(f) => f is Store,
            },
    {
        let keys = self.scope_keys(store)?;
        let messages = store.messages_after_multi(keys.as_slice(), self.last_msg)?;
        let events = if self.monitor {
            store.events_after_multi(keys.as_slice(), self.last_evt)?
        } else {
            let none: Vec<EventRow> = Vec::new();
            none
        };
        let roster = if self.monitor {
            self.news_of(roster_snapshot(store)?)
        } else {
            None
        };
        proof {
            assert(event_data(events@) =~= new_events(store@, self@));
            assert(message_data(messages@) == new_messages(store@, self@));
        }
        Ok(self.compose(messages.as_slice(), events.as_slice(), roster))
    }

    /// The roster, if it is not the one that was sent last.
    fn news_of(&self, now: Roster) -> (r: Option<Roster>)
        ensures
            match r {
                Some(r) => self@.last_roster != Some(now@) && r == now,
                None => self@.last_roster == Some(now@),
            },
    {
        if let Some(last) = &self.last_roster {
            if same_roster(last, &now) {
                return None;
            }
        }
        Some(now)
    }

    /// Notes that a message was written: its agent has read it, if the stream is consumed.
    pub fn delivered(&self, store: &mut Store, seq: i64) -> (r: Result<(), Failure>)
        requires
            old(store).wf(),
            has_scope(self@),
        ensures
            match r {
                Ok(_) => final(store).wf() && final(store)@ == after_delivery(
                    old(store)@,
                    self@,
                    seq as int,
                ),
                Err(f) => f is Store,
            },
            !consumes(self@) ==> r is Ok,
    {
        match (&self.room, !self.monitor && !self.follow) {
            (Some(room), true) => store.advance_cursor(self.agent.as_str(), room.as_str(), seq),
            _ => Ok(()),
        }
    }

    /// What to do after a round. `live` says that the backlog was sent before, `idle_ms` how
    /// long nothing was written, and `age_ms` how long the stream has been open.
    pub fn next(&self, wrote: bool, live: bool, idle_ms: u64, age_ms: u64) -> (r: Next)
        ensures
            r == next_step(self@, wrote, live, idle_ms as int, age_ms as int),
    {
        if self.once && wrote {
            return Next::Close;
        }
        if wrote || !live {
            return Next::Round;
        }
        if self.once && age_ms >= self.timeout_ms {
            return Next::Close;
        }
        let keepalive = idle_ms >= KEEPALIVE_MS;
        let silent: u64 = if keepalive {
            0
        } else {
            idle_ms
        };
        let mut wait: u64 = KEEPALIVE_MS - silent;
        if wait < SHORTEST_WAIT_MS {
            wait = SHORTEST_WAIT_MS;
        }
        if self.once && self.timeout_ms - age_ms < wait {
            wait = self.timeout_ms - age_ms;
        }
        Next::Park { keepalive, wait_ms: wait }
    }
}

} // verus!
