//! The dashboard: what it knows of a mission, and the client that it reads with.

use crate::cli::signed_by;
use crate::http::{detail, detail_of};
use crate::json::{json_parse, json_text, parse, text, text_of, Json, JsonData};
use crate::number::{decimal, decimal_u64};
use crate::store::AgentEntry;
use crate::tables::opt_num;
use crate::text::{concat3, copy, copy_all, copy_opt, opt_text, texts};
use vstd::prelude::*;

pub mod data;
pub mod mirror;
pub mod shown;
pub mod view;

verus! {

/// Runtime configuration, resolved once from the environment and the flags.
#[derive(Debug, Clone, PartialEq, Eq)]
pub struct Config {
    pub url: String,
    pub token: String,
    /// The observer's identity. It only reads, and the roster leaves it out.
    pub agent: String,
    /// How long to wait before connecting again, in nanoseconds.
    pub interval: u64,
}

/// Whether the server can be reached, as far as the last attempt shows. There is no health
/// endpoint: a server that answered is up, even if it answered with an error status.
#[derive(Debug, Clone, PartialEq, Eq)]
pub enum Health {
    Connecting,
    Connected,
    Disconnected(String),
}

/// How far an attempt to follow the server has come.
#[derive(Debug, Clone, PartialEq, Eq)]
pub enum Attempt {
    /// It has begun.
    Begun,
    /// The server answered, with this status code.
    Answered(u16),
    /// The server could not be reached, or did not answer in time, for this reason.
    Failed(String),
    /// The stream has ended.
    Closed,
}

/// What an attempt shows of the server.
pub fn health_after(attempt: &Attempt) -> (h: Health)
    ensures
        match *attempt {
            Attempt::Begun => h is Connecting,
            Attempt::Answered(_) => h is Connected,
            Attempt::Failed(why) => h matches Health::Disconnected(reason) && reason@ == why@,
            Attempt::Closed => h matches Health::Disconnected(reason) && reason@
                == "stream closed"@,
        },
{
    match attempt {
        Attempt::Begun => Health::Connecting,
        Attempt::Answered(_) => Health::Connected,
        Attempt::Failed(why) => Health::Disconnected(copy(why.as_str())),
        Attempt::Closed => Health::Disconnected(copy("stream closed")),
    }
}

/// One agent of the roster.
#[derive(Debug, Clone, PartialEq, Eq)]
pub struct AgentView {
    pub id: String,
    pub status: String,
}

/// A message in a room.
#[derive(Debug, Clone, PartialEq, Eq)]
pub struct MsgView {
    pub from: String,
    pub text: String,
    pub ts: Option<i64>,
}

/// A progress event.
#[derive(Debug, Clone, PartialEq, Eq)]
pub struct EventView {
    pub room: String,
    pub agent: String,
    pub kind: String,
    pub task: Option<String>,
    pub phase: Option<String>,
    pub step_cur: Option<i64>,
    pub step_total: Option<i64>,
    pub percent: Option<i64>,
    pub target: Option<String>,
    pub note: Option<String>,
    pub ts: i64,
}

/// One entry of a room's thread.
#[derive(Debug, Clone, PartialEq, Eq)]
pub enum ThreadItem {
    Msg(MsgView),
    Evt(EventView),
}

/// A room's thread, in the order of time.
#[derive(Debug, Clone, PartialEq, Eq)]
pub struct RoomThread {
    pub room: String,
    pub items: Vec<ThreadItem>,
}

/// One room of the roster, with what was observed in it.
#[derive(Debug, Clone, PartialEq, Eq)]
pub struct RoomView {
    pub name: String,
    pub rtype: String,
    pub owner: String,
    pub members: Vec<String>,
    /// How many messages were observed in the room since the dashboard started.
    pub total_seen: u64,
    /// The latest message, if any.
    pub last: Option<MsgView>,
}

/// All that is shown.
#[derive(Debug, Clone, PartialEq, Eq)]
pub struct Snapshot {
    pub health: Health,
    pub agents: Vec<AgentView>,
    pub rooms: Vec<RoomView>,
    /// The latest progress events of all rooms.
    pub events: Vec<EventView>,
    /// The thread of the room that is looked into.
    pub thread: Option<RoomThread>,
    /// The observer's identity.
    pub observer: String,
    /// When the last refresh was complete, in milliseconds on the observer's clock.
    pub last_update: Option<u64>,
    /// How many refreshes there were.
    pub polls: u64,
}

/// A message as data.
pub struct MsgInfo {
    pub from: Seq<char>,
    pub text: Seq<char>,
    pub ts: Option<int>,
}

/// A progress event as data.
pub struct EventInfo {
    pub room: Seq<char>,
    pub agent: Seq<char>,
    pub kind: Seq<char>,
    pub task: Option<Seq<char>>,
    pub phase: Option<Seq<char>>,
    pub step_cur: Option<int>,
    pub step_total: Option<int>,
    pub percent: Option<int>,
    pub target: Option<Seq<char>>,
    pub note: Option<Seq<char>>,
    pub ts: int,
}

/// An entry of a thread as data.
pub enum ItemInfo {
    Msg(MsgInfo),
    Evt(EventInfo),
}

/// A room as data.
pub struct RoomInfo {
    pub name: Seq<char>,
    pub rtype: Seq<char>,
    pub owner: Seq<char>,
    pub members: Seq<Seq<char>>,
    pub total_seen: int,
    pub last: Option<MsgInfo>,
}

impl View for AgentView {
    type V = AgentEntry;

    open spec fn view(&self) -> AgentEntry {
        AgentEntry { id: self.id@, status: self.status@ }
    }
}

impl View for MsgView {
    type V = MsgInfo;

    open spec fn view(&self) -> MsgInfo {
        MsgInfo { from: self.from@, text: self.text@, ts: opt_num(self.ts) }
    }
}

impl View for EventView {
    type V = EventInfo;

    open spec fn view(&self) -> EventInfo {
        EventInfo {
            room: self.room@,
            agent: self.agent@,
            kind: self.kind@,
            task: opt_text(self.task),
            phase: opt_text(self.phase),
            step_cur: opt_num(self.step_cur),
            step_total: opt_num(self.step_total),
            percent: opt_num(self.percent),
            target: opt_text(self.target),
            note: opt_text(self.note),
            ts: self.ts as int,
        }
    }
}

impl View for ThreadItem {
    type V = ItemInfo;

    open spec fn view(&self) -> ItemInfo {
        match *self {
            ThreadItem::Msg(m) => ItemInfo::Msg(m@),
            ThreadItem::Evt(e) => ItemInfo::Evt(e@),
        }
    }
}

impl View for RoomView {
    type V = RoomInfo;

    open spec fn view(&self) -> RoomInfo {
        RoomInfo {
            name: self.name@,
            rtype: self.rtype@,
            owner: self.owner@,
            members: texts(self.members@),
            total_seen: self.total_seen as int,
            last: opt_msg(self.last),
        }
    }
}

/// An optional message as data.
pub open spec fn opt_msg(m: Option<MsgView>) -> Option<MsgInfo> {
    match m {
        Some(m) => Some(m@),
        None => None,
    }
}

/// Agents as data.
pub open spec fn agent_infos(v: Seq<AgentView>) -> Seq<AgentEntry> {
    Seq::new(v.len(), |i: int| v[i]@)
}

/// Rooms as data.
pub open spec fn room_infos(v: Seq<RoomView>) -> Seq<RoomInfo> {
    Seq::new(v.len(), |i: int| v[i]@)
}

/// Events as data.
pub open spec fn event_infos(v: Seq<EventView>) -> Seq<EventInfo> {
    Seq::new(v.len(), |i: int| v[i]@)
}

/// Entries of a thread as data.
pub open spec fn item_infos(v: Seq<ThreadItem>) -> Seq<ItemInfo> {
    Seq::new(v.len(), |i: int| v[i]@)
}

/// A copy of a message.
pub fn copy_msg(m: &MsgView) -> (r: MsgView)
    ensures
        r@ == m@,
{
    MsgView { from: copy(m.from.as_str()), text: copy(m.text.as_str()), ts: m.ts }
}

/// A copy of an optional message.
pub fn copy_opt_msg(m: &Option<MsgView>) -> (r: Option<MsgView>)
    ensures
        opt_msg(r) == opt_msg(*m),
{
    match m {
        Some(m) => Some(copy_msg(m)),
        None => None,
    }
}

/// A copy of an event.
pub fn copy_event(e: &EventView) -> (r: EventView)
    ensures
        r@ == e@,
{
    EventView {
        room: copy(e.room.as_str()),
        agent: copy(e.agent.as_str()),
        kind: copy(e.kind.as_str()),
        task: copy_opt(&e.task),
        phase: copy_opt(&e.phase),
        step_cur: e.step_cur,
        step_total: e.step_total,
        percent: e.percent,
        target: copy_opt(&e.target),
        note: copy_opt(&e.note),
        ts: e.ts,
    }
}

/// A copy of a thread's entry.
pub fn copy_item(i: &ThreadItem) -> (r: ThreadItem)
    ensures
        r@ == i@,
{
    match i {
        ThreadItem::Msg(m) => ThreadItem::Msg(copy_msg(m)),
        ThreadItem::Evt(e) => ThreadItem::Evt(copy_event(e)),
    }
}

/// A copy of an agent.
pub fn copy_agent(a: &AgentView) -> (r: AgentView)
    ensures
        r@ == a@,
{
    AgentView { id: copy(a.id.as_str()), status: copy(a.status.as_str()) }
}

/// A copy of a room.
pub fn copy_room(r: &RoomView) -> (c: RoomView)
    ensures
        c@ == r@,
{
    RoomView {
        name: copy(r.name.as_str()),
        rtype: copy(r.rtype.as_str()),
        owner: copy(r.owner.as_str()),
        members: copy_all(r.members.as_slice()),
        total_seen: r.total_seen,
        last: copy_opt_msg(&r.last),
    }
}

impl Snapshot {
    /// What is shown before anything is known.
    pub fn initial(observer: String) -> (r: Snapshot)
        ensures
            r.health is Connecting,
            r.agents@.len() == 0,
            r.rooms@.len() == 0,
            r.events@.len() == 0,
            r.thread is None,
            r.observer == observer,
            r.last_update is None,
            r.polls == 0,
    {
        Snapshot {
            health: Health::Connecting,
            agents: Vec::new(),
            rooms: Vec::new(),
            events: Vec::new(),
            thread: None,
            observer,
            last_update: None,
            polls: 0,
        }
    }
}

/// Why a call failed: the server could not be reached, or it answered with an error status.
#[derive(Debug, PartialEq, Eq)]
pub enum CallError {
    /// The server could not be reached at all.
    Transport(String),
    /// The server answered, but not with status 200.
    Status { code: u16, detail: String },
}

impl CallError {
    /// The error as it is shown.
    pub open spec fn shown(&self) -> Seq<char> {
        match *self {
            CallError::Transport(e) => e@,
            CallError::Status { code, detail } => decimal(code as int) + " "@ + detail@,
        }
    }

    /// The error as it is shown.
    pub fn message(&self) -> (r: String)
        ensures
            r@ == self.shown(),
    {
        match self {
            CallError::Transport(e) => copy(e.as_str()),
            CallError::Status { code, detail } => concat3(
                decimal_u64(*code as u64).as_str(),
                " ",
                detail.as_str(),
            ),
        }
    }
}

/// What an answer comes to: its document, or its status code and the reason that it gives.
pub open spec fn reply_data(code: int, doc: Option<JsonData>) -> Result<
    JsonData,
    (int, Seq<char>),
> {
    if code == 200 {
        Ok(
            match doc {
                Some(d) => d,
                None => JsonData::Null,
            },
        )
    } else {
        Err((code, detail_of(doc)))
    }
}

/// A result of a call that was answered matches what is specified.
pub open spec fn reply_is(
    r: Result<Json, CallError>,
    d: Result<JsonData, (int, Seq<char>)>,
) -> bool {
    match r {
        Ok(j) => d == Ok::<JsonData, (int, Seq<char>)>(j@),
        Err(CallError::Status { code, detail }) => d == Err::<JsonData, (int, Seq<char>)>(
            (code as int, detail@),
        ),
        Err(CallError::Transport(_)) => false,
    }
}

/// A client for single calls, which the dashboard makes under the observer's identity.
pub struct Client {
    pub url: String,
    pub token: String,
    pub agent: String,
    /// How long to wait for an answer, in seconds.
    pub timeout_secs: u64,
}

impl Client {
    /// A client as the configuration says.
    pub fn new(cfg: &Config) -> (r: Client)
        ensures
            r.url@ == cfg.url@,
            r.token@ == cfg.token@,
            r.agent@ == cfg.agent@,
            r.timeout_secs == 15,
    {
        Client {
            url: copy(cfg.url.as_str()),
            token: copy(cfg.token.as_str()),
            agent: copy(cfg.agent.as_str()),
            timeout_secs: 15,
        }
    }

    /// The body of a call: the fields with the observer as the agent.
    pub fn payload(&self, fields: Json) -> (r: String)
        requires
            fields@ is Object,
        ensures
            r@ == json_text(signed_by(fields@, self.agent@)),
    {
        text_of(&fields.with("agent", text(self.agent.as_str())))
    }

    /// What a parsed answer comes to: its document, or the error that its status stands for.
    pub fn reply_of(code: u16, doc: Option<Json>) -> (r: Result<Json, CallError>)
        ensures
            reply_is(
                r,
                reply_data(
                    code as int,
                    match doc {
                        Some(d) => Some(d@),
                        None => None,
                    },
                ),
            ),
    {
        if code == 200 {
            match doc {
                Some(j) => Ok(j),
                None => Ok(Json::Null),
            }
        } else {
            Err(CallError::Status { code, detail: detail(&doc) })
        }
    }

    /// What an answer comes to.
    pub fn reply(code: u16, body: &str) -> (r: Result<Json, CallError>)
        ensures
            reply_is(r, reply_data(code as int, json_parse(body@))),
    {
        Client::reply_of(code, parse(body))
    }
}

} // verus!
