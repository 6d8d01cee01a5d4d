//! The client's side of `recv`: which messages it shows, and when it is done.

use crate::json::{
    all_data, array, json_parse, json_pretty, json_text, object, parse, pretty, text, text_of, Json,
    JsonData,
};
use crate::names::lemma_names;
use crate::requests::{holds, keys_of};
use crate::sse::{EventData, SseEvent};
use crate::text::{copy, same};
use vstd::prelude::*;

verus! {

/// The data of a message frame; what is not JSON counts as `null`.
pub open spec fn frame_json(data: Seq<char>) -> JsonData {
    match json_parse(data) {
        Some(d) => d,
        None => JsonData::Null,
    }
}

/// What a `recv` has seen of its stream.
#[verifier::ext_equal]
pub struct RecvData {
    pub follow: bool,
    /// The backlog is not complete yet.
    pub in_backfill: bool,
    pub collected: Seq<JsonData>,
}

/// What is to be done.
pub enum ActionData {
    /// Read on.
    Wait,
    /// Show one message on a line of its own and read on.
    Line(JsonData),
    /// Show these messages and end.
    Finish(Seq<JsonData>),
    /// End with an error.
    Fail(Seq<char>),
}

/// What the client is to do.
#[derive(Debug, PartialEq, Eq)]
pub enum RecvAction {
    Wait,
    Line(Json),
    Finish(Vec<Json>),
    Fail(String),
}

impl View for RecvAction {
    type V = ActionData;

    open spec fn view(&self) -> ActionData {
        match *self {
            RecvAction::Wait => ActionData::Wait,
            RecvAction::Line(j) => ActionData::Line(j@),
            RecvAction::Finish(v) => ActionData::Finish(all_data(v@)),
            RecvAction::Fail(msg) => ActionData::Fail(msg@),
        }
    }
}

/// A `recv` that has seen nothing.
pub open spec fn waiting(follow: bool) -> RecvData {
    RecvData { follow, in_backfill: true, collected: Seq::empty() }
}

/// What a block of the stream comes to whose data, if it is a frame, is `value`. Messages are
/// collected until the backlog is complete; if it held any, the call is done. After that they
/// are collected until the server ends the stream. When following, each message is shown at
/// once.
pub open spec fn on_parsed(s: RecvData, e: EventData, value: JsonData) -> (RecvData, ActionData) {
    match e {
        EventData::Comment(c) => if c == "ready"@ {
            if !s.follow && s.collected.len() > 0 {
                (
                    RecvData { in_backfill: false, collected: Seq::empty(), ..s },
                    ActionData::Finish(s.collected),
                )
            } else {
                (RecvData { in_backfill: false, ..s }, ActionData::Wait)
            }
        } else {
            (s, ActionData::Wait)
        },
        EventData::Frame { event, id, data } => if event == "message"@ {
            if s.follow {
                (s, ActionData::Line(value))
            } else {
                (
                    RecvData { collected: s.collected.push(value), ..s },
                    ActionData::Wait,
                )
            }
        } else {
            (s, ActionData::Wait)
        },
    }
}

/// What a block of the stream comes to.
pub open spec fn on_block(s: RecvData, e: EventData) -> (RecvData, ActionData) {
    on_parsed(
        s,
        e,
        match e {
            EventData::Frame { event, id, data } => frame_json(data),
            EventData::Comment(_) => JsonData::Null,
        },
    )
}

/// What the end of the stream comes to: a one-shot call whose backlog was complete is done.
pub open spec fn on_close(s: RecvData) -> ActionData {
    if s.follow || s.in_backfill {
        ActionData::Fail("recv: server closed the stream"@)
    } else {
        ActionData::Finish(s.collected)
    }
}

/// What blocks of the stream come to, one after the other, until the call ends or they do.
pub open spec fn run(s: RecvData, blocks: Seq<EventData>) -> (RecvData, ActionData)
    decreases blocks.len(),
{
    if blocks.len() == 0 {
        (s, ActionData::Wait)
    } else {
        let (s, action) = on_block(s, blocks[0]);
        match action {
            ActionData::Wait | ActionData::Line(_) => run(s, blocks.skip(1)),
            _ => (s, action),
        }
    }
}

/// A block that carries a message.
pub open spec fn is_message(e: EventData) -> bool {
    e matches EventData::Frame { event, .. } && event == "message"@
}

/// The message that a block carries.
pub open spec fn message_of(e: EventData) -> JsonData {
    match e {
        EventData::Frame { event, id, data } => frame_json(data),
        EventData::Comment(_) => JsonData::Null,
    }
}

/// The messages that blocks carry.
pub open spec fn messages_of(blocks: Seq<EventData>) -> Seq<JsonData> {
    Seq::new(blocks.len(), |i: int| message_of(blocks[i]))
}

/// Messages are collected in their order, none is dropped.
proof fn lemma_collects(s: RecvData, blocks: Seq<EventData>, rest: Seq<EventData>)
    requires
        !s.follow,
        forall|i: int| 0 <= i < blocks.len() ==> is_message(#[trigger] blocks[i]),
    ensures
        run(s, blocks + rest) == run(
            RecvData { collected: s.collected + messages_of(blocks), ..s },
            rest,
        ),
    decreases blocks.len(),
{
    if blocks.len() == 0 {
        assert(blocks + rest =~= rest);
        assert(s.collected + messages_of(blocks) =~= s.collected);
    } else {
        let tail = blocks.skip(1);
        assert((blocks + rest)[0] == blocks[0]);
        assert(is_message(blocks[0]));
        assert((blocks + rest).skip(1) =~= tail + rest);
        let next = on_block(s, blocks[0]).0;
        assert forall|i: int| 0 <= i < tail.len() implies is_message(#[trigger] tail[i]) by {
            assert(tail[i] == blocks[i + 1]);
        }
        lemma_collects(next, tail, rest);
        assert(next.collected + messages_of(tail) =~= s.collected + messages_of(blocks));
    }
}

/// A one-shot call shows exactly the messages of the backlog, in their order, if there are
/// any.
pub proof fn law_backlog_is_shown(backlog: Seq<EventData>, rest: Seq<EventData>)
    requires
        backlog.len() > 0,
        forall|i: int| 0 <= i < backlog.len() ==> is_message(#[trigger] backlog[i]),
    ensures
        run(waiting(false), backlog + (seq![EventData::Comment("ready"@)] + rest)).1
            == ActionData::Finish(messages_of(backlog)),
{
    let tail = seq![EventData::Comment("ready"@)] + rest;
    lemma_collects(waiting(false), backlog, tail);
    assert(Seq::<JsonData>::empty() + messages_of(backlog) =~= messages_of(backlog));
    assert(tail[0] == EventData::Comment("ready"@));
}

/// A one-shot call whose backlog is empty shows exactly the messages that arrive before the
/// server ends the stream, in their order.
pub proof fn law_live_messages_are_shown(live: Seq<EventData>)
    requires
        forall|i: int| 0 <= i < live.len() ==> is_message(#[trigger] live[i]),
    ensures
        on_close(run(waiting(false), seq![EventData::Comment("ready"@)] + live).0)
            == ActionData::Finish(messages_of(live)),
{
    let all = seq![EventData::Comment("ready"@)] + live;
    let s = on_block(waiting(false), EventData::Comment("ready"@)).0;
    assert(all[0] == EventData::Comment("ready"@));
    assert(all.skip(1) =~= live);
    lemma_collects(s, live, Seq::empty());
    assert(live + Seq::<EventData>::empty() =~= live);
    assert(s.collected + messages_of(live) =~= messages_of(live));
}

/// A block that says that the backlog is complete.
pub open spec fn is_ready(e: EventData) -> bool {
    e == EventData::Comment("ready"@)
}

/// The lines that are shown over blocks of the stream.
pub open spec fn lines(s: RecvData, blocks: Seq<EventData>) -> Seq<JsonData>
    decreases blocks.len(),
{
    if blocks.len() == 0 {
        Seq::empty()
    } else {
        let (next, action) = on_block(s, blocks[0]);
        let rest = lines(next, blocks.skip(1));
        match action {
            ActionData::Line(value) => seq![value] + rest,
            _ => rest,
        }
    }
}

/// Messages come in the frames of the event `message`, and in no others. What such a frame brings is
/// its data, read as JSON; data that is none counts as `null`.
pub proof fn law_message_is_its_data(
    e: EventData,
    event: Seq<char>,
    id: Option<Seq<char>>,
    data: Seq<char>,
)
    requires
        e == (EventData::Frame { event, id, data }),
    ensures
        is_message(e) <==> event == "message"@,
        json_parse(data) matches Some(d) ==> message_of(e) == d,
        json_parse(data) is None ==> message_of(e) == JsonData::Null,
{
}

/// When following, each message is shown at once, before and after the backlog is complete;
/// nothing else is shown, nothing is held back, and the call goes on. So the lines shown over any
/// stream are exactly the messages of its message frames, in their order.
pub proof fn law_following_shows_every_message(s: RecvData, blocks: Seq<EventData>)
    requires
        s.follow,
    ensures
        forall|e: EventData| #[trigger]
            is_message(e) ==> on_block(s, e) == (s, ActionData::Line(message_of(e))),
        forall|e: EventData|
            !is_message(e) ==> (#[trigger] on_block(s, e)).1 == ActionData::Wait,
        lines(s, blocks) =~= messages_of(blocks.filter(|e: EventData| is_message(e))),
        run(s, blocks).1 == ActionData::Wait,
        run(s, blocks).0.follow,
        run(s, blocks).0.collected == s.collected,
    decreases blocks.len(),
{
    let p = |e: EventData| is_message(e);
    if blocks.len() == 0 {
        reveal(Seq::filter);
        assert(blocks.filter(p) =~= Seq::<EventData>::empty());
    } else {
        let next = on_block(s, blocks[0]).0;
        let tail = blocks.skip(1);
        law_following_shows_every_message(next, tail);
        lemma_filter_first(blocks, p);
        let kept = tail.filter(p);
        if is_message(blocks[0]) {
            assert(messages_of(seq![blocks[0]] + kept) =~= seq![message_of(blocks[0])]
                + messages_of(kept));
        }
    }
}

/// What is left of a sequence begins with its first element, if that is wanted.
proof fn lemma_filter_first<T>(s: Seq<T>, p: spec_fn(T) -> bool)
    requires
        s.len() > 0,
    ensures
        s.filter(p) == (if p(s[0]) {
            seq![s[0]] + s.skip(1).filter(p)
        } else {
            s.skip(1).filter(p)
        }),
{
    let first = seq![s[0]];
    assert(s =~= first + s.skip(1));
    Seq::filter_distributes_over_add(first, s.skip(1), p);
    reveal_with_fuel(Seq::filter, 2);
    assert(first.drop_last() =~= Seq::<T>::empty());
    assert(first.drop_last().filter(p) =~= Seq::<T>::empty());
    assert(first.last() == s[0]);
    assert(first.filter(p) =~= (if p(s[0]) {
        first
    } else {
        Seq::empty()
    }));
    assert(Seq::<T>::empty() + s.skip(1).filter(p) =~= s.skip(1).filter(p));
}

/// A one-shot call shows nothing and goes on until it is told that the backlog is complete. It
/// keeps exactly the messages of the message frames, in their order, behind those that it had.
pub proof fn law_one_shot_collects_messages(s: RecvData, blocks: Seq<EventData>)
    requires
        !s.follow,
        forall|i: int| 0 <= i < blocks.len() ==> !is_ready(#[trigger] blocks[i]),
    ensures
        run(s, blocks).1 == ActionData::Wait,
        lines(s, blocks) =~= Seq::<JsonData>::empty(),
        run(s, blocks).0.in_backfill == s.in_backfill,
        run(s, blocks).0.follow == s.follow,
        run(s, blocks).0.collected =~= s.collected + messages_of(
            blocks.filter(|e: EventData| is_message(e)),
        ),
    decreases blocks.len(),
{
    let p = |e: EventData| is_message(e);
    if blocks.len() == 0 {
        reveal(Seq::filter);
        assert(blocks.filter(p) =~= Seq::<EventData>::empty());
    } else {
        assert(!is_ready(blocks[0]));
        let next = on_block(s, blocks[0]).0;
        let tail = blocks.skip(1);
        assert forall|i: int| 0 <= i < tail.len() implies !is_ready(#[trigger] tail[i]) by {
            assert(tail[i] == blocks[i + 1]);
        }
        law_one_shot_collects_messages(next, tail);
        lemma_filter_first(blocks, p);
        let kept = tail.filter(p);
        if is_message(blocks[0]) {
            assert(messages_of(seq![blocks[0]] + kept) =~= seq![message_of(blocks[0])]
                + messages_of(kept));
        }
    }
}

/// A stream that the server ends before the backlog is complete, or that a call follows, ends
/// the call with an error. After that, a one-shot call ends with all that it kept.
pub proof fn law_end_of_stream(s: RecvData, blocks: Seq<EventData>)
    requires
        forall|i: int| 0 <= i < blocks.len() ==> !is_ready(#[trigger] blocks[i]),
    ensures
        s.follow || s.in_backfill ==> on_close(run(s, blocks).0) == ActionData::Fail(
            "recv: server closed the stream"@,
        ),
        !s.follow && !s.in_backfill ==> on_close(run(s, blocks).0) == ActionData::Finish(
            run(s, blocks).0.collected,
        ),
        on_block(s, EventData::Comment("ready"@)).0.in_backfill == false,
        waiting(s.follow).in_backfill,
        waiting(s.follow).follow == s.follow,
        waiting(s.follow).collected.len() == 0,
        !s.follow && s.collected.len() > 0 ==> on_block(s, EventData::Comment("ready"@)).1
            == ActionData::Finish(s.collected),
        s.follow || s.collected.len() == 0 ==> on_block(s, EventData::Comment("ready"@)).1
            == ActionData::Wait,
{
    if s.follow {
        law_following_shows_every_message(s, blocks);
    } else {
        law_one_shot_collects_messages(s, blocks);
    }
}

/// What a finished call shows names the room and holds exactly the messages, in their order.
pub proof fn law_result_tells(room: Seq<char>, messages: Seq<JsonData>)
    ensures
        holds(result_json(room, messages), "room"@, JsonData::Text(room)),
        holds(result_json(room, messages), "messages"@, JsonData::Array(messages)),
        keys_of(result_json(room, messages)) == set!["room"@, "messages"@],
{
    lemma_names();
    assert(keys_of(result_json(room, messages)) =~= set!["room"@, "messages"@]);
}

/// The state of a `recv` call.
pub struct Recv {
    follow: bool,
    in_backfill: bool,
    collected: Vec<Json>,
}

impl View for Recv {
    type V = RecvData;

    closed spec fn view(&self) -> RecvData {
        RecvData {
            follow: self.follow,
            in_backfill: self.in_backfill,
            collected: all_data(self.collected@),
        }
    }
}

impl Recv {
    /// A call that has seen nothing.
    pub fn new(follow: bool) -> (r: Recv)
        ensures
            r@ == waiting(follow),
    {
        let r = Recv { follow, in_backfill: true, collected: Vec::new() };
        proof {
            assert(all_data(r.collected@) =~= Seq::<JsonData>::empty());
        }
        r
    }

    /// Takes a block of the stream whose data, if it is a frame, was parsed to `value`.
    pub fn take(&mut self, event: SseEvent, value: Json) -> (r: RecvAction)
        ensures
            final(self)@ == on_parsed(old(self)@, event@, value@).0,
            r@ == on_parsed(old(self)@, event@, value@).1,
    {
        match event {
            SseEvent::Comment(c) => {
                if same(c.as_str(), "ready") {
                    self.in_backfill = false;
                    if !self.follow && self.collected.len() > 0 {
                        let mut done: Vec<Json> = Vec::new();
                        std::mem::swap(&mut done, &mut self.collected);
                        proof {
                            assert(all_data(self.collected@) =~= Seq::<JsonData>::empty());
                        }
                        return RecvAction::Finish(done);
                    }
                }
                RecvAction::Wait
            },
            SseEvent::Frame { event, id: _, data: _ } => {
                if same(event.as_str(), "message") {
                    if self.follow {
                        return RecvAction::Line(value);
                    }
                    let ghost before = all_data(self.collected@);
                    self.collected.push(value);
                    proof {
                        assert(all_data(self.collected@) =~= before.push(value@));
                    }
                }
                RecvAction::Wait
            },
        }
    }

    /// Takes a block of the stream.
    pub fn event(&mut self, event: SseEvent) -> (r: RecvAction)
        ensures
            final(self)@ == on_block(old(self)@, event@).0,
            r@ == on_block(old(self)@, event@).1,
    {
        let value = match &event {
            SseEvent::Frame { event: _, id: _, data } => match parse(data.as_str()) {
                Some(j) => j,
                None => Json::Null,
            },
            SseEvent::Comment(_) => Json::Null,
        };
        self.take(event, value)
    }

    /// The stream has ended.
    pub fn close(self) -> (r: RecvAction)
        ensures
            r@ == on_close(self@),
    {
        if self.follow || self.in_backfill {
            RecvAction::Fail(copy("recv: server closed the stream"))
        } else {
            RecvAction::Finish(self.collected)
        }
    }

    /// The time is up: what was collected is shown.
    pub fn expire(self) -> (r: Vec<Json>)
        ensures
            all_data(r@) == self@.collected,
    {
        self.collected
    }
}

/// What a finished call shows.
pub open spec fn result_json(room: Seq<char>, messages: Seq<JsonData>) -> JsonData {
    JsonData::Object(
        map!["room"@ => JsonData::Text(room), "messages"@ => JsonData::Array(messages)],
    )
}

/// The document that a finished call shows.
pub fn result(room: &str, messages: Vec<Json>) -> (r: Json)
    ensures
        r@ == result_json(room@, all_data(messages@)),
{
    object().with("room", text(room)).with("messages", array(messages))
}

/// What a finished call prints.
pub fn print_messages(room: &str, messages: Vec<Json>) -> (r: String)
    ensures
        r@ == json_pretty(result_json(room@, all_data(messages@))),
{
    pretty(&result(room, messages))
}

/// What a following call prints for a message.
pub fn print_line(message: &Json) -> (r: String)
    ensures
        r@ == json_text(message@),
{
    text_of(message)
}

} // verus!
