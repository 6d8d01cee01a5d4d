//! What holds of streams as a whole: nothing is lost, nothing comes twice, watching consumes
//! nothing, and a client shows what the server delivered.

use crate::chunked::{between_chunks, chunked};
use crate::cli::{recv_request, RecvArgsData};
use crate::json::{json_parse, json_text, JsonData};
use crate::laws::sound;
use crate::number::lemma_decimal_roundtrip;
use crate::ops::{outcome, unread, Outcome};
use crate::recv::{
    is_message, law_backlog_is_shown, law_live_messages_are_shown, message_of, messages_of,
    on_close, run, waiting, ActionData,
};
use crate::sse::{fresh, law_since_roundtrip, since_text, since_value, whole, EventData};
use crate::store::RefusalData;
use crate::stream::{
    after_round, block_of, carries, carries_all, consumes, event_out, evt_mark, message_out,
    msg_mark, new_events, new_messages, new_roster, next_step, plan_of, round_out, scope, started,
    stream_message_json, DEFAULT_TIMEOUT_MS, KEEPALIVE_MS, Next, Outgoing, OutgoingData, PlanData,
    SessionData,
};
use crate::tables::{
    events_after, grown, in_order, lemma_filter_order, lemma_messages_after, messages_after,
    well_formed, with_cursor, MessageData, ProgressData, Tables,
};
use crate::wire::{block_parts, block_text, law_stream_roundtrip, receive, sendable};
use vstd::prelude::*;
use vstd::utf8::encode_utf8;

verus! {

/// Every action but `destroy-room` only adds messages and events.
pub proof fn law_actions_only_add(
    t: Tables,
    action: Seq<char>,
    agent: Seq<char>,
    b: JsonData,
    now: int,
    noted: bool,
)
    requires
        action != "destroy-room"@,
    ensures
        outcome(t, action, agent, b, now, noted) matches Outcome::Done { tables, .. } ==> grown(
            t,
            tables,
        ),
{
    assert(t.messages.take(t.messages.len() as int) =~= t.messages);
    assert(t.events.take(t.events.len() as int) =~= t.events);
    match outcome(t, action, agent, b, now, noted) {
        Outcome::Done { tables, .. } => {
            assert(tables.messages.take(t.messages.len() as int) =~= t.messages);
            assert(tables.events.take(t.events.len() as int) =~= t.events);
        },
        _ => {},
    }
}

/// The rows of a kind behind a mark.
spec fn behind<T>(rows: Seq<T>, number: spec_fn(T) -> int, p: spec_fn(T) -> bool, mark: int) -> Seq<
    T,
> {
    rows.filter(|x: T| p(x) && number(x) > mark)
}

/// Taking rows in two goes, with rows added in between, is taking them in one go at the end.
proof fn lemma_two_goes<T>(
    old_rows: Seq<T>,
    new_rows: Seq<T>,
    number: spec_fn(T) -> int,
    p: spec_fn(T) -> bool,
    since: int,
    high: int,
)
    requires
        in_order(old_rows, number),
        forall|i: int| 0 <= i < old_rows.len() ==> number(#[trigger] old_rows[i]) <= high,
        forall|i: int| 0 <= i < new_rows.len() ==> number(#[trigger] new_rows[i]) > high,
    ensures
        ({
            let first = behind(old_rows, number, p, since);
            let mark = if first.len() > 0 {
                number(first.last())
            } else {
                since
            };
            behind(old_rows + new_rows, number, p, since) =~= first + behind(
                old_rows + new_rows,
                number,
                p,
                mark,
            )
        }),
{
    let first = behind(old_rows, number, p, since);
    let mark = if first.len() > 0 {
        number(first.last())
    } else {
        since
    };
    let wanted = |x: T| p(x) && number(x) > since;
    let later = |x: T| p(x) && number(x) > mark;
    Seq::filter_distributes_over_add(old_rows, new_rows, wanted);
    Seq::filter_distributes_over_add(old_rows, new_rows, later);
    lemma_filter_order(old_rows, number, wanted);
    assert(first == old_rows.filter(wanted));
    if first.len() > 0 {
        let last = first[first.len() - 1];
        assert(old_rows.contains(last) && wanted(last));
        assert(number(last) <= high) by {
            let k = choose|k: int| 0 <= k < old_rows.len() && old_rows[k] == last;
            assert(number(old_rows[k]) <= high);
        }
        // What was there before is not behind the mark.
        assert forall|i: int| 0 <= i < old_rows.len() implies !later(#[trigger] old_rows[i]) by {
            let x = old_rows[i];
            if later(x) {
                assert(wanted(x));
                assert(first.contains(x));
                let k = choose|k: int| 0 <= k < first.len() && first[k] == x;
                if k < first.len() - 1 {
                    assert(number(first[k]) < number(first[first.len() - 1]));
                }
            }
        }
        old_rows.lemma_all_neg_filter_empty(later);
        assert(old_rows.filter(later) =~= Seq::<T>::empty());
        // What came later is behind the mark, and so behind `since`.
        assert forall|i: int| 0 <= i < new_rows.len() implies wanted(#[trigger] new_rows[i])
            == later(new_rows[i]) by {
            assert(number(new_rows[i]) > high);
        }
        lemma_filter_agree(new_rows, wanted, later);
    } else {
        assert(old_rows.filter(wanted) =~= Seq::<T>::empty());
    }
}

/// Two filters that agree on all elements keep the same ones.
pub proof fn lemma_filter_agree<T>(s: Seq<T>, p: spec_fn(T) -> bool, q: spec_fn(T) -> bool)
    requires
        forall|i: int| 0 <= i < s.len() ==> p(#[trigger] s[i]) == q(s[i]),
    ensures
        s.filter(p) =~= s.filter(q),
    decreases s.len(),
{
    reveal(Seq::filter);
    if s.len() > 0 {
        let front = s.drop_last();
        assert forall|i: int| 0 <= i < front.len() implies p(#[trigger] front[i]) == q(
            front[i],
        ) by {
            assert(front[i] == s[i]);
        }
        lemma_filter_agree(front, p, q);
        assert(p(s[s.len() - 1]) == q(s[s.len() - 1]));
    }
}

/// Looking twice, with anything sent in between, delivers what one look at the end would
/// deliver: nothing is lost and nothing comes twice, of messages and of events alike. Rooms may
/// be added in between. Left out is a room that gets a name under which there were messages or
/// events before, such as that of a channel: those are behind the marks already.
pub proof fn law_nothing_lost_nothing_twice(t1: Tables, t2: Tables, s: SessionData)
    requires
        well_formed(t1),
        grown(t1, t2),
        scope(t1, s).subset_of(scope(t2, s)),
        forall|i: int|
            0 <= i < t1.messages.len() && scope(t2, s).contains((#[trigger] t1.messages[i]).room)
                ==> scope(t1, s).contains(t1.messages[i].room),
        forall|i: int|
            0 <= i < t1.events.len() && scope(t2, s).contains((#[trigger] t1.events[i]).room)
                ==> scope(t1, s).contains(t1.events[i].room),
    ensures
        new_messages(t2, s) =~= new_messages(t1, s) + new_messages(t2, after_round(t1, s)),
        new_events(t2, s) =~= new_events(t1, s) + new_events(t2, after_round(t1, s)),
{
    let before = scope(t1, s);
    let keys = scope(t2, s);
    let next = after_round(t1, s);
    let number = |m: MessageData| m.seq;
    let here = |m: MessageData| keys.contains(m.room);
    let more = t2.messages.skip(t1.messages.len() as int);
    assert(t2.messages =~= t1.messages + more);
    assert forall|i: int| 0 <= i < more.len() implies number(#[trigger] more[i])
        > t1.message_high by {
        assert(more[i] == t2.messages[t1.messages.len() + i]);
    }
    lemma_two_goes(t1.messages, more, number, here, s.last_msg, t1.message_high);
    lemma_filter_agree(
        t1.messages,
        |m: MessageData| before.contains(m.room) && m.seq > s.last_msg,
        |m: MessageData| keys.contains(m.room) && m.seq > s.last_msg,
    );
    assert(messages_after(t1.messages, before, s.last_msg) == messages_after(
        t1.messages,
        keys,
        s.last_msg,
    ));
    lemma_messages_behind(t1.messages, keys, s.last_msg);
    lemma_messages_behind(t2.messages, keys, s.last_msg);
    lemma_messages_behind(t2.messages, keys, next.last_msg);
    let number = |e: ProgressData| e.seq;
    let here = |e: ProgressData| keys.contains(e.room);
    let more = t2.events.skip(t1.events.len() as int);
    assert(t2.events =~= t1.events + more);
    assert forall|i: int| 0 <= i < more.len() implies number(#[trigger] more[i])
        > t1.event_high by {
        assert(more[i] == t2.events[t1.events.len() + i]);
    }
    lemma_two_goes(t1.events, more, number, here, s.last_evt, t1.event_high);
    lemma_filter_agree(
        t1.events,
        |e: ProgressData| before.contains(e.room) && e.seq > s.last_evt,
        |e: ProgressData| keys.contains(e.room) && e.seq > s.last_evt,
    );
    assert(events_after(t1.events, before, s.last_evt) == events_after(
        t1.events,
        keys,
        s.last_evt,
    ));
    lemma_events_behind(t1.events, keys, s.last_evt);
    lemma_events_behind(t2.events, keys, s.last_evt);
    lemma_events_behind(t2.events, keys, next.last_evt);
}

proof fn lemma_messages_behind(messages: Seq<MessageData>, keys: Set<Seq<char>>, mark: int)
    ensures
        messages_after(messages, keys, mark) == behind(
            messages,
            |m: MessageData| m.seq,
            |m: MessageData| keys.contains(m.room),
            mark,
        ),
{
    lemma_filter_agree(
        messages,
        |m: MessageData| keys.contains(m.room) && m.seq > mark,
        |x: MessageData|
            (|m: MessageData| keys.contains(m.room))(x) && (|m: MessageData| m.seq)(x) > mark,
    );
}

proof fn lemma_events_behind(events: Seq<ProgressData>, keys: Set<Seq<char>>, mark: int)
    ensures
        events_after(events, keys, mark) == behind(
            events,
            |e: ProgressData| e.seq,
            |e: ProgressData| keys.contains(e.room),
            mark,
        ),
{
    lemma_filter_agree(
        events,
        |e: ProgressData| keys.contains(e.room) && e.seq > mark,
        |x: ProgressData|
            (|e: ProgressData| keys.contains(e.room))(x) && (|e: ProgressData| e.seq)(x) > mark,
    );
}

/// A client that comes back with the id of the last frame that it got goes on where that
/// frame left off: the marks are those of the stream that was cut.
pub proof fn law_resume_goes_on(t: Tables, s: SessionData)
    requires
        round_out(t, s).len() > 0,
        i64::MIN <= msg_mark(t, s) <= i64::MAX,
        i64::MIN <= evt_mark(t, s) <= i64::MAX,
    ensures
        since_value(round_out(t, s).last().id) == Some((msg_mark(t, s), evt_mark(t, s))),
        forall|t2: Tables, p: PlanData, agent: Seq<char>|
            p.since == Some((msg_mark(t, s), evt_mark(t, s))) ==> {
                let again = #[trigger] started(t2, p, agent);
                again.last_msg == after_round(t, s).last_msg && again.last_evt == after_round(
                    t,
                    s,
                ).last_evt
            },
{
    let out = round_out(t, s);
    let messages = new_messages(t, s);
    let events = new_events(t, s);
    assert(out.last().id == since_text(msg_mark(t, s), evt_mark(t, s))) by {
        if new_roster(t, s) is None && events.len() == 0 {
            assert(messages.len() > 0);
            assert(out[messages.len() - 1] == message_out(messages.last(), s.last_evt, consumes(s)));
        }
    }
    law_since_roundtrip(msg_mark(t, s) as i64, evt_mark(t, s) as i64);
}

/// Rows behind a later mark are among the rows behind an earlier one.
proof fn lemma_filter_twice<T>(s: Seq<T>, p: spec_fn(T) -> bool, q: spec_fn(T) -> bool)
    requires
        forall|x: T| #[trigger] q(x) ==> p(x),
    ensures
        s.filter(q) =~= s.filter(p).filter(q),
    decreases s.len(),
{
    reveal(Seq::filter);
    if s.len() > 0 {
        lemma_filter_twice(s.drop_last(), p, q);
        let front = s.drop_last().filter(p);
        if p(s.last()) {
            assert(front.push(s.last()).drop_last() =~= front);
        }
    }
}

/// Behind the number of one of the rows are the rows that follow it.
proof fn lemma_rest_behind<T>(
    rows: Seq<T>,
    number: spec_fn(T) -> int,
    p: spec_fn(T) -> bool,
    since: int,
    k: int,
)
    requires
        in_order(rows, number),
        0 < k <= behind(rows, number, p, since).len(),
    ensures
        ({
            let first = behind(rows, number, p, since);
            behind(rows, number, p, number(first[k - 1])) =~= first.skip(k)
        }),
{
    let first = behind(rows, number, p, since);
    let mark = number(first[k - 1]);
    let wanted = |x: T| p(x) && number(x) > since;
    let later = |x: T| p(x) && number(x) > mark;
    lemma_filter_order(rows, number, wanted);
    assert(first == rows.filter(wanted));
    assert(wanted(first[k - 1]));
    lemma_filter_twice(rows, wanted, later);
    let a = first.take(k);
    let b = first.skip(k);
    assert(first =~= a + b);
    Seq::filter_distributes_over_add(a, b, later);
    assert forall|i: int| 0 <= i < a.len() implies !later(#[trigger] a[i]) by {
        assert(a[i] == first[i]);
        if i < k - 1 {
            assert(number(first[i]) < number(first[k - 1]));
        }
    }
    a.lemma_all_neg_filter_empty(later);
    assert(a.filter(later) =~= Seq::<T>::empty());
    let all = |x: T| true;
    assert forall|i: int| 0 <= i < b.len() implies later(#[trigger] b[i]) == all(b[i]) by {
        assert(b[i] == first[k + i]);
        assert(wanted(first[k + i]));
        assert(number(first[k - 1]) < number(first[k + i]));
    }
    lemma_filter_agree(b, later, all);
    lemma_filter_all(b, all);
}

proof fn lemma_filter_all<T>(s: Seq<T>, all: spec_fn(T) -> bool)
    requires
        forall|x: T| #[trigger] all(x),
    ensures
        s.filter(all) =~= s,
    decreases s.len(),
{
    reveal(Seq::filter);
    if s.len() > 0 {
        lemma_filter_all(s.drop_last(), all);
    }
}

/// Behind the last of the rows there is none.
proof fn lemma_none_behind<T>(
    rows: Seq<T>,
    number: spec_fn(T) -> int,
    p: spec_fn(T) -> bool,
    since: int,
)
    requires
        in_order(rows, number),
    ensures
        ({
            let first = behind(rows, number, p, since);
            let mark = if first.len() > 0 {
                number(first.last())
            } else {
                since
            };
            behind(rows, number, p, mark) =~= Seq::<T>::empty()
        }),
{
    let first = behind(rows, number, p, since);
    if first.len() > 0 {
        lemma_rest_behind(rows, number, p, since, first.len() as int);
    }
}

/// A client whose connection broke after any frame of a round, and that comes back with the
/// id of that frame, is sent the rest of the round: the messages and the events that it had
/// not got, none of them twice.
pub proof fn law_resume_after_any_frame(t: Tables, s: SessionData, k: int)
    requires
        well_formed(t),
        0 < k <= round_out(t, s).len(),
        t.message_high <= i64::MAX,
        t.event_high <= i64::MAX,
        i64::MIN <= s.last_msg <= i64::MAX,
        i64::MIN <= s.last_evt <= i64::MAX,
    ensures
        ({
            let marks = since_value(round_out(t, s)[k - 1].id);
            let again = SessionData { last_msg: (marks->0).0, last_evt: (marks->0).1, ..s };
            let messages = new_messages(t, s);
            let events = new_events(t, s);
            &&& marks is Some
            &&& new_messages(t, again) =~= (if k <= messages.len() {
                messages.skip(k)
            } else {
                Seq::empty()
            })
            &&& new_events(t, again) =~= (if k <= messages.len() {
                events
            } else if k <= messages.len() + events.len() {
                events.skip(k - messages.len())
            } else {
                Seq::empty()
            })
        }),
{
    let out = round_out(t, s);
    let messages = new_messages(t, s);
    let events = new_events(t, s);
    let keys = scope(t, s);
    let m_number = |m: MessageData| m.seq;
    let m_here = |m: MessageData| keys.contains(m.room);
    let e_number = |e: ProgressData| e.seq;
    let e_here = |e: ProgressData| keys.contains(e.room);
    lemma_messages_behind(t.messages, keys, s.last_msg);
    lemma_events_behind(t.events, keys, s.last_evt);
    lemma_messages_after(t, keys, s.last_msg);
    lemma_none_behind(t.messages, m_number, m_here, s.last_msg);
    lemma_none_behind(t.events, e_number, e_here, s.last_evt);
    lemma_messages_behind(t.messages, keys, msg_mark(t, s));
    lemma_events_behind(t.events, keys, evt_mark(t, s));
    let noted = events_after(t.events, keys, s.last_evt);
    assert forall|i: int| 0 <= i < noted.len() implies 0 < (#[trigger] noted[i]).seq
        <= t.event_high by {
        let wanted = |e: ProgressData| keys.contains(e.room) && e.seq > s.last_evt;
        lemma_filter_order(t.events, e_number, wanted);
        assert(t.events.contains(noted[i]));
        let j = choose|j: int| 0 <= j < t.events.len() && t.events[j] == noted[i];
        assert(0 < t.events[j].seq <= t.event_high);
    }
    if k <= messages.len() {
        let m = messages[k - 1];
        assert(out[k - 1] == message_out(m, s.last_evt, consumes(s)));
        law_since_roundtrip(m.seq as i64, s.last_evt as i64);
        lemma_rest_behind(t.messages, m_number, m_here, s.last_msg, k);
        lemma_messages_behind(t.messages, keys, m.seq);
    } else if k <= messages.len() + events.len() {
        let e = events[k - messages.len() - 1];
        assert(out[k - 1] == event_out(e, msg_mark(t, s)));
        law_since_roundtrip(msg_mark(t, s) as i64, e.seq as i64);
        lemma_rest_behind(t.events, e_number, e_here, s.last_evt, k - messages.len());
        lemma_events_behind(t.events, keys, e.seq);
    } else {
        assert(out[k - 1].id == since_text(msg_mark(t, s), evt_mark(t, s)));
        law_since_roundtrip(msg_mark(t, s) as i64, evt_mark(t, s) as i64);
    }
}

/// Noting that a frame was delivered keeps the state sound, whatever was added since the
/// frame was made.
pub proof fn law_delivery_keeps_sound(t: Tables, now: Tables, s: SessionData, i: int)
    requires
        well_formed(t),
        sound(now),
        t.message_high <= now.message_high,
        0 <= i < round_out(t, s).len(),
        round_out(t, s)[i].cursor is Some,
    ensures
        sound(with_cursor(now, s.agent, s.room->0, round_out(t, s)[i].cursor->0)),
{
    lemma_messages_after(t, scope(t, s), s.last_msg);
    let messages = new_messages(t, s);
    let out = round_out(t, s);
    if i < messages.len() {
        assert(out[i] == message_out(messages[i], s.last_evt, consumes(s)));
    }
}

/// What `recv` asks for is what the server hears: a stream of the room that resumes where the
/// caller said. Following, it consumes nothing and stays open; otherwise it is one-shot, with
/// the time that the caller gave it.
pub proof fn law_recv_is_understood(a: RecvArgsData, agent: Seq<char>)
    requires
        0 <= a.timeout_secs,
        a.timeout_secs * 1000 <= u64::MAX,
    ensures
        plan_of(recv_request(a, agent), a.since) == Ok::<PlanData, RefusalData>(
            (PlanData {
                monitor: false,
                room: Some(a.room),
                since: match a.since {
                    Some(s) => since_value(s),
                    None => None,
                },
                follow: a.follow,
                once: !a.follow,
                timeout_ms: if a.follow {
                    DEFAULT_TIMEOUT_MS as int
                } else {
                    a.timeout_secs * 1000
                },
            }),
        ),
{
    reveal_strlit("agent");
    reveal_strlit("mode");
    reveal_strlit("room");
    reveal_strlit("follow");
    reveal_strlit("once");
    reveal_strlit("timeout");
    reveal_strlit("since");
    reveal_strlit("recv");
    reveal_strlit("monitor");
    assert("mode"@[0] == 'm' && "once"@[0] == 'o' && "room"@[0] == 'r' && "recv"@[1] == 'e');
    assert("agent"@.len() == 5 && "mode"@.len() == 4 && "room"@.len() == 4 && "follow"@.len() == 6);
    assert("once"@.len() == 4 && "timeout"@.len() == 7 && "since"@.len() == 5);
    assert("since"@[0] == 's' && "agent"@[0] == 'a');
    assert("recv"@.len() == 4 && "monitor"@.len() == 7);
    lemma_decimal_roundtrip(a.timeout_secs);
}

/// Without a point to resume at, a stream of one room delivers just what its agent has not
/// read.
pub proof fn law_recv_delivers_unread(t: Tables, p: PlanData, agent: Seq<char>)
    requires
        !p.monitor,
        p.room is Some,
        p.since is None,
    ensures
        new_messages(t, started(t, p, agent)) == unread(t, agent, p.room->0),
{
}

/// What a consumed stream delivered its agent has read: nothing of the room is left unread.
pub proof fn law_recv_leaves_nothing_unread(t: Tables, s: SessionData)
    requires
        well_formed(t),
        consumes(s),
        s.room is Some,
        new_messages(t, s).len() > 0,
    ensures
        round_out(t, s).last().cursor == Some(msg_mark(t, s)),
        unread(with_cursor(t, s.agent, s.room->0, msg_mark(t, s)), s.agent, s.room->0)
            =~= Seq::<MessageData>::empty(),
{
    let keys = scope(t, s);
    let found = new_messages(t, s);
    lemma_messages_after(t, keys, s.last_msg);
    lemma_messages_after(t, keys, found.last().seq);
    let more = messages_after(t.messages, keys, found.last().seq);
    if more.len() > 0 {
        let m = more[0];
        assert(t.messages.contains(m));
        let k = choose|k: int| 0 <= k < t.messages.len() && t.messages[k] == m;
        assert(found.last().seq > s.last_msg);
        assert(found.contains(t.messages[k]));
        let i = choose|i: int| 0 <= i < found.len() && found[i] == m;
        if i < found.len() - 1 {
            assert(found[i].seq < found[found.len() - 1].seq);
        }
    }
    let out = round_out(t, s);
    assert(out[found.len() - 1] == message_out(found.last(), s.last_evt, true));
    assert(out.len() == found.len());
}

/// A monitor, and a client that follows a room, consume nothing: no frame moves a cursor. A
/// stream of one room carries messages alone.
pub proof fn law_watching_consumes_nothing(t: Tables, s: SessionData)
    ensures
        !consumes(s) ==> forall|i: int|
            0 <= i < round_out(t, s).len() ==> (#[trigger] round_out(t, s)[i]).cursor is None,
        !s.monitor ==> forall|i: int|
            0 <= i < round_out(t, s).len() ==> (#[trigger] round_out(t, s)[i]).event
                == "message"@,
{
}

/// A monitor that names no room sees all messages of all rooms that exist, whoever is a
/// member of them, and no direct messages.
pub proof fn law_monitor_sees_every_room(t: Tables, p: PlanData, agent: Seq<char>)
    requires
        well_formed(t),
        p.monitor,
        p.room is None,
        p.since is None,
    ensures
        ({
            let seen = new_messages(t, started(t, p, agent));
            &&& forall|i: int|
                0 <= i < t.messages.len() && t.rooms.contains_key((#[trigger] t.messages[i]).room)
                    ==> seen.contains(t.messages[i])
            &&& forall|i: int| 0 <= i < seen.len() ==> t.rooms.contains_key((#[trigger] seen[i]).room)
        }),
{
    lemma_messages_after(t, t.rooms.dom(), 0);
}

/// The blocks of frames.
pub open spec fn blocks_of(v: Seq<OutgoingData>) -> Seq<EventData> {
    Seq::new(v.len(), |i: int| block_of(v[i]))
}

/// All bytes of frames, one after the other.
pub open spec fn all_bytes(v: Seq<Outgoing>) -> Seq<u8>
    decreases v.len(),
{
    if v.len() == 0 {
        Seq::empty()
    } else {
        all_bytes(v.drop_last()) + v.last().bytes@
    }
}

proof fn lemma_bytes_are_chunks(v: Seq<Outgoing>, d: Seq<OutgoingData>)
    requires
        carries_all(v, d),
    ensures
        all_bytes(v) == chunked(block_parts(blocks_of(d))),
    decreases v.len(),
{
    if v.len() > 0 {
        let front = v.drop_last();
        assert forall|i: int| 0 <= i < front.len() implies carries(
            #[trigger] front[i],
            d.drop_last()[i],
        ) by {
            assert(carries(v[i], d[i]));
        }
        lemma_bytes_are_chunks(front, d.drop_last());
        assert(carries(v[v.len() - 1], d[v.len() - 1]));
        let parts = block_parts(blocks_of(d));
        assert(parts.drop_last() =~= block_parts(blocks_of(d.drop_last())));
    }
}

/// Whatever pieces the network cuts them into, the frames that the server wrote are the
/// blocks that the client reads, in their order.
pub proof fn law_frames_arrive(v: Seq<Outgoing>, d: Seq<OutgoingData>, pieces: Seq<Seq<u8>>)
    requires
        carries_all(v, d),
        whole(pieces) == all_bytes(v),
        forall|i: int|
            0 <= i < d.len() ==> encode_utf8(block_text(block_of(#[trigger] d[i]))).len()
                <= usize::MAX,
    ensures
        receive(between_chunks(), fresh(), pieces).0 =~= blocks_of(d),
{
    let blocks = blocks_of(d);
    lemma_bytes_are_chunks(v, d);
    assert forall|i: int| 0 <= i < blocks.len() implies sendable(#[trigger] blocks[i]) by {
        assert(carries(v[i], d[i]));
    }
    assert forall|i: int| 0 <= i < blocks.len() implies encode_utf8(
        block_text(#[trigger] blocks[i]),
    ).len() <= usize::MAX by {
        assert(blocks[i] == block_of(d[i]));
    }
    law_stream_roundtrip(blocks, pieces);
}

/// The messages as a client shows them.
pub open spec fn shown_messages(v: Seq<MessageData>) -> Seq<JsonData> {
    Seq::new(v.len(), |i: int| stream_message_json(v[i]))
}

/// The blocks that a round sends on a stream of one room are its messages.
proof fn lemma_round_blocks(t: Tables, s: SessionData)
    requires
        !s.monitor,
        forall|i: int|
            0 <= i < round_out(t, s).len() ==> json_parse(
                json_text((#[trigger] round_out(t, s)[i]).value),
            ) == Some(round_out(t, s)[i].value),
    ensures
        forall|i: int|
            0 <= i < blocks_of(round_out(t, s)).len() ==> is_message(
                #[trigger] blocks_of(round_out(t, s))[i],
            ),
        messages_of(blocks_of(round_out(t, s))) =~= shown_messages(new_messages(t, s)),
{
    let out = round_out(t, s);
    let found = new_messages(t, s);
    assert(out.len() == found.len());
    assert forall|i: int| 0 <= i < out.len() implies #[trigger] out[i] == message_out(
        found[i],
        s.last_evt,
        consumes(s),
    ) by {}
    assert forall|i: int| 0 <= i < out.len() implies message_of(#[trigger] blocks_of(out)[i])
        == stream_message_json(found[i]) by {
        assert(out[i].value == stream_message_json(found[i]));
    }
}

/// A one-shot call shows exactly what the server delivered from the backlog, whatever follows
/// on the stream.
pub proof fn law_client_shows_backlog(t: Tables, s: SessionData, rest: Seq<EventData>)
    requires
        !s.monitor,
        new_messages(t, s).len() > 0,
        forall|i: int|
            0 <= i < round_out(t, s).len() ==> json_parse(
                json_text((#[trigger] round_out(t, s)[i]).value),
            ) == Some(round_out(t, s)[i].value),
    ensures
        run(
            waiting(false),
            blocks_of(round_out(t, s)) + (seq![EventData::Comment("ready"@)] + rest),
        ).1 == ActionData::Finish(shown_messages(new_messages(t, s))),
{
    lemma_round_blocks(t, s);
    law_backlog_is_shown(blocks_of(round_out(t, s)), rest);
}

/// A one-shot call without a backlog shows exactly what the server delivered before it ended
/// the stream.
pub proof fn law_client_shows_delivered(t: Tables, s: SessionData)
    requires
        !s.monitor,
        forall|i: int|
            0 <= i < round_out(t, s).len() ==> json_parse(
                json_text((#[trigger] round_out(t, s)[i]).value),
            ) == Some(round_out(t, s)[i].value),
    ensures
        on_close(
            run(
                waiting(false),
                seq![EventData::Comment("ready"@)] + blocks_of(round_out(t, s)),
            ).0,
        ) == ActionData::Finish(shown_messages(new_messages(t, s))),
{
    lemma_round_blocks(t, s);
    law_live_messages_are_shown(blocks_of(round_out(t, s)));
}

/// What writers do while a stream looks: they change the tables, and then, once for each
/// change, raise the generation and wake what is parked.
pub enum Step {
    Change,
    Wake,
}

/// How often the tables were changed.
pub open spec fn changes(steps: Seq<Step>) -> int
    decreases steps.len(),
{
    if steps.len() == 0 {
        0
    } else {
        changes(steps.drop_last()) + if steps.last() is Change {
            1int
        } else {
            0int
        }
    }
}

/// How often the generation was raised.
pub open spec fn wakes(steps: Seq<Step>) -> int {
    steps.len() - changes(steps)
}

/// A stream that may park sleeps over no change: each one that was made since it read the
/// generation is still to be announced, and that wakes it. `owed` changes were to be announced
/// when it read the generation.
pub proof fn law_no_change_is_slept_over(owed: int, seen: u64, now: u64, steps: Seq<Step>)
    requires
        0 <= owed,
        now == seen + wakes(steps),
        seen == now,
    ensures
        owed + changes(steps) - wakes(steps) == owed + steps.len(),
        steps.contains(Step::Change) ==> owed + changes(steps) - wakes(steps) > 0,
{
}

/// The server ends a one-shot stream itself: as soon as something was delivered, or when its
/// time is up; until then it never waits beyond that time. Any other stream it never ends.
pub proof fn law_one_shot_is_ended(
    s: SessionData,
    wrote: bool,
    live: bool,
    idle_ms: int,
    age_ms: int,
)
    requires
        0 <= idle_ms,
        0 <= age_ms,
        0 <= s.timeout_ms <= u64::MAX,
    ensures
        ({
            let next = next_step(s, wrote, live, idle_ms, age_ms);
            &&& (next is Close) == (s.once && (wrote || (live && age_ms >= s.timeout_ms)))
            &&& next matches Next::Park { keepalive, wait_ms } ==> {
                &&& wait_ms <= KEEPALIVE_MS
                &&& s.once ==> age_ms + wait_ms <= s.timeout_ms
                &&& keepalive == (idle_ms >= KEEPALIVE_MS)
            }
        }),
{
}

} // verus!
