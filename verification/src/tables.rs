//! The coordination state as mathematics: what the tables hold, and what each write does
//! to them.

use crate::text::{
    lemma_text_le_antisym, lemma_text_le_total, lemma_text_le_trans, opt_text, text_lt, texts,
};
use vstd::prelude::*;

verus! {

/// A room, under its name.
pub struct RoomData {
    pub owner: Seq<char>,
    pub kind: Seq<char>,
}

/// A message. `room` is a room's name or the key of a direct-message channel; `ts` is missing
/// in messages that are older than that column.
pub struct MessageData {
    pub seq: int,
    pub room: Seq<char>,
    pub from: Seq<char>,
    pub text: Seq<char>,
    pub ts: Option<int>,
}

/// A progress event.
pub struct ProgressData {
    pub seq: int,
    pub room: Seq<char>,
    pub agent: Seq<char>,
    pub kind: Seq<char>,
    pub task: Option<Seq<char>>,
    pub phase: Option<Seq<char>>,
    pub step_cur: Option<int>,
    pub step_total: Option<int>,
    pub percent: Option<int>,
    pub target: Option<Seq<char>>,
    pub note: Option<Seq<char>>,
    pub ts: int,
}

/// Everything that a mission's database holds. Messages and events stand in the order of
/// their numbers; `message_high` and `event_high` are the highest numbers ever given out,
/// which deleting rows does not lower. `has_ts` says that the table of messages has the column
/// for their times, which older databases lack.
#[verifier::ext_equal]
pub struct Tables {
    pub agents: Map<Seq<char>, Seq<char>>,
    pub rooms: Map<Seq<char>, RoomData>,
    pub members: Set<(Seq<char>, Seq<char>)>,
    pub messages: Seq<MessageData>,
    pub message_high: int,
    pub cursors: Map<(Seq<char>, Seq<char>), int>,
    pub events: Seq<ProgressData>,
    pub event_high: int,
    pub has_ts: bool,
}

/// An empty database.
pub open spec fn no_tables() -> Tables {
    Tables {
        agents: Map::empty(),
        rooms: Map::empty(),
        members: Set::empty(),
        messages: Seq::empty(),
        message_high: 0,
        cursors: Map::empty(),
        events: Seq::empty(),
        event_high: 0,
        has_ts: false,
    }
}

/// No message has a time.
pub open spec fn no_times(t: Tables) -> bool {
    forall|i: int| 0 <= i < t.messages.len() ==> (#[trigger] t.messages[i]).ts is None
}

/// The table of messages has the column for their times, empty in the rows that are there.
pub open spec fn with_ts(t: Tables) -> Tables {
    Tables { has_ts: true, ..t }
}

/// Numbers are positive, ascending, and none is above the highest one given out.
pub open spec fn well_formed(t: Tables) -> bool {
    &&& forall|i: int, j: int|
        0 <= i < j < t.messages.len() ==> (#[trigger] t.messages[i]).seq < (
        #[trigger] t.messages[j]).seq
    &&& forall|i: int|
        0 <= i < t.messages.len() ==> 0 < (#[trigger] t.messages[i]).seq <= t.message_high
    &&& forall|i: int, j: int|
        0 <= i < j < t.events.len() ==> (#[trigger] t.events[i]).seq < (#[trigger] t.events[j]).seq
    &&& forall|i: int|
        0 <= i < t.events.len() ==> 0 < (#[trigger] t.events[i]).seq <= t.event_high
    &&& 0 <= t.message_high
    &&& 0 <= t.event_high
}

/// `agent` is known; a new one is `active`.
pub open spec fn with_agent(t: Tables, agent: Seq<char>) -> Tables {
    if t.agents.contains_key(agent) {
        t
    } else {
        Tables { agents: t.agents.insert(agent, "active"@), ..t }
    }
}

/// `agent` is known, if that could be noted.
pub open spec fn made_known(t: Tables, agent: Seq<char>, noted: bool) -> Tables {
    if noted {
        with_agent(t, agent)
    } else {
        t
    }
}

/// `agent`, if it is known, has the status `status`.
pub open spec fn with_status(t: Tables, agent: Seq<char>, status: Seq<char>) -> Tables {
    if t.agents.contains_key(agent) {
        Tables { agents: t.agents.insert(agent, status), ..t }
    } else {
        t
    }
}

/// A new room.
pub open spec fn with_room(t: Tables, name: Seq<char>, room: RoomData) -> Tables {
    Tables { rooms: t.rooms.insert(name, room), ..t }
}

/// `agent` is a member of `room`.
pub open spec fn with_member(t: Tables, room: Seq<char>, agent: Seq<char>) -> Tables {
    Tables { members: t.members.insert((room, agent)), ..t }
}

/// `agent` is no member of `room`.
pub open spec fn without_member(t: Tables, room: Seq<char>, agent: Seq<char>) -> Tables {
    Tables { members: t.members.remove((room, agent)), ..t }
}

/// The room is gone from the list of rooms.
pub open spec fn without_room(t: Tables, room: Seq<char>) -> Tables {
    Tables { rooms: t.rooms.remove(room), ..t }
}

/// The room has no members.
pub open spec fn without_members_of(t: Tables, room: Seq<char>) -> Tables {
    Tables { members: t.members.filter(|m: (Seq<char>, Seq<char>)| m.0 != room), ..t }
}

/// The room has no messages.
pub open spec fn without_messages_of(t: Tables, room: Seq<char>) -> Tables {
    Tables { messages: t.messages.filter(|m: MessageData| m.room != room), ..t }
}

/// One more message, under the next number.
pub open spec fn with_message(
    t: Tables,
    room: Seq<char>,
    from: Seq<char>,
    text: Seq<char>,
    ts: int,
) -> Tables {
    let seq = t.message_high + 1;
    Tables {
        messages: t.messages.push(MessageData { seq, room, from, text, ts: Some(ts) }),
        message_high: seq,
        ..t
    }
}

/// The read cursor of `agent` in `room` stands at `seq`.
pub open spec fn with_cursor(t: Tables, agent: Seq<char>, room: Seq<char>, seq: int) -> Tables {
    Tables { cursors: t.cursors.insert((agent, room), seq), ..t }
}

/// One more event, under the next number.
pub open spec fn with_event(t: Tables, event: ProgressData) -> Tables {
    let seq = t.event_high + 1;
    Tables { events: t.events.push(ProgressData { seq, ..event }), event_high: seq, ..t }
}

/// The read cursor of `agent` in `room`: the number of the last message read there.
pub open spec fn cursor_of(t: Tables, agent: Seq<char>, room: Seq<char>) -> int {
    if t.cursors.contains_key((agent, room)) {
        t.cursors[(agent, room)]
    } else {
        0
    }
}

/// The messages in the rooms `keys` behind the number `since`.
pub open spec fn messages_after(
    messages: Seq<MessageData>,
    keys: Set<Seq<char>>,
    since: int,
) -> Seq<MessageData> {
    messages.filter(|m: MessageData| keys.contains(m.room) && m.seq > since)
}

/// The events in the rooms `keys` behind the number `since`.
pub open spec fn events_after(
    events: Seq<ProgressData>,
    keys: Set<Seq<char>>,
    since: int,
) -> Seq<ProgressData> {
    events.filter(|e: ProgressData| keys.contains(e.room) && e.seq > since)
}

/// The events behind the number `since`, in any room.
pub open spec fn all_events_after(events: Seq<ProgressData>, since: int) -> Seq<ProgressData> {
    events.filter(|e: ProgressData| e.seq > since)
}

/// The highest number among the events, or zero.
pub open spec fn last_event(events: Seq<ProgressData>) -> int {
    if events.len() == 0 {
        0
    } else {
        events.last().seq
    }
}

/// The rooms that `agent` is a member of.
pub open spec fn rooms_of(t: Tables, agent: Seq<char>) -> Set<Seq<char>> {
    Set::new(|room: Seq<char>| t.members.contains((room, agent)))
}

/// The members of `room`.
pub open spec fn members_of(t: Tables, room: Seq<char>) -> Set<Seq<char>> {
    Set::new(|agent: Seq<char>| t.members.contains((room, agent)))
}

/// The keys of messages that begin with an `@`: those of direct-message channels.
pub open spec fn channels(messages: Seq<MessageData>) -> Set<Seq<char>> {
    Set::new(
        |key: Seq<char>|
            key.len() > 0 && key[0] == '@' && exists|i: int|
                0 <= i < messages.len() && (#[trigger] messages[i]).room == key,
    )
}

/// From the one state to the other, messages and events were only added.
pub open spec fn grown(before: Tables, after: Tables) -> bool {
    &&& before.messages.len() <= after.messages.len()
    &&& after.messages.take(before.messages.len() as int) == before.messages
    &&& forall|i: int|
        before.messages.len() <= i < after.messages.len() ==> (#[trigger] after.messages[i]).seq
            > before.message_high
    &&& before.events.len() <= after.events.len()
    &&& after.events.take(before.events.len() as int) == before.events
    &&& forall|i: int|
        before.events.len() <= i < after.events.len() ==> (#[trigger] after.events[i]).seq
            > before.event_high
}

/// Numbers in ascending order.
pub open spec fn in_order<T>(s: Seq<T>, number: spec_fn(T) -> int) -> bool {
    forall|i: int, j: int|
        0 <= i < j < s.len() ==> number(#[trigger] s[i]) < number(#[trigger] s[j])
}

/// What is left of rows in order is in order, was there before, and is all that was wanted.
pub proof fn lemma_filter_order<T>(
    s: Seq<T>,
    number: spec_fn(T) -> int,
    p: spec_fn(T) -> bool,
)
    requires
        in_order(s, number),
    ensures
        in_order(s.filter(p), number),
        forall|i: int|
            0 <= i < s.filter(p).len() ==> p(#[trigger] s.filter(p)[i]) && s.contains(
                s.filter(p)[i],
            ),
        forall|i: int| 0 <= i < s.len() && p(#[trigger] s[i]) ==> s.filter(p).contains(s[i]),
    decreases s.len(),
{
    reveal(Seq::filter);
    if s.len() > 0 {
        let front = s.drop_last();
        assert forall|i: int, j: int| 0 <= i < j < front.len() implies number(
            #[trigger] front[i],
        ) < number(#[trigger] front[j]) by {
            assert(front[i] == s[i] && front[j] == s[j]);
        }
        lemma_filter_order(front, number, p);
        let f = front.filter(p);
        assert forall|i: int| 0 <= i < f.len() implies s.contains(#[trigger] f[i]) && number(f[i])
            < number(s.last()) by {
            assert(front.contains(f[i]));
            let k = choose|k: int| 0 <= k < front.len() && front[k] == f[i];
            assert(s[k] == f[i]);
            assert(number(s[k]) < number(s[s.len() - 1]));
        }
        assert(s[s.len() - 1] == s.last());
        assert forall|i: int| 0 <= i < s.len() && p(#[trigger] s[i]) implies s.filter(p).contains(
            s[i],
        ) by {
            if i < s.len() - 1 {
                assert(front[i] == s[i]);
                assert(f.contains(s[i]));
                let k = choose|k: int| 0 <= k < f.len() && f[k] == s[i];
                assert(s.filter(p)[k] == s[i]);
            } else {
                assert(s.filter(p) =~= f.push(s.last()));
                assert(s.filter(p)[f.len() as int] == s[i]);
            }
        }
    }
}

/// What is left of ordered messages is ordered, and was there before.
pub proof fn lemma_filter_messages(s: Seq<MessageData>, p: spec_fn(MessageData) -> bool)
    requires
        forall|i: int, j: int|
            0 <= i < j < s.len() ==> (#[trigger] s[i]).seq < (#[trigger] s[j]).seq,
    ensures
        forall|i: int, j: int|
            0 <= i < j < s.filter(p).len() ==> (#[trigger] s.filter(p)[i]).seq < (
            #[trigger] s.filter(p)[j]).seq,
        forall|i: int|
            0 <= i < s.filter(p).len() ==> p(#[trigger] s.filter(p)[i]) && s.contains(
                s.filter(p)[i],
            ),
        forall|i: int| 0 <= i < s.len() && p(#[trigger] s[i]) ==> s.filter(p).contains(s[i]),
{
    let number = |m: MessageData| m.seq;
    lemma_filter_order(s, number, p);
    let f = s.filter(p);
    assert forall|i: int, j: int| 0 <= i < j < f.len() implies (#[trigger] f[i]).seq < (
    #[trigger] f[j]).seq by {
        assert(number(f[i]) < number(f[j]));
    }
}

/// The messages behind a number are in order, and each was there.
pub proof fn lemma_messages_after(t: Tables, keys: Set<Seq<char>>, since: int)
    requires
        well_formed(t),
    ensures
        ({
            let found = messages_after(t.messages, keys, since);
            &&& forall|i: int, j: int|
                0 <= i < j < found.len() ==> (#[trigger] found[i]).seq < (#[trigger] found[j]).seq
            &&& forall|i: int|
                0 <= i < found.len() ==> {
                    &&& keys.contains((#[trigger] found[i]).room)
                    &&& since < found[i].seq
                    &&& 0 < found[i].seq <= t.message_high
                    &&& t.messages.contains(found[i])
                }
            &&& forall|i: int|
                0 <= i < t.messages.len() && keys.contains((#[trigger] t.messages[i]).room)
                    && t.messages[i].seq > since ==> found.contains(t.messages[i])
        }),
{
    let wanted = |m: MessageData| keys.contains(m.room) && m.seq > since;
    lemma_filter_messages(t.messages, wanted);
    let found = messages_after(t.messages, keys, since);
    assert(found == t.messages.filter(wanted));
    assert forall|i: int| 0 <= i < found.len() implies {
        &&& keys.contains((#[trigger] found[i]).room)
        &&& since < found[i].seq
        &&& 0 < found[i].seq <= t.message_high
        &&& t.messages.contains(found[i])
    } by {
        let k = choose|k: int| 0 <= k < t.messages.len() && t.messages[k] == found[i];
        assert(wanted(found[i]));
        assert(t.messages[k].seq <= t.message_high);
    }
}

/// There are no more messages than the highest of their numbers.
pub proof fn lemma_count(s: Seq<MessageData>)
    requires
        forall|i: int, j: int|
            0 <= i < j < s.len() ==> (#[trigger] s[i]).seq < (#[trigger] s[j]).seq,
        forall|i: int| 0 <= i < s.len() ==> 0 < (#[trigger] s[i]).seq,
    ensures
        s.len() > 0 ==> s.last().seq >= s.len(),
    decreases s.len(),
{
    if s.len() > 1 {
        lemma_count(s.drop_last());
        assert(s[s.len() - 2].seq < s[s.len() - 1].seq);
    } else if s.len() == 1 {
        assert(0 < s[0].seq);
    }
}

/// Texts in strictly ascending order.
pub open spec fn ascending(v: Seq<Seq<char>>) -> bool {
    forall|i: int, j: int| 0 <= i < j < v.len() ==> text_lt(#[trigger] v[i], #[trigger] v[j])
}

/// `v` lists the elements of `s`, each once, in ascending order.
pub open spec fn lists(v: Seq<Seq<char>>, s: Set<Seq<char>>) -> bool {
    &&& ascending(v)
    &&& forall|x: Seq<char>| #[trigger] s.contains(x) <==> v.contains(x)
}

/// The elements of `s` in ascending order.
pub open spec fn sorted(s: Set<Seq<char>>) -> Seq<Seq<char>> {
    choose|v: Seq<Seq<char>>| lists(v, s)
}

/// There is only one list of a set's elements in ascending order.
pub proof fn lemma_lists_unique(a: Seq<Seq<char>>, b: Seq<Seq<char>>, s: Set<Seq<char>>)
    requires
        lists(a, s),
        lists(b, s),
    ensures
        a == b,
    decreases a.len(),
{
    if a.len() == 0 {
        if b.len() > 0 {
            assert(b.contains(b[0]));
            assert(s.contains(b[0]));
        }
        assert(a =~= b);
    } else {
        let x = a.last();
        assert(a.contains(x));
        assert(s.contains(x));
        let j = choose|j: int| 0 <= j < b.len() && b[j] == x;
        let y = b.last();
        assert(b.contains(y));
        assert(s.contains(y));
        let i = choose|i: int| 0 <= i < a.len() && a[i] == y;
        if x != y {
            assert(text_lt(a[i], a[a.len() - 1]));
            assert(text_lt(b[j], b[b.len() - 1]));
            lemma_text_le_antisym(x, y);
        }
        let rest = s.remove(x);
        let fa = a.drop_last();
        let fb = b.drop_last();
        assert forall|z: Seq<char>| #[trigger] rest.contains(z) <==> fa.contains(z) by {
            if rest.contains(z) {
                assert(a.contains(z));
                let k = choose|k: int| 0 <= k < a.len() && a[k] == z;
                assert(fa[k] == z);
            }
            if fa.contains(z) {
                let k = choose|k: int| 0 <= k < fa.len() && fa[k] == z;
                assert(a[k] == z);
                assert(a.contains(z));
                assert(text_lt(a[k], a[a.len() - 1]));
            }
        }
        assert forall|z: Seq<char>| #[trigger] rest.contains(z) <==> fb.contains(z) by {
            if rest.contains(z) {
                assert(b.contains(z));
                let k = choose|k: int| 0 <= k < b.len() && b[k] == z;
                assert(fb[k] == z);
            }
            if fb.contains(z) {
                let k = choose|k: int| 0 <= k < fb.len() && fb[k] == z;
                assert(b[k] == z);
                assert(b.contains(z));
                assert(text_lt(b[k], b[b.len() - 1]));
            }
        }
        lemma_lists_unique(fa, fb, rest);
        assert(a =~= fa.push(x));
        assert(b =~= fb.push(x));
    }
}

/// A list of a set's elements in ascending order is the one that `sorted` names.
pub proof fn lemma_sorted(v: Seq<Seq<char>>, s: Set<Seq<char>>)
    requires
        lists(v, s),
    ensures
        v == sorted(s),
{
    lemma_lists_unique(v, sorted(s), s);
}

/// A finite set has a list of its elements in ascending order.
pub proof fn lemma_lists_exist(s: Set<Seq<char>>)
    requires
        s.finite(),
    ensures
        lists(sorted(s), s),
    decreases s.len(),
{
    if s.len() == 0 {
        assert(s =~= Set::<Seq<char>>::empty());
        assert(lists(Seq::<Seq<char>>::empty(), s));
    } else {
        let x = s.choose();
        let rest = s.remove(x);
        lemma_lists_exist(rest);
        let v = sorted(rest);
        assert forall|i: int| 0 <= i < v.len() implies #[trigger] v[i] != x by {
            assert(v.contains(v[i]));
            assert(rest.contains(v[i]));
        }
        let p = place(v, x);
        lemma_place(v, x);
        let w = v.take(p) + seq![x] + v.skip(p);
        assert forall|i: int, j: int| 0 <= i < j < w.len() implies text_lt(
            #[trigger] w[i],
            #[trigger] w[j],
        ) by {
            let a = if i < p {
                i
            } else {
                i - 1
            };
            let c = if j < p {
                j
            } else {
                j - 1
            };
            if i != p && j != p {
                assert(w[i] == v[a] && w[j] == v[c]);
            } else if i == p {
                assert(w[j] == v[c]);
            } else {
                assert(w[i] == v[a]);
            }
        }
        assert forall|y: Seq<char>| #[trigger] s.contains(y) <==> w.contains(y) by {
            if s.contains(y) && y != x {
                assert(rest.contains(y));
                assert(v.contains(y));
                let k = choose|k: int| 0 <= k < v.len() && v[k] == y;
                if k < p {
                    assert(w[k] == y);
                } else {
                    assert(w[k + 1] == y);
                }
            }
            if y == x {
                assert(w[p] == x);
            }
            if w.contains(y) {
                let k = choose|k: int| 0 <= k < w.len() && w[k] == y;
                if k < p {
                    assert(v[k] == y);
                    assert(v.contains(y));
                    assert(rest.contains(y));
                } else if k > p {
                    assert(v[k - 1] == y);
                    assert(v.contains(y));
                    assert(rest.contains(y));
                }
            }
        }
        assert(lists(w, s));
    }
}

/// Where `x` belongs in ascending texts: before the first that comes after it.
spec fn place(v: Seq<Seq<char>>, x: Seq<char>) -> int
    decreases v.len(),
{
    if v.len() == 0 || text_lt(v.last(), x) {
        v.len() as int
    } else {
        place(v.drop_last(), x)
    }
}

proof fn lemma_place(v: Seq<Seq<char>>, x: Seq<char>)
    requires
        ascending(v),
        forall|i: int| 0 <= i < v.len() ==> #[trigger] v[i] != x,
    ensures
        0 <= place(v, x) <= v.len(),
        forall|i: int| 0 <= i < place(v, x) ==> text_lt(#[trigger] v[i], x),
        forall|i: int| place(v, x) <= i < v.len() ==> text_lt(x, #[trigger] v[i]),
    decreases v.len(),
{
    if v.len() > 0 {
        let last = v.last();
        assert(v[v.len() - 1] == last);
        lemma_text_le_total(last, x);
        if text_lt(last, x) {
            assert forall|i: int| 0 <= i < v.len() implies text_lt(#[trigger] v[i], x) by {
                if i < v.len() - 1 {
                    assert(text_lt(v[i], v[v.len() - 1]));
                    lemma_text_le_trans(v[i], last, x);
                }
            }
        } else {
            let front = v.drop_last();
            assert forall|i: int| 0 <= i < front.len() implies #[trigger] front[i] != x by {
                assert(front[i] == v[i]);
            }
            lemma_place(front, x);
            assert forall|i: int| 0 <= i < place(v, x) implies text_lt(#[trigger] v[i], x) by {
                assert(front[i] == v[i]);
            }
            assert forall|i: int| place(v, x) <= i < v.len() implies text_lt(
                x,
                #[trigger] v[i],
            ) by {
                if i < v.len() - 1 {
                    assert(front[i] == v[i]);
                }
            }
        }
    }
}

/// A message as it is read from the database.
#[derive(Debug, PartialEq, Eq)]
pub struct MessageRow {
    pub seq: i64,
    pub room: String,
    pub from: String,
    pub text: String,
    pub ts: Option<i64>,
}

/// An event as it is read from the database.
#[derive(Debug, PartialEq, Eq)]
pub struct EventRow {
    pub seq: i64,
    pub room: String,
    pub agent: String,
    pub kind: String,
    pub task: Option<String>,
    pub phase: Option<String>,
    pub step_cur: Option<i64>,
    pub step_total: Option<i64>,
    pub percent: Option<i64>,
    pub target: Option<String>,
    pub note: Option<String>,
    pub ts: i64,
}

/// An optional number.
pub open spec fn opt_num(n: Option<i64>) -> Option<int> {
    match n {
        Some(n) => Some(n as int),
        None => None,
    }
}

impl View for MessageRow {
    type V = MessageData;

    open spec fn view(&self) -> MessageData {
        MessageData {
            seq: self.seq as int,
            room: self.room@,
            from: self.from@,
            text: self.text@,
            ts: opt_num(self.ts),
        }
    }
}

impl View for EventRow {
    type V = ProgressData;

    open spec fn view(&self) -> ProgressData {
        ProgressData {
            seq: self.seq as int,
            room: self.room@,
            agent: self.agent@,
            kind: self.kind@,
            task: opt_text(self.task),
            phase: opt_text(self.phase),
            step_cur: opt_num(self.step_cur),
            step_total: opt_num(self.step_total),
            percent: opt_num(self.percent),
            target: opt_text(self.target),
            note: opt_text(self.note),
            ts: self.ts as int,
        }
    }
}

/// The messages that rows stand for.
pub open spec fn message_data(v: Seq<MessageRow>) -> Seq<MessageData> {
    Seq::new(v.len(), |i: int| v[i]@)
}

/// The events that rows stand for.
pub open spec fn event_data(v: Seq<EventRow>) -> Seq<ProgressData> {
    Seq::new(v.len(), |i: int| v[i]@)
}

/// The texts of a list, as a set.
pub open spec fn text_set(v: Seq<String>) -> Set<Seq<char>> {
    texts(v).to_set()
}

} // verus!
