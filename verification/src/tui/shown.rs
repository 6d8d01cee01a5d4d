//! What the dashboard puts on the screen, said of what it holds.

use crate::names::lemma_names;
use crate::number::{decimal, digit_char, digits};
use crate::store::AgentEntry;
use crate::tables::lists;
use crate::text::{joined, text_lt};
use crate::tui::view::{
    active_agents, after_frame, after_key, agent_line, agents_shown, badge, bound_key, cut, detail_text, header,
    is_progress, item_line, lower_case, others, present, progress_block, progress_names,
    progress_of, progress_panel, progressed, room_lines, shown_items, step_shown, tag_text,
    task_line, thread_shown, time_text, two_digits, unseen, window, AgentProgress, Color, Key, KeyName,
    ProgressInfo, SpanData, ViewData,
};
use crate::tui::{
    agent_infos, item_infos, CallError, EventInfo, Health, ItemInfo, MsgInfo, RoomInfo, RoomThread,
    Snapshot,
};
use vstd::prelude::*;

verus! {

// ---- progress

/// A kind of event that is about a task.
pub open spec fn about_task(kind: Seq<char>) -> bool {
    kind == "task-start"@ || kind == "task-done"@ || kind == "task-error"@ || kind == "task-abort"@
}

/// One more event of an agent. Its room is the latest. An event about a task sets the state of
/// the task, and its label, but where a task ends without a label the one that it had stays. A
/// step sets all three numbers, a phase the phase, a handoff the addressee, and a block whom the
/// agent waits for. Any other event than a block ends the block; nothing else changes.
pub proof fn law_event_changes_progress(p: ProgressInfo, e: EventInfo)
    ensures
        ({
            let q = progressed(p, e);
            &&& q.last_room == e.room
            &&& e.kind == "task-start"@ ==> q.task_label == e.task && q.task_state == Some("start"@)
            &&& e.kind == "task-done"@ ==> q.task_state == Some("done"@)
            &&& e.kind == "task-error"@ ==> q.task_state == Some("error"@)
            &&& e.kind == "task-abort"@ ==> q.task_state == Some("abort"@)
            &&& about_task(e.kind) && e.task is Some ==> q.task_label == e.task
            &&& about_task(e.kind) && e.kind != "task-start"@ && e.task is None ==> q.task_label
                == p.task_label
            &&& !about_task(e.kind) ==> q.task_label == p.task_label && q.task_state == p.task_state
            &&& e.kind == "step"@ ==> q.step_cur == e.step_cur && q.step_total == e.step_total
                && q.percent == e.percent
            &&& e.kind != "step"@ ==> q.step_cur == p.step_cur && q.step_total == p.step_total
                && q.percent == p.percent
            &&& e.kind == "phase"@ ==> q.phase == e.phase
            &&& e.kind != "phase"@ ==> q.phase == p.phase
            &&& e.kind == "blocked"@ ==> q.blocked == e.target
            &&& e.kind != "blocked"@ ==> q.blocked is None
            &&& e.kind == "handoff"@ ==> q.handoff == e.target
            &&& e.kind != "handoff"@ ==> q.handoff == p.handoff
        }),
{
    lemma_names();
}

/// No event of the agent behind position `i` satisfies `p`.
pub open spec fn last_such(
    events: Seq<EventInfo>,
    agent: Seq<char>,
    p: spec_fn(EventInfo) -> bool,
    i: int,
) -> bool {
    &&& 0 <= i < events.len()
    &&& events[i].agent == agent
    &&& p(events[i])
    &&& forall|j: int| i < j < events.len() && (#[trigger] events[j]).agent == agent ==> !p(events[j])
}

/// What is known of an agent is what it said last: its room and whether it is blocked are those of
/// its last event, its steps those of its last step, its phase that of its last phase, its handoff
/// that of its last handoff, and the state of its task that of its last event about a task. Events
/// of other agents do not matter.
pub proof fn law_progress_is_the_latest(events: Seq<EventInfo>, agent: Seq<char>, i: int)
    requires
        0 <= i < events.len(),
    ensures
        ({
            let p = progress_of(events, agent);
            let e = events[i];
            &&& last_such(events, agent, |e: EventInfo| true, i) ==> {
                &&& p.last_room == e.room
                &&& p.blocked == (if e.kind == "blocked"@ {
                    e.target
                } else {
                    None
                })
            }
            &&& last_such(events, agent, |e: EventInfo| e.kind == "step"@, i) ==> p.step_cur
                == e.step_cur && p.step_total == e.step_total && p.percent == e.percent
            &&& last_such(events, agent, |e: EventInfo| e.kind == "phase"@, i) ==> p.phase
                == e.phase
            &&& last_such(events, agent, |e: EventInfo| e.kind == "handoff"@, i) ==> p.handoff
                == e.target
            &&& last_such(events, agent, |e: EventInfo| about_task(e.kind), i) ==> {
                &&& e.kind == "task-start"@ ==> p.task_state == Some("start"@) && p.task_label
                    == e.task
                &&& e.kind == "task-done"@ ==> p.task_state == Some("done"@)
                &&& e.kind == "task-error"@ ==> p.task_state == Some("error"@)
                &&& e.kind == "task-abort"@ ==> p.task_state == Some("abort"@)
                &&& e.task is Some ==> p.task_label == e.task
            }
        }),
    decreases events.len(),
{
    lemma_names();
    let front = events.drop_last();
    let last = events.last();
    law_event_changes_progress(progress_of(front, agent), last);
    if i < front.len() {
        law_progress_is_the_latest(front, agent, i);
        assert(front[i] == events[i]);
        assert(events[events.len() - 1] == last);
        assert forall|p: spec_fn(EventInfo) -> bool| #[trigger]
            last_such(events, agent, p, i) implies last_such(front, agent, p, i) && (last.agent
            == agent ==> !p(last)) by {
            assert forall|j: int|
                i < j < front.len() && (#[trigger] front[j]).agent == agent implies !p(
                front[j],
            ) by {
                assert(front[j] == events[j]);
            }
        }
    }
}

/// Of an agent that said nothing, nothing is known; and what is known of an agent is not changed
/// by an event of another one.
pub proof fn law_progress_of_others(events: Seq<EventInfo>, e: EventInfo, agent: Seq<char>)
    ensures
        e.agent != agent ==> progress_of(events.push(e), agent) == progress_of(events, agent),
        e.agent == agent ==> progress_of(events.push(e), agent) == progressed(
            progress_of(events, agent),
            e,
        ),
        ({
            let p = progress_of(Seq::empty(), agent);
            &&& p.task_label is None && p.task_state is None && p.phase is None
            &&& p.step_cur is None && p.step_total is None && p.percent is None
            &&& p.blocked is None && p.handoff is None
            &&& p.last_room.len() == 0
        }),
{
    assert(events.push(e).drop_last() =~= events);
}

/// One of the lines is this text alone, in this style.
pub open spec fn has_line(v: Seq<Seq<SpanData>>, text: Seq<char>, color: Color, bold: bool) -> bool {
    exists|i: int|
        0 <= i < v.len() && #[trigger] v[i] == seq![SpanData { text, color, bold }]
}

/// One of the lines is a badge and a label.
pub open spec fn has_badge(v: Seq<Seq<SpanData>>, name: Seq<char>, color: Color, label: Seq<char>) -> bool {
    exists|i: int|
        0 <= i < v.len() && #[trigger] v[i] == seq![
            SpanData { text: seq![' ', ' '], color: Color::Plain, bold: false },
            SpanData { text: seq!['['] + name + seq![']'], color, bold: false },
            SpanData { text: seq![' '] + label, color: Color::Plain, bold: false },
        ]
}

/// A number of something that is there or not.
pub open spec fn one_if(b: bool) -> int {
    if b {
        1
    } else {
        0
    }
}

/// What is shown of an agent: its name and its latest room, then a line for each thing that is
/// known of it, and no other line.
#[verifier::spinoff_prover]
pub proof fn law_block_shows_progress(agent: Seq<char>, p: ProgressInfo)
    ensures
        ({
            let v = progress_block(agent, p);
            let label = match p.task_label {
                Some(label) => label,
                None => Seq::empty(),
            };
            &&& v.len() == 1 + one_if(p.task_state is Some) + one_if(p.phase is Some) + one_if(
                step_shown(p) is Some,
            ) + one_if(p.blocked is Some) + one_if(p.handoff is Some)
            &&& v[0].len() == 2
            &&& v[0][0] == (SpanData { text: agent, color: Color::Plain, bold: true })
            &&& v[0][1] == (SpanData {
                text: "  ("@ + p.last_room + ")"@,
                color: Color::DarkGray,
                bold: false,
            })
            &&& p.task_state == Some("start"@) ==> has_badge(v, "running"@, Color::Yellow, label)
            &&& p.task_state == Some("done"@) ==> has_badge(v, "done"@, Color::Green, label)
            &&& p.task_state == Some("error"@) ==> has_badge(v, "error"@, Color::Red, label)
            &&& p.task_state == Some("abort"@) ==> has_badge(v, "abort"@, Color::DarkGray, label)
            &&& p.task_state matches Some(state) ==> (state != "start"@ && state != "done"@ && state
                != "error"@ && state != "abort"@ ==> has_badge(v, "?"@, Color::White, label))
            &&& p.phase matches Some(x) ==> has_line(v, "  phase: "@ + x, Color::Plain, false)
            &&& step_shown(p) matches Some(x) ==> has_line(v, "  "@ + x, Color::Plain, false)
            &&& p.blocked matches Some(x) ==> has_line(v, "  BLOCKED on "@ + x, Color::Red, true)
            &&& p.handoff matches Some(x) ==> has_line(v, "  -> "@ + x, Color::Magenta, false)
        }),
{
    lemma_names();
    reveal_strlit("  ");
    reveal_strlit(" ");
    reveal_strlit("[");
    reveal_strlit("]");
    assert("  "@ =~= seq![' ', ' '] && " "@ =~= seq![' '] && "["@ =~= seq!['['] && "]"@ =~= seq![
        ']',
    ]);
    let v = progress_block(agent, p);
    let a = 1int;
    let b = a + one_if(p.task_state is Some);
    let c = b + one_if(p.phase is Some);
    let d = c + one_if(step_shown(p) is Some);
    let e = d + one_if(p.blocked is Some);
    if p.task_state is Some {
        let label = match p.task_label {
            Some(label) => label,
            None => Seq::empty(),
        };
        let (name, color) = badge(p.task_state->0);
        assert(v[a] == task_line(p)[0]);
        assert(v[a] =~= seq![
            SpanData { text: seq![' ', ' '], color: Color::Plain, bold: false },
            SpanData { text: seq!['['] + name + seq![']'], color, bold: false },
            SpanData { text: seq![' '] + label, color: Color::Plain, bold: false },
        ]);
        assert(has_badge(v, name, color, label));
    }
    if p.phase is Some {
        assert(v[b] == seq![
            SpanData { text: "  phase: "@ + p.phase->0, color: Color::Plain, bold: false },
        ]);
    }
    if step_shown(p) is Some {
        assert(v[c] == seq![
            SpanData { text: "  "@ + step_shown(p)->0, color: Color::Plain, bold: false },
        ]);
    }
    if p.blocked is Some {
        assert(v[d] == seq![
            SpanData { text: "  BLOCKED on "@ + p.blocked->0, color: Color::Red, bold: true },
        ]);
    }
    if p.handoff is Some {
        assert(v[e] == seq![
            SpanData { text: "  -> "@ + p.handoff->0, color: Color::Magenta, bold: false },
        ]);
    }
}

/// How far an agent is shows as the step of how many, the percentage, or both, in that order.
pub proof fn law_steps_are_shown(p: ProgressInfo)
    ensures
        ({
            let counted = p.step_cur is Some && p.step_total is Some;
            let neither = p.step_cur is None && p.step_total is None;
            let count = decimal(p.step_cur->0) + "/"@ + decimal(p.step_total->0);
            &&& counted && p.percent is None ==> step_shown(p) == Some(count)
            &&& counted && p.percent is Some ==> step_shown(p) == Some(
                count + "  "@ + decimal(p.percent->0) + "%"@,
            )
            &&& neither && p.percent is Some ==> step_shown(p) == Some(
                decimal(p.percent->0) + "%"@,
            )
            &&& !counted && (p.percent is None || !neither) ==> step_shown(p) is None
        }),
{
}

/// The panel shows the blocks of all agents in their order, one behind the other.
pub proof fn law_panel_shows_all(v: Seq<(String, AgentProgress)>, i: int)
    requires
        0 <= i < v.len(),
    ensures
        ({
            let from = progress_panel(v.take(i)).len() as int;
            let block = progress_block(v[i].0@, v[i].1@);
            &&& from + block.len() <= progress_panel(v).len()
            &&& progress_panel(v).subrange(from, from + block.len()) == block
            &&& i == v.len() - 1 ==> from + block.len() == progress_panel(v).len()
            &&& progress_panel(v.take(0)).len() == 0
        }),
    decreases v.len(),
{
    let from = progress_panel(v.take(i)).len() as int;
    let block = progress_block(v[i].0@, v[i].1@);
    let front = v.drop_last();
    if i == v.len() - 1 {
        assert(v.take(i) =~= front);
        assert(progress_panel(v).subrange(from, from + block.len()) =~= block);
    } else {
        law_panel_shows_all(front, i);
        assert(front.take(i) =~= v.take(i));
        assert(progress_panel(v).subrange(from, from + block.len()) =~= progress_panel(
            front,
        ).subrange(from, from + block.len()));
    }
}

/// One of the events is of an agent.
pub open spec fn speaks(events: Seq<EventInfo>, agent: Seq<char>) -> bool {
    exists|k: int| 0 <= k < events.len() && (#[trigger] events[k]).agent == agent
}

/// The panel is about exactly the agents that events are of, but for the observer, each once, in
/// the order of their names, and shows of each what the events say of it.
pub proof fn law_panel_is_complete(
    v: Seq<(String, AgentProgress)>,
    events: Seq<EventInfo>,
    observer: Seq<char>,
)
    requires
        is_progress(v, events, observer),
    ensures
        forall|i: int| 0 <= i < v.len() ==> (#[trigger] v[i]).0@ != observer && v[i].1@
            == progress_of(events, v[i].0@),
        forall|i: int| 0 <= i < v.len() ==> speaks(events, (#[trigger] v[i]).0@),
        forall|k: int|
            0 <= k < events.len() && (#[trigger] events[k]).agent != observer ==> exists|i: int|
                0 <= i < v.len() && (#[trigger] v[i]).0@ == events[k].agent,
        forall|i: int, j: int|
            0 <= i < j < v.len() ==> text_lt((#[trigger] v[i]).0@, (#[trigger] v[j]).0@),
{
    let names = progress_names(v);
    let agents = active_agents(events, observer);
    assert(lists(names, agents));
    assert forall|i: int| 0 <= i < v.len() implies agents.contains((#[trigger] v[i]).0@) by {
        assert(names[i] == v[i].0@);
        assert(names.contains(names[i]));
    }
    assert forall|i: int| 0 <= i < v.len() implies speaks(events, (#[trigger] v[i]).0@) by {
        assert(agents.contains(v[i].0@));
    }
    assert forall|k: int|
        0 <= k < events.len() && (#[trigger] events[k]).agent != observer implies exists|i: int|
        0 <= i < v.len() && (#[trigger] v[i]).0@ == events[k].agent by {
        let a = events[k].agent;
        assert(agents.contains(a));
        assert(names.contains(a));
        let i = choose|i: int| 0 <= i < names.len() && names[i] == a;
        assert(v[i].0@ == a);
    }
    assert forall|i: int, j: int| 0 <= i < j < v.len() implies text_lt(
        (#[trigger] v[i]).0@,
        (#[trigger] v[j]).0@,
    ) by {
        assert(text_lt(names[i], names[j]));
    }
}

// ---- lines

/// The value of two decimal digits.
pub open spec fn pair_value(a: char, b: char) -> int {
    10 * (a as int - '0' as int) + (b as int - '0' as int)
}

proof fn lemma_two_digits(n: int)
    requires
        0 <= n < 100,
    ensures
        two_digits(n).len() == 2,
        pair_value(two_digits(n)[0], two_digits(n)[1]) == n,
        '0' <= two_digits(n)[0] <= '9',
        '0' <= two_digits(n)[1] <= '9',
{
    reveal_strlit("0");
    reveal_with_fuel(digits, 3);
    assert("0"@ =~= seq!['0']);
    assert(digit_char(0) == '0');
    if n < 10 {
        assert(two_digits(n) =~= seq!['0', digit_char(n)]);
    } else {
        assert(two_digits(n) =~= seq![digit_char(n / 10), digit_char(n % 10)]);
    }
}

/// A time is shown as the hours, minutes and seconds that make up the second of the day, each
/// with two digits; no time, and one before the epoch, as a placeholder of the same width.
pub proof fn law_time_is_shown(ms: int)
    ensures
        time_text(None) == "--:--:--"@,
        ms <= 0 ==> time_text(Some(ms)) == "--:--:--"@,
        ms > 0 ==> {
            let s = time_text(Some(ms));
            let hour = pair_value(s[0], s[1]);
            let minute = pair_value(s[3], s[4]);
            let second = pair_value(s[6], s[7]);
            &&& s.len() == 8
            &&& s[2] == ':' && s[5] == ':'
            &&& 0 <= hour < 24 && 0 <= minute < 60 && 0 <= second < 60
            &&& hour * 3600 + minute * 60 + second == (ms / 1000) % 86_400
        },
{
    if ms > 0 {
        reveal_strlit(":");
        let day = (ms / 1000) % 86_400;
        assert(0 <= day < 86_400);
        lemma_two_digits(day / 3600);
        lemma_two_digits((day % 3600) / 60);
        lemma_two_digits(day % 60);
        assert((day % 3600) % 60 == day % 60) by (nonlinear_arith)
            requires
                0 <= day,
        ;
    }
}

/// A text that is too long for a width of four or more is cut to that width: what is left begins
/// it, and ends in three dots. A text that fits is not changed.
pub proof fn law_cut(s: Seq<char>, width: int)
    ensures
        ({
            let room = if width < 4 {
                4
            } else {
                width
            };
            let c = cut(s, width);
            &&& s.len() <= room ==> c == s
            &&& s.len() > room ==> {
                &&& c.len() == room
                &&& c.take(room - 3) == s.take(room - 3)
                &&& c[room - 3] == '.' && c[room - 2] == '.' && c[room - 1] == '.'
            }
        }),
{
    reveal_strlit("...");
    let room = if width < 4 {
        4
    } else {
        width
    };
    if s.len() > room {
        assert(cut(s, width).take(room - 3) =~= s.take(room - 3));
    }
}

/// The window of a thread ends as many entries before its end as it is scrolled back, and shows
/// as many of those before as there is room for, in their order.
pub proof fn law_window(items: Seq<ItemInfo>, back: int, height: int)
    requires
        0 <= back,
    ensures
        ({
            let w = window(items, back, height);
            let end = items.len() - back;
            &&& back >= items.len() ==> w.len() == 0
            &&& back < items.len() ==> {
                &&& w.len() > 0
                &&& w.len() <= end
                &&& w.len() == end || w.len() == height || (w.len() == 1 && height < 1)
                &&& w.len() <= height || w.len() == 1
                &&& forall|i: int|
                    0 <= i < w.len() ==> #[trigger] w[i] == items[end - w.len() + i]
            }
        }),
{
}

/// The thread that is shown is that of the room that is looked into, or nothing.
pub proof fn law_only_the_thread_of_the_room(thread: Option<RoomThread>, room: Seq<char>)
    ensures
        thread matches Some(t) && t.room@ == room ==> shown_items(thread, room) == item_infos(
            thread->0.items@,
        ),
        thread is None || thread->0.room@ != room ==> shown_items(thread, room).len() == 0,
{
}

/// A room is shown with its name, its type, its owner, how many members it has and how many
/// messages were seen in it, and below that with the sender and the text of its latest message,
/// cut to the width. A room with something unread is marked, in yellow and bold.
pub proof fn law_room_is_shown(r: RoomInfo, width: int, unread: bool)
    ensures
        ({
            let v = room_lines(r, width, unread);
            let tail = r.name + " ["@ + r.rtype + "] owner="@ + r.owner + " members="@ + decimal(
                r.members.len() as int,
            ) + " seen="@ + decimal(r.total_seen);
            &&& v.len() == 2 && v[0].len() == 1 && v[1].len() == 1
            &&& v[0][0].text.len() == tail.len() + 2
            &&& v[0][0].text.skip(2) == tail
            &&& v[0][0].text[0] == (if unread {
                '*'
            } else {
                ' '
            })
            &&& v[0][0].text[1] == ' '
            &&& v[0][0].color == (if unread {
                Color::Yellow
            } else {
                Color::Plain
            })
            &&& v[0][0].bold == unread
            &&& v[1][0].color == Color::DarkGray
            &&& r.last is None ==> v[1][0].text == "    (no messages yet)"@
            &&& r.last matches Some(m) ==> v[1][0].text == cut(
                "    "@ + m.from + ": "@ + m.text,
                width,
            )
        }),
{
    reveal_strlit("* ");
    reveal_strlit("  ");
    let v = room_lines(r, width, unread);
    let tail = r.name + " ["@ + r.rtype + "] owner="@ + r.owner + " members="@ + decimal(
        r.members.len() as int,
    ) + " seen="@ + decimal(r.total_seen);
    let mark = if unread {
        "* "@
    } else {
        "  "@
    };
    assert(v[0][0].text =~= mark + tail);
    assert(v[0][0].text.skip(2) =~= tail);
}

/// An agent is shown with its name and its status, in the colour of the status.
pub proof fn law_agent_is_shown(a: AgentEntry)
    ensures
        ({
            let v = agent_line(a);
            let status = lower_case(a.status);
            &&& v.len() == 1
            &&& v[0].text == a.id + "  ["@ + a.status + "]"@
            &&& status == "active"@ ==> v[0].color == Color::Green
            &&& status == "idle"@ ==> v[0].color == Color::Yellow
            &&& status == "busy"@ ==> v[0].color == Color::Cyan
            &&& status == "done"@ ==> v[0].color == Color::DarkGray
            &&& status != "active"@ && status != "idle"@ && status != "busy"@ && status != "done"@
                ==> v[0].color == Color::White
        }),
{
    lemma_names();
}

/// The agents that are shown are all but the observer, in their order.
pub proof fn law_observer_is_left_out(agents: Seq<AgentEntry>, a: AgentEntry, observer: Seq<char>)
    ensures
        a.id == observer ==> others(agents.push(a), observer) =~= others(agents, observer),
        a.id != observer ==> others(agents.push(a), observer) =~= others(agents, observer).push(a),
        others(Seq::empty(), observer).len() == 0,
{
    reveal(Seq::filter);
    assert(agents.push(a).drop_last() =~= agents);
}

/// The header says who observes, whether the server can be reached, when the last update was, and
/// how many updates, rooms, and agents besides the observer there are.
pub proof fn law_header(agent: Seq<char>, snap: Snapshot, updated: Seq<char>)
    ensures
        ({
            let v = header(agent, snap, updated);
            let count = others(agent_infos(snap.agents@), snap.observer@).len() as int;
            &&& v.len() == 2 && v[0].len() == 5 && v[1].len() == 1
            &&& v[0][0].text == "comms tui"@
            &&& v[0][1].text == "  observer: "@
            &&& v[0][2].text == agent
            &&& v[0][3].text == "  "@
            &&& v[0][0].bold && v[0][4].bold && v[0][2].color == Color::Cyan
            &&& snap.health is Connecting ==> v[0][4].text == "CONNECTING"@ && v[0][4].color
                == Color::Yellow
            &&& snap.health is Connected ==> v[0][4].text == "CONNECTED"@ && v[0][4].color
                == Color::Green
            &&& snap.health matches Health::Disconnected(reason) ==> v[0][4].text
                == "DISCONNECTED ("@ + reason@ + ")"@ && v[0][4].color == Color::Red
            &&& v[1][0].text == "last update: "@ + updated + "   polls: "@ + decimal(
                snap.polls as int,
            ) + "   rooms: "@ + decimal(snap.rooms@.len() as int) + "   agents: "@ + decimal(count)
        }),
{
}

/// What an event's line says in brackets: for a step how far it is, for a block and a handoff
/// whom it is about, otherwise the kind.
pub proof fn law_event_tag(e: EventInfo)
    ensures
        ({
            let target = match e.target {
                Some(target) => target,
                None => "?"@,
            };
            let counted = e.step_cur is Some && e.step_total is Some;
            let count = decimal(e.step_cur->0) + "/"@ + decimal(e.step_total->0);
            &&& e.kind == "blocked"@ ==> tag_text(e) == "blocked->"@ + target
            &&& e.kind == "handoff"@ ==> tag_text(e) == "handoff->"@ + target
            &&& e.kind != "step"@ && e.kind != "blocked"@ && e.kind != "handoff"@ ==> tag_text(e)
                == e.kind
            &&& e.kind == "step"@ ==> {
                &&& counted && e.percent is Some ==> tag_text(e) =~= "step "@ + count + " "@
                    + decimal(e.percent->0) + "%"@
                &&& counted && e.percent is None ==> tag_text(e) =~= "step "@ + count
                &&& !counted && e.percent is Some ==> tag_text(e) == "step "@ + decimal(
                    e.percent->0,
                ) + "%"@
                &&& !counted && e.percent is None ==> tag_text(e) == "step"@
            }
        }),
{
    lemma_names();
}

/// Behind the brackets stand the task, the phase and the note, in this order, as far as they are
/// there, with dashes between them.
pub proof fn law_event_detail(e: EventInfo)
    ensures
        ({
            let d = detail_text(e);
            let dash = " - "@;
            &&& e.task is None && e.phase is None && e.note is None ==> d.len() == 0
            &&& e.task is Some && e.phase is None && e.note is None ==> d == e.task->0
            &&& e.task is None && e.phase is Some && e.note is None ==> d == e.phase->0
            &&& e.task is None && e.phase is None && e.note is Some ==> d == e.note->0
            &&& e.task is Some && e.phase is Some && e.note is None ==> d == e.task->0 + dash
                + e.phase->0
            &&& e.task is Some && e.phase is None && e.note is Some ==> d == e.task->0 + dash
                + e.note->0
            &&& e.task is None && e.phase is Some && e.note is Some ==> d == e.phase->0 + dash
                + e.note->0
            &&& e.task is Some && e.phase is Some && e.note is Some ==> d == e.task->0 + dash
                + e.phase->0 + dash + e.note->0
        }),
{
    let v = seq![e.task, e.phase, e.note];
    let v2 = v.drop_last();
    let v1 = v2.drop_last();
    let v0 = v1.drop_last();
    assert(v2 =~= seq![e.task, e.phase]);
    assert(v1 =~= seq![e.task]);
    assert(v0 =~= Seq::<Option<Seq<char>>>::empty());
    reveal_with_fuel(present, 4);
    let parts = present(v);
    assert(present(v0) =~= Seq::<Seq<char>>::empty());
    lemma_joined_few(parts, " - "@);
}

/// What a few parts are put together.
proof fn lemma_joined_few(parts: Seq<Seq<char>>, sep: Seq<char>)
    requires
        parts.len() <= 3,
    ensures
        parts.len() == 0 ==> joined(parts, sep) =~= Seq::<char>::empty(),
        parts.len() == 1 ==> joined(parts, sep) =~= parts[0],
        parts.len() == 2 ==> joined(parts, sep) =~= parts[0] + sep + parts[1],
        parts.len() == 3 ==> joined(parts, sep) =~= parts[0] + sep + parts[1] + sep + parts[2],
{
    reveal_with_fuel(joined, 4);
}

/// A message is shown with its time, its sender and its text.
pub proof fn law_message_is_shown(m: MsgInfo)
    ensures
        ({
            let v = item_line(ItemInfo::Msg(m));
            &&& v.len() == 3
            &&& v[0].text == time_text(m.ts) + "  "@
            &&& v[1].text == m.from + ": "@ && v[1].bold
            &&& v[2].text == m.text
            &&& v[0].color == Color::DarkGray && v[1].color == Color::Plain && v[2].color
                == Color::Plain
        }),
{
}

/// An event is shown with its time, in brackets what it says, in the colour of its kind, and then
/// its agent and the details.
pub proof fn law_event_is_shown(e: EventInfo)
    ensures
        ({
            let v = item_line(ItemInfo::Evt(e));
            let detail = detail_text(e);
            &&& v.len() == 3
            &&& v[0].text == time_text(Some(e.ts)) + "  "@
            &&& v[1].text == "["@ + tag_text(e) + "] "@ && v[1].bold
            &&& detail.len() == 0 ==> v[2].text == e.agent
            &&& detail.len() > 0 ==> v[2].text == e.agent + ": "@ + detail
            &&& e.kind == "task-start"@ ==> v[1].color == Color::Yellow
            &&& e.kind == "task-done"@ ==> v[1].color == Color::Green
            &&& e.kind == "task-error"@ ==> v[1].color == Color::Red
            &&& e.kind == "task-abort"@ ==> v[1].color == Color::DarkGray
            &&& e.kind == "step"@ ==> v[1].color == Color::Cyan
            &&& e.kind == "phase"@ ==> v[1].color == Color::Blue
            &&& e.kind == "blocked"@ ==> v[1].color == Color::Red
            &&& e.kind == "handoff"@ ==> v[1].color == Color::Magenta
            &&& !about_task(e.kind) && e.kind != "step"@ && e.kind != "phase"@ && e.kind
                != "blocked"@ && e.kind != "handoff"@ ==> v[1].color == Color::White
            &&& v[0].color == Color::DarkGray && v[2].color == Color::Plain
        }),
{
    lemma_names();
}

// ---- keys

/// What the keys are bound to.
pub proof fn law_keys_are_bound(c: char, ctrl: bool)
    ensures
        bound_key(KeyName::Char('q'), ctrl) == Key::Quit,
        bound_key(KeyName::Char('c'), true) == Key::Quit,
        bound_key(KeyName::Char('c'), false) == Key::Other,
        bound_key(KeyName::Esc, ctrl) == Key::Escape,
        bound_key(KeyName::Enter, ctrl) == Key::Enter,
        bound_key(KeyName::Char('j'), ctrl) == Key::Down,
        bound_key(KeyName::Down, ctrl) == Key::Down,
        bound_key(KeyName::Char('k'), ctrl) == Key::Up,
        bound_key(KeyName::Up, ctrl) == Key::Up,
        bound_key(KeyName::Other, ctrl) == Key::Other,
        c != 'q' && c != 'c' && c != 'j' && c != 'k' ==> bound_key(KeyName::Char(c), ctrl)
            == Key::Other,
{
}

/// Only the key that quits, and the one that goes back where no room is looked into, end the
/// dashboard. Looking into a room shows its end, and going back keeps the selection. A key never
/// touches what counts as read.
pub proof fn law_keys_look_and_go_back(v: ViewData, key: Key, snap: Snapshot)
    requires
        0 <= v.selected < snap.rooms@.len(),
    ensures
        after_key(v, key, snap).1 == (key == Key::Quit || (key == Key::Escape && v.focused is None)),
        after_key(v, key, snap).0.baseline == v.baseline,
        after_key(v, key, snap).0.thread_len == v.thread_len,
        key == Key::Quit || key == Key::Other ==> after_key(v, key, snap).0 == v,
        v.focused is None ==> {
            let into = after_key(v, Key::Enter, snap).0;
            let back = after_key(into, Key::Escape, snap);
            &&& into.focused == Some(snap.rooms@[v.selected].name@)
            &&& into.thread_backscroll == 0
            &&& into.selected == v.selected
            &&& !back.1
            &&& back.0.focused is None
            &&& back.0.thread_backscroll == 0
            &&& back.0.selected == v.selected
        },
        v.focused is Some ==> after_key(v, Key::Enter, snap).0 == v && after_key(
            v,
            Key::Down,
            snap,
        ).0.selected == v.selected && after_key(v, Key::Up, snap).0.selected == v.selected,
        v.focused is None ==> after_key(v, Key::Down, snap).0.thread_backscroll
            == v.thread_backscroll && after_key(v, Key::Up, snap).0.thread_backscroll
            == v.thread_backscroll,
{
}

/// Where no room is selected there is none to look into.
pub proof fn law_nothing_to_look_into(v: ViewData, snap: Snapshot)
    requires
        v.selected >= snap.rooms@.len(),
    ensures
        after_key(v, Key::Enter, snap) == (v, false),
{
}

/// While no room is looked into, the key that goes down selects the next room, and behind the last
/// one the first.
pub proof fn law_down_selects_next(v: ViewData, snap: Snapshot)
    requires
        v.focused is None,
        0 <= v.selected < snap.rooms@.len(),
    ensures
        ({
            let after = after_key(v, Key::Down, snap).0.selected;
            if v.selected + 1 < snap.rooms@.len() {
                after == v.selected + 1
            } else {
                after == 0
            }
        }),
{
    let n = snap.rooms@.len();
    vstd::arithmetic::div_mod::lemma_mod_self_0(n as int);
    if v.selected + 1 < n {
        vstd::arithmetic::div_mod::lemma_small_mod((v.selected + 1) as nat, n);
    }
}

/// In a thread, the key that goes up scrolls back by one entry, as long as one is left to show;
/// the one that goes down scrolls forward by one, down to the end.
pub proof fn law_keys_scroll(v: ViewData, snap: Snapshot)
    requires
        v.focused is Some,
        0 <= v.thread_backscroll,
        0 <= v.thread_len,
    ensures
        ({
            let up = after_key(v, Key::Up, snap).0.thread_backscroll;
            let down = after_key(v, Key::Down, snap).0.thread_backscroll;
            &&& v.thread_backscroll + 1 < v.thread_len ==> up == v.thread_backscroll + 1
            &&& v.thread_backscroll + 1 >= v.thread_len && v.thread_len > 0 ==> up == v.thread_len
                - 1
            &&& v.thread_len == 0 ==> up == 0
            &&& v.thread_backscroll > 0 ==> down == v.thread_backscroll - 1
            &&& v.thread_backscroll == 0 ==> down == 0
        }),
{
}

/// A frame keeps the selection, or moves it to the last room where the list has become shorter.
/// The selected room counts as read up to what was seen in it, and no other room does. How far a
/// thread is scrolled, and which room is looked into, stays.
pub proof fn law_frame_reads_selected_room(v: ViewData, snap: Snapshot, room: Seq<char>)
    requires
        0 <= v.selected,
    ensures
        ({
            let after = after_frame(v, snap);
            let rooms = snap.rooms@;
            &&& after.focused == v.focused
            &&& after.thread_backscroll == v.thread_backscroll
            &&& snap.thread matches Some(t) ==> after.thread_len == t.items@.len()
            &&& snap.thread is None ==> after.thread_len == 0
            &&& v.selected < rooms.len() ==> after.selected == v.selected
            &&& v.selected >= rooms.len() && rooms.len() > 0 ==> after.selected == rooms.len() - 1
            &&& rooms.len() == 0 ==> after.selected == 0 && after.baseline == v.baseline
            &&& rooms.len() > 0 ==> {
                let name = rooms[after.selected].name@;
                &&& after.baseline.contains_key(name)
                &&& after.baseline[name] == rooms[after.selected].total_seen
                &&& room != name ==> after.baseline.contains_key(room)
                    == v.baseline.contains_key(room) && (v.baseline.contains_key(room)
                    ==> after.baseline[room] == v.baseline[room])
            }
        }),
{
}

/// A room is marked as unread once more messages were seen in it than when it was last looked at,
/// and one that was never looked at once any was seen.
pub proof fn law_unread_rooms(v: ViewData, room: RoomInfo)
    ensures
        v.baseline.contains_key(room.name) ==> (unseen(v, room) <==> room.total_seen
            > v.baseline[room.name]),
        !v.baseline.contains_key(room.name) ==> (unseen(v, room) <==> room.total_seen > 0),
{
}

/// An error of a call is shown as the reason that the network gave, or as the status code and the
/// reason that the server gave.
pub proof fn law_call_errors(e: CallError)
    ensures
        e matches CallError::Transport(why) ==> e.shown() == why@,
        e matches CallError::Status { code, detail } ==> e.shown() == decimal(code as int) + seq![
            ' ',
        ] + detail@,
{
    reveal_strlit(" ");
    assert(" "@ =~= seq![' ']);
}

/// The list of agents has a line for each agent but the observer, in their order.
pub proof fn law_agents_are_shown(agents: Seq<AgentEntry>, a: AgentEntry, observer: Seq<char>)
    ensures
        a.id == observer ==> agents_shown(agents.push(a), observer) =~= agents_shown(
            agents,
            observer,
        ),
        a.id != observer ==> agents_shown(agents.push(a), observer) =~= agents_shown(
            agents,
            observer,
        ).push(agent_line(a)),
        agents_shown(Seq::empty(), observer).len() == 0,
{
    law_observer_is_left_out(agents, a, observer);
}

/// A thread is shown line by line: the last line is the entry that it is scrolled back to, and the
/// lines above are the entries before it, as many as there is room for.
pub proof fn law_thread_is_shown(items: Seq<ItemInfo>, back: int, height: int)
    requires
        0 <= back,
    ensures
        items.len() == 0 ==> thread_shown(items, back, height) is None,
        items.len() > 0 ==> (thread_shown(items, back, height) matches Some(v) && {
            let end = items.len() - back;
            &&& back >= items.len() ==> v.len() == 0
            &&& back < items.len() ==> {
                &&& 0 < v.len() <= end
                &&& v.len() == end || v.len() == height || (v.len() == 1 && height < 1)
                &&& v.len() <= height || v.len() == 1
                &&& forall|i: int|
                    0 <= i < v.len() ==> #[trigger] v[i] == item_line(items[end - v.len() + i])
            }
        }),
{
    law_window(items, back, height);
}

} // verus!
