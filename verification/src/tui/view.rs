//! What the dashboard shows, and what the keys do.

use crate::number::{decimal, decimal_i64, decimal_u64};
use crate::store::AgentEntry;
use crate::tables::{lists, opt_num};
use crate::text::{
    chars_of, concat2, concat3, copy, copy_opt, join, joined, le, lemma_text_le_antisym,
    lemma_text_le_total, lemma_text_le_trans, opt_text, same, text_le, text_lt, text_range, texts,
};
use crate::tui::{
    agent_infos, event_infos, item_infos, room_infos, AgentView, EventInfo, EventView, Health,
    ItemInfo, RoomInfo, RoomThread, RoomView, Snapshot, ThreadItem,
};
use vstd::hash_map::StringHashMap;
use vstd::prelude::*;

verus! {

// ---- styled text

/// The colour of a piece of text.
#[derive(Debug, Clone, Copy, PartialEq, Eq, Structural)]
pub enum Color {
    Plain,
    Yellow,
    Green,
    Red,
    DarkGray,
    Cyan,
    Blue,
    Magenta,
    White,
}

/// A piece of text in one style.
#[derive(Debug, PartialEq, Eq)]
pub struct Span {
    pub text: String,
    pub color: Color,
    pub bold: bool,
}

/// A line of text.
#[derive(Debug, PartialEq, Eq)]
pub struct Line {
    pub spans: Vec<Span>,
}

/// A piece of text in one style, as data.
pub struct SpanData {
    pub text: Seq<char>,
    pub color: Color,
    pub bold: bool,
}

impl View for Span {
    type V = SpanData;

    open spec fn view(&self) -> SpanData {
        SpanData { text: self.text@, color: self.color, bold: self.bold }
    }
}

impl View for Line {
    type V = Seq<SpanData>;

    open spec fn view(&self) -> Seq<SpanData> {
        Seq::new(self.spans@.len(), |i: int| self.spans@[i]@)
    }
}

/// Lines as data.
pub open spec fn line_data(v: Seq<Line>) -> Seq<Seq<SpanData>> {
    Seq::new(v.len(), |i: int| v[i]@)
}

/// A piece of text in a style.
pub open spec fn styled(text: Seq<char>, color: Color, bold: bool) -> SpanData {
    SpanData { text, color, bold }
}

/// A piece of text in no particular style.
pub open spec fn raw(text: Seq<char>) -> SpanData {
    SpanData { text, color: Color::Plain, bold: false }
}

impl Line {
    /// A line of one piece.
    fn of(text: String, color: Color, bold: bool) -> (r: Line)
        ensures
            r@ == seq![styled(text@, color, bold)],
    {
        let mut spans: Vec<Span> = Vec::new();
        spans.push(Span { text, color, bold });
        let r = Line { spans };
        proof {
            assert(r@ =~= seq![styled(text@, color, bold)]);
        }
        r
    }

    /// The line with one more piece.
    fn and(self, text: String, color: Color, bold: bool) -> (r: Line)
        ensures
            r@ == self@.push(styled(text@, color, bold)),
    {
        let mut spans = self.spans;
        spans.push(Span { text, color, bold });
        let r = Line { spans };
        proof {
            assert(r@ =~= self@.push(styled(text@, color, bold)));
        }
        r
    }
}

// ---- the header

/// What the header says of the server.
pub open spec fn health_span(h: Health) -> SpanData {
    match h {
        Health::Connecting => styled("CONNECTING"@, Color::Yellow, true),
        Health::Connected => styled("CONNECTED"@, Color::Green, true),
        Health::Disconnected(reason) => styled(
            "DISCONNECTED ("@ + reason@ + ")"@,
            Color::Red,
            true,
        ),
    }
}

/// How many agents there are besides the observer.
pub open spec fn others(agents: Seq<AgentEntry>, observer: Seq<char>) -> Seq<AgentEntry> {
    agents.filter(|a: AgentEntry| a.id != observer)
}

/// The two lines of the header.
pub open spec fn header(agent: Seq<char>, snap: Snapshot, updated: Seq<char>) -> Seq<
    Seq<SpanData>,
> {
    seq![
        seq![
            styled("comms tui"@, Color::Plain, true),
            raw("  observer: "@),
            styled(agent, Color::Cyan, false),
            raw("  "@),
            health_span(snap.health),
        ],
        seq![
            raw(
                "last update: "@ + updated + "   polls: "@ + decimal(snap.polls as int)
                    + "   rooms: "@ + decimal(snap.rooms@.len() as int) + "   agents: "@ + decimal(
                    others(agent_infos(snap.agents@), snap.observer@).len() as int,
                ),
            ),
        ],
    ]
}

/// The agents besides the observer, by their positions.
fn other_agents(agents: &[AgentView], observer: &str) -> (r: Vec<usize>)
    ensures
        r@.len() == others(agent_infos(agents@), observer@).len(),
        forall|k: int|
            0 <= k < r@.len() ==> (#[trigger] r@[k]) < agents@.len() && agents@[r@[k] as int]@
                == others(agent_infos(agents@), observer@)[k],
{
    let ghost all = agent_infos(agents@);
    let ghost other = |a: AgentEntry| a.id != observer@;
    let mut out: Vec<usize> = Vec::new();
    let mut i: usize = 0;
    proof {
        reveal(Seq::filter);
        assert(all.take(0).filter(other).len() == 0);
    }
    while i < agents.len()
        invariant
            i <= agents@.len(),
            all == agent_infos(agents@),
            other == (|a: AgentEntry| a.id != observer@),
            out@.len() == all.take(i as int).filter(other).len(),
            forall|k: int|
                0 <= k < out@.len() ==> (#[trigger] out@[k]) < agents@.len()
                    && agents@[out@[k] as int]@ == all.take(i as int).filter(other)[k],
        decreases agents@.len() - i,
    {
        proof {
            reveal(Seq::filter);
            assert(all.take(i + 1).drop_last() =~= all.take(i as int));
            assert(all.take(i + 1).last() == agents@[i as int]@);
        }
        if !same(agents[i].id.as_str(), observer) {
            out.push(i);
        }
        i += 1;
    }
    proof {
        assert(all.take(agents@.len() as int) =~= all);
    }
    out
}

/// The two lines of the header; `updated` says when the last refresh was.
pub fn header_lines(agent: &str, snap: &Snapshot, updated: &str) -> (r: Vec<Line>)
    ensures
        line_data(r@) == header(agent@, *snap, updated@),
{
    let (text, color) = match &snap.health {
        Health::Connecting => (copy("CONNECTING"), Color::Yellow),
        Health::Connected => (copy("CONNECTED"), Color::Green),
        Health::Disconnected(reason) => (
            concat3("DISCONNECTED (", reason.as_str(), ")"),
            Color::Red,
        ),
    };
    let first = Line::of(copy("comms tui"), Color::Plain, true).and(
        copy("  observer: "),
        Color::Plain,
        false,
    ).and(copy(agent), Color::Cyan, false).and(copy("  "), Color::Plain, false).and(
        text,
        color,
        true,
    );
    let mut line = concat3("last update: ", updated, "   polls: ");
    line.append(decimal_u64(snap.polls).as_str());
    line.append("   rooms: ");
    line.append(decimal_u64(snap.rooms.len() as u64).as_str());
    line.append("   agents: ");
    let shown = other_agents(snap.agents.as_slice(), snap.observer.as_str());
    line.append(decimal_u64(shown.len() as u64).as_str());
    let second = Line::of(line, Color::Plain, false);
    let mut out: Vec<Line> = Vec::new();
    out.push(first);
    out.push(second);
    proof {
        let want = header(agent@, *snap, updated@);
        assert(first@ =~= want[0]);
        assert(second@ =~= want[1]);
        assert(line_data(out@) =~= want);
    }
    out
}

// ---- rooms and agents

/// A text cut to a width; what is cut off is shown as three dots.
pub open spec fn cut(s: Seq<char>, width: int) -> Seq<char> {
    let width = if width < 4 {
        4
    } else {
        width
    };
    if s.len() <= width {
        s
    } else {
        s.take(width - 3) + "..."@
    }
}

/// Cuts a text to a width.
pub fn truncate(s: &str, max: usize) -> (r: String)
    ensures
        r@ == cut(s@, max as int),
{
    let max: usize = if max < 4 {
        4
    } else {
        max
    };
    let cs = chars_of(s);
    if cs.len() <= max {
        return copy(s);
    }
    let mut out = text_range(cs.as_slice(), 0, max - 3);
    proof {
        assert(out@ =~= s@.take(max - 3));
    }
    out.append("...");
    out
}

/// The two lines of a room in the list.
pub open spec fn room_lines(r: RoomInfo, width: int, unread: bool) -> Seq<Seq<SpanData>> {
    let head = (if unread {
        "* "@
    } else {
        "  "@
    }) + r.name + " ["@ + r.rtype + "] owner="@ + r.owner + " members="@ + decimal(
        r.members.len() as int,
    ) + " seen="@ + decimal(r.total_seen);
    let preview = match r.last {
        Some(m) => cut("    "@ + m.from + ": "@ + m.text, width),
        None => "    (no messages yet)"@,
    };
    seq![
        seq![
            if unread {
                styled(head, Color::Yellow, true)
            } else {
                raw(head)
            },
        ],
        seq![styled(preview, Color::DarkGray, false)],
    ]
}

/// The two lines of a room in the list.
pub fn room_item(room: &RoomView, width: usize, unread: bool) -> (r: Vec<Line>)
    ensures
        line_data(r@) == room_lines(room@, width as int, unread),
{
    let mut head = copy(
        if unread {
            "* "
        } else {
            "  "
        },
    );
    head.append(room.name.as_str());
    head.append(" [");
    head.append(room.rtype.as_str());
    head.append("] owner=");
    head.append(room.owner.as_str());
    head.append(" members=");
    head.append(decimal_u64(room.members.len() as u64).as_str());
    head.append(" seen=");
    head.append(decimal_u64(room.total_seen).as_str());
    let preview = match &room.last {
        Some(m) => {
            let mut s = concat3("    ", m.from.as_str(), ": ");
            s.append(m.text.as_str());
            truncate(s.as_str(), width)
        },
        None => copy("    (no messages yet)"),
    };
    let color = if unread {
        Color::Yellow
    } else {
        Color::Plain
    };
    let mut out: Vec<Line> = Vec::new();
    out.push(Line::of(head, color, unread));
    out.push(Line::of(preview, Color::DarkGray, false));
    proof {
        assert(line_data(out@) =~= room_lines(room@, width as int, unread));
    }
    out
}

/// A text in lower case.
pub uninterp spec fn lower_case(s: Seq<char>) -> Seq<char>;

/// `str::to_lowercase`: the result depends on the text alone, and small ASCII letters stay as
/// they are.
#[verifier::external_body]
fn to_lower(s: &str) -> (r: String)
    ensures
        r@ == lower_case(s@),
        (forall|i: int| 0 <= i < s@.len() ==> 'a' <= #[trigger] s@[i] <= 'z') ==> r@ == s@,
{
    s.to_lowercase()
}

/// The colour of a status in lower case.
pub open spec fn status_color(status: Seq<char>) -> Color {
    if status == "active"@ {
        Color::Green
    } else if status == "idle"@ {
        Color::Yellow
    } else if status == "busy"@ {
        Color::Cyan
    } else if status == "done"@ {
        Color::DarkGray
    } else {
        Color::White
    }
}

/// The colour of a status in lower case.
pub fn color_of_status(status: &str) -> (r: Color)
    ensures
        r == status_color(status@),
{
    if same(status, "active") {
        Color::Green
    } else if same(status, "idle") {
        Color::Yellow
    } else if same(status, "busy") {
        Color::Cyan
    } else if same(status, "done") {
        Color::DarkGray
    } else {
        Color::White
    }
}

/// The line of an agent in the list.
pub open spec fn agent_line(a: AgentEntry) -> Seq<SpanData> {
    seq![
        styled(a.id + "  ["@ + a.status + "]"@, status_color(lower_case(a.status)), false),
    ]
}

/// The line of an agent in the list.
pub fn agent_item(agent: &AgentView) -> (r: Line)
    ensures
        r@ == agent_line(agent@),
{
    let color = color_of_status(to_lower(agent.status.as_str()).as_str());
    let mut text = concat3(agent.id.as_str(), "  [", agent.status.as_str());
    text.append("]");
    Line::of(text, color, false)
}

/// The lines of the list of agents: one for each but the observer.
pub open spec fn agents_shown(agents: Seq<AgentEntry>, observer: Seq<char>) -> Seq<Seq<SpanData>> {
    others(agents, observer).map_values(|a: AgentEntry| agent_line(a))
}

/// The lines of all agents but the observer.
pub fn agent_lines(snap: &Snapshot) -> (r: Vec<Line>)
    ensures
        line_data(r@) == agents_shown(agent_infos(snap.agents@), snap.observer@),
{
    let shown = other_agents(snap.agents.as_slice(), snap.observer.as_str());
    let ghost want = others(agent_infos(snap.agents@), snap.observer@);
    let mut out: Vec<Line> = Vec::new();
    let mut i: usize = 0;
    while i < shown.len()
        invariant
            i <= shown@.len(),
            shown@.len() == want.len(),
            forall|k: int|
                0 <= k < shown@.len() ==> (#[trigger] shown@[k]) < snap.agents@.len()
                    && snap.agents@[shown@[k] as int]@ == want[k],
            out@.len() == i,
            forall|k: int| 0 <= k < i ==> (#[trigger] out@[k])@ == agent_line(want[k]),
        decreases shown@.len() - i,
    {
        out.push(agent_item(&snap.agents[shown[i]]));
        i += 1;
    }
    proof {
        assert(line_data(out@) =~= want.map_values(|a: AgentEntry| agent_line(a)));
    }
    out
}

/// What an empty list says.
pub fn placeholder_text(snap: &Snapshot) -> (r: &'static str)
    ensures
        r@ == (if snap.health is Connecting {
            "connecting..."@
        } else {
            "(none yet)"@
        }),
{
    match snap.health {
        Health::Connecting => "connecting...",
        _ => "(none yet)",
    }
}

/// The line at the bottom.
pub fn footer_text(focused: bool) -> (r: &'static str)
    ensures
        r@ == (if focused {
            "q / Ctrl-C: quit    Esc: back    Up/k, Down/j: scroll thread"@
        } else {
            "q / Ctrl-C: quit    Up/k, Down/j: select room    Enter: open thread"@
        }),
{
    if focused {
        "q / Ctrl-C: quit    Esc: back    Up/k, Down/j: scroll thread"
    } else {
        "q / Ctrl-C: quit    Up/k, Down/j: select room    Enter: open thread"
    }
}

// ---- a room's thread

/// A number with two digits at least.
pub open spec fn two_digits(n: int) -> Seq<char> {
    if n < 10 {
        "0"@ + decimal(n)
    } else {
        decimal(n)
    }
}

fn pad(n: u64) -> (r: String)
    ensures
        r@ == two_digits(n as int),
{
    if n < 10 {
        concat2("0", decimal_u64(n).as_str())
    } else {
        decimal_u64(n)
    }
}

/// The time of day, in UTC, of a number of milliseconds since the epoch; a placeholder where
/// there is none.
pub open spec fn time_text(ts: Option<int>) -> Seq<char> {
    match ts {
        Some(ms) => if ms > 0 {
            let day = (ms / 1000) % 86_400;
            two_digits(day / 3600) + ":"@ + two_digits((day % 3600) / 60) + ":"@ + two_digits(
                day % 60,
            )
        } else {
            "--:--:--"@
        },
        None => "--:--:--"@,
    }
}

/// The time of day.
pub fn fmt_time(ts: Option<i64>) -> (r: String)
    ensures
        r@ == time_text(opt_num(ts)),
{
    if let Some(ms) = ts {
        if ms > 0 {
            let day: u64 = (ms as u64 / 1000) % 86_400;
            let mut s = pad(day / 3600);
            s.append(":");
            s.append(pad((day % 3600) / 60).as_str());
            s.append(":");
            s.append(pad(day % 60).as_str());
            return s;
        }
    }
    copy("--:--:--")
}

/// What a step event says in brackets.
pub open spec fn step_tag(cur: Option<int>, total: Option<int>, percent: Option<int>) -> Seq<char> {
    let counted = cur is Some && total is Some;
    if counted && percent is Some {
        "step "@ + decimal(cur->0) + "/"@ + decimal(total->0) + " "@ + decimal(percent->0) + "%"@
    } else if counted {
        "step "@ + decimal(cur->0) + "/"@ + decimal(total->0)
    } else if percent is Some {
        "step "@ + decimal(percent->0) + "%"@
    } else {
        "step"@
    }
}

/// What an event's line says in brackets.
pub open spec fn tag_text(e: EventInfo) -> Seq<char> {
    let target = match e.target {
        Some(t) => t,
        None => "?"@,
    };
    if e.kind == "step"@ {
        step_tag(e.step_cur, e.step_total, e.percent)
    } else if e.kind == "blocked"@ {
        "blocked->"@ + target
    } else if e.kind == "handoff"@ {
        "handoff->"@ + target
    } else {
        e.kind
    }
}

/// What an event's line says in brackets.
pub fn event_tag(e: &EventView) -> (r: String)
    ensures
        r@ == tag_text(e@),
{
    if same(e.kind.as_str(), "step") {
        let mut s = copy("step");
        let mut any = false;
        if let (Some(c), Some(t)) = (e.step_cur, e.step_total) {
            s = concat3("step ", decimal_i64(c).as_str(), "/");
            s.append(decimal_i64(t).as_str());
            any = true;
        }
        if let Some(p) = e.percent {
            if any {
                s.append(" ");
            } else {
                s = copy("step ");
            }
            s.append(decimal_i64(p).as_str());
            s.append("%");
        }
        return s;
    }
    let target = match &e.target {
        Some(t) => t.as_str(),
        None => "?",
    };
    if same(e.kind.as_str(), "blocked") {
        concat2("blocked->", target)
    } else if same(e.kind.as_str(), "handoff") {
        concat2("handoff->", target)
    } else {
        copy(e.kind.as_str())
    }
}

/// The parts that are there.
pub open spec fn present(v: Seq<Option<Seq<char>>>) -> Seq<Seq<char>>
    decreases v.len(),
{
    if v.len() == 0 {
        Seq::empty()
    } else {
        match v.last() {
            Some(s) => present(v.drop_last()).push(s),
            None => present(v.drop_last()),
        }
    }
}

/// What follows the brackets: task, phase and note, as far as they are there.
pub open spec fn detail_text(e: EventInfo) -> Seq<char> {
    joined(present(seq![e.task, e.phase, e.note]), " - "@)
}

fn push_present(parts: &mut Vec<String>, s: &Option<String>)
    ensures
        texts(final(parts)@) == (match *s {
            Some(t) => texts(old(parts)@).push(t@),
            None => texts(old(parts)@),
        }),
{
    if let Some(t) = s {
        let ghost before = texts(parts@);
        parts.push(copy(t.as_str()));
        proof {
            assert(texts(parts@) =~= before.push(t@));
        }
    }
}

/// What follows the brackets.
pub fn event_detail(e: &EventView) -> (r: String)
    ensures
        r@ == detail_text(e@),
{
    let mut parts: Vec<String> = Vec::new();
    let ghost v = seq![opt_text(e.task), opt_text(e.phase), opt_text(e.note)];
    proof {
        let v2 = seq![opt_text(e.task), opt_text(e.phase)];
        let v1 = seq![opt_text(e.task)];
        let v0 = Seq::<Option<Seq<char>>>::empty();
        assert(v.drop_last() =~= v2);
        assert(v2.drop_last() =~= v1);
        assert(v1.drop_last() =~= v0);
        reveal_with_fuel(present, 4);
        assert(texts(parts@) =~= present(v0));
    }
    push_present(&mut parts, &e.task);
    push_present(&mut parts, &e.phase);
    push_present(&mut parts, &e.note);
    join(parts.as_slice(), " - ")
}

/// The colour of a kind of event.
pub open spec fn kind_color(kind: Seq<char>) -> Color {
    if kind == "task-start"@ {
        Color::Yellow
    } else if kind == "task-done"@ {
        Color::Green
    } else if kind == "task-error"@ {
        Color::Red
    } else if kind == "task-abort"@ {
        Color::DarkGray
    } else if kind == "step"@ {
        Color::Cyan
    } else if kind == "phase"@ {
        Color::Blue
    } else if kind == "blocked"@ {
        Color::Red
    } else if kind == "handoff"@ {
        Color::Magenta
    } else {
        Color::White
    }
}

/// The colour of a kind of event.
pub fn event_color(kind: &str) -> (r: Color)
    ensures
        r == kind_color(kind@),
{
    if same(kind, "task-start") {
        Color::Yellow
    } else if same(kind, "task-done") {
        Color::Green
    } else if same(kind, "task-error") {
        Color::Red
    } else if same(kind, "task-abort") {
        Color::DarkGray
    } else if same(kind, "step") {
        Color::Cyan
    } else if same(kind, "phase") {
        Color::Blue
    } else if same(kind, "blocked") {
        Color::Red
    } else if same(kind, "handoff") {
        Color::Magenta
    } else {
        Color::White
    }
}

/// The line of an entry in a thread.
pub open spec fn item_line(x: ItemInfo) -> Seq<SpanData> {
    match x {
        ItemInfo::Msg(m) => seq![
            styled(time_text(m.ts) + "  "@, Color::DarkGray, false),
            styled(m.from + ": "@, Color::Plain, true),
            raw(m.text),
        ],
        ItemInfo::Evt(e) => seq![
            styled(time_text(Some(e.ts)) + "  "@, Color::DarkGray, false),
            styled("["@ + tag_text(e) + "] "@, kind_color(e.kind), true),
            raw(
                if detail_text(e).len() == 0 {
                    e.agent
                } else {
                    e.agent + ": "@ + detail_text(e)
                },
            ),
        ],
    }
}

/// The line of an entry in a thread.
pub fn thread_item_line(item: &ThreadItem) -> (r: Line)
    ensures
        r@ == item_line(item@),
{
    match item {
        ThreadItem::Msg(m) => {
            let r = Line::of(
                concat2(fmt_time(m.ts).as_str(), "  "),
                Color::DarkGray,
                false,
            ).and(concat2(m.from.as_str(), ": "), Color::Plain, true).and(
                copy(m.text.as_str()),
                Color::Plain,
                false,
            );
            proof {
                assert(r@ =~= item_line(item@));
            }
            r
        },
        ThreadItem::Evt(e) => {
            let detail = event_detail(e);
            let text = if detail.as_str().is_empty() {
                copy(e.agent.as_str())
            } else {
                concat3(e.agent.as_str(), ": ", detail.as_str())
            };
            let r = Line::of(
                concat2(fmt_time(Some(e.ts)).as_str(), "  "),
                Color::DarkGray,
                false,
            ).and(
                concat3("[", event_tag(e).as_str(), "] "),
                event_color(e.kind.as_str()),
                true,
            ).and(text, Color::Plain, false);
            proof {
                assert(r@ =~= item_line(item@));
            }
            r
        },
    }
}

/// The entries of the thread that fit the window: the last ones, or those `back` further up.
pub open spec fn window(items: Seq<ItemInfo>, back: int, height: int) -> Seq<ItemInfo> {
    let end = if back < items.len() {
        items.len() - back
    } else {
        0
    };
    let rows = if height < 1 {
        1
    } else {
        height
    };
    let start = if end > rows {
        end - rows
    } else {
        0
    };
    items.subrange(start, end)
}

/// The thread that is shown for a room: none while the snapshot still holds another one.
pub open spec fn shown_items(thread: Option<RoomThread>, room: Seq<char>) -> Seq<ItemInfo> {
    match thread {
        Some(t) => if t.room@ == room {
            item_infos(t.items@)
        } else {
            Seq::empty()
        },
        None => Seq::empty(),
    }
}

/// The lines of a thread that fit the window; nothing if there are no entries.
pub open spec fn thread_shown(items: Seq<ItemInfo>, back: int, height: int) -> Option<
    Seq<Seq<SpanData>>,
> {
    if items.len() == 0 {
        None
    } else {
        Some(window(items, back, height).map_values(|x: ItemInfo| item_line(x)))
    }
}

/// The lines of a room's thread; `None` while there is nothing to show.
pub fn thread_lines(thread: &Option<RoomThread>, room: &str, backscroll: usize, height: usize) -> (r:
    Option<Vec<Line>>)
    ensures
        match r {
            Some(v) => thread_shown(
                shown_items(*thread, room@),
                backscroll as int,
                height as int,
            ) == Some(line_data(v@)),
            None => thread_shown(
                shown_items(*thread, room@),
                backscroll as int,
                height as int,
            ) is None,
        },
{
    let t = match thread {
        Some(t) => t,
        None => {
            return None;
        },
    };
    if !same(t.room.as_str(), room) || t.items.len() == 0 {
        return None;
    }
    let total: usize = t.items.len();
    let end: usize = if backscroll < total {
        total - backscroll
    } else {
        0
    };
    let rows: usize = if height < 1 {
        1
    } else {
        height
    };
    let start: usize = if end > rows {
        end - rows
    } else {
        0
    };
    let ghost shown = window(item_infos(t.items@), backscroll as int, height as int);
    let mut out: Vec<Line> = Vec::new();
    let mut i: usize = start;
    while i < end
        invariant
            start <= i <= end <= t.items@.len(),
            out@.len() == i - start,
            shown == item_infos(t.items@).subrange(start as int, end as int),
            forall|k: int| 0 <= k < out@.len() ==> (#[trigger] out@[k])@ == item_line(shown[k]),
        decreases end - i,
    {
        out.push(thread_item_line(&t.items[i]));
        i += 1;
    }
    proof {
        assert(line_data(out@) =~= shown.map_values(|x: ItemInfo| item_line(x)));
    }
    Some(out)
}

// ---- progress

/// What an agent is known to be at, as data.
#[verifier::ext_equal]
pub struct ProgressInfo {
    pub task_label: Option<Seq<char>>,
    pub task_state: Option<Seq<char>>,
    pub phase: Option<Seq<char>>,
    pub step_cur: Option<int>,
    pub step_total: Option<int>,
    pub percent: Option<int>,
    pub blocked: Option<Seq<char>>,
    pub handoff: Option<Seq<char>>,
    pub last_room: Seq<char>,
}

/// What an agent is known to be at.
#[derive(Debug, PartialEq, Eq)]
pub struct AgentProgress {
    pub task_label: Option<String>,
    pub task_state: Option<String>,
    pub phase: Option<String>,
    pub step_cur: Option<i64>,
    pub step_total: Option<i64>,
    pub percent: Option<i64>,
    pub blocked: Option<String>,
    pub handoff: Option<String>,
    /// The room that the latest event was posted to.
    pub last_room: String,
}

impl View for AgentProgress {
    type V = ProgressInfo;

    open spec fn view(&self) -> ProgressInfo {
        ProgressInfo {
            task_label: opt_text(self.task_label),
            task_state: opt_text(self.task_state),
            phase: opt_text(self.phase),
            step_cur: opt_num(self.step_cur),
            step_total: opt_num(self.step_total),
            percent: opt_num(self.percent),
            blocked: opt_text(self.blocked),
            handoff: opt_text(self.handoff),
            last_room: self.last_room@,
        }
    }
}

/// Nothing is known of an agent.
pub open spec fn no_progress() -> ProgressInfo {
    ProgressInfo {
        task_label: None,
        task_state: None,
        phase: None,
        step_cur: None,
        step_total: None,
        percent: None,
        blocked: None,
        handoff: None,
        last_room: Seq::empty(),
    }
}

/// The state that a kind of event puts a task in.
pub open spec fn task_state_of(kind: Seq<char>) -> Option<Seq<char>> {
    if kind == "task-start"@ {
        Some("start"@)
    } else if kind == "task-done"@ {
        Some("done"@)
    } else if kind == "task-error"@ {
        Some("error"@)
    } else if kind == "task-abort"@ {
        Some("abort"@)
    } else {
        None
    }
}

/// What is known of an agent after one more event. An agent is blocked only as long as that
/// is the latest that it said.
pub open spec fn progressed(p: ProgressInfo, e: EventInfo) -> ProgressInfo {
    let q = ProgressInfo {
        last_room: e.room,
        blocked: if e.kind == "blocked"@ {
            p.blocked
        } else {
            None
        },
        ..p
    };
    if task_state_of(e.kind) is Some {
        ProgressInfo {
            task_label: if e.kind == "task-start"@ || e.task is Some {
                e.task
            } else {
                p.task_label
            },
            task_state: task_state_of(e.kind),
            ..q
        }
    } else if e.kind == "step"@ {
        ProgressInfo { step_cur: e.step_cur, step_total: e.step_total, percent: e.percent, ..q }
    } else if e.kind == "phase"@ {
        ProgressInfo { phase: e.phase, ..q }
    } else if e.kind == "blocked"@ {
        ProgressInfo { blocked: e.target, ..q }
    } else if e.kind == "handoff"@ {
        ProgressInfo { handoff: e.target, ..q }
    } else {
        q
    }
}

/// What the events say of an agent.
pub open spec fn progress_of(events: Seq<EventInfo>, agent: Seq<char>) -> ProgressInfo
    decreases events.len(),
{
    if events.len() == 0 {
        no_progress()
    } else {
        let before = progress_of(events.drop_last(), agent);
        if events.last().agent == agent {
            progressed(before, events.last())
        } else {
            before
        }
    }
}

/// The agents that events are of, but for the observer.
pub open spec fn active_agents(events: Seq<EventInfo>, observer: Seq<char>) -> Set<Seq<char>> {
    Set::new(
        |a: Seq<char>|
            a != observer && exists|i: int|
                0 <= i < events.len() && (#[trigger] events[i]).agent == a,
    )
}

/// The names in a list of progress.
pub open spec fn progress_names(v: Seq<(String, AgentProgress)>) -> Seq<Seq<char>> {
    Seq::new(v.len(), |i: int| v[i].0@)
}

/// What is known of an agent of which nothing was said.
fn empty_progress() -> (r: AgentProgress)
    ensures
        r@ == no_progress(),
{
    AgentProgress {
        task_label: None,
        task_state: None,
        phase: None,
        step_cur: None,
        step_total: None,
        percent: None,
        blocked: None,
        handoff: None,
        last_room: String::new(),
    }
}

proof fn lemma_kind_names()
    ensures
        "task-start"@.len() == 10 && "task-start"@[5] == 's',
        "task-done"@.len() == 9,
        "task-error"@.len() == 10 && "task-error"@[5] == 'e',
        "task-abort"@.len() == 10 && "task-abort"@[5] == 'a',
        "step"@.len() == 4,
        "phase"@.len() == 5,
        "blocked"@.len() == 7 && "blocked"@[0] == 'b',
        "handoff"@.len() == 7 && "handoff"@[0] == 'h',
{
    reveal_strlit("task-start");
    reveal_strlit("task-done");
    reveal_strlit("task-error");
    reveal_strlit("task-abort");
    reveal_strlit("step");
    reveal_strlit("phase");
    reveal_strlit("blocked");
    reveal_strlit("handoff");
}

/// What is known of an agent after one more event.
pub fn note_event(p: AgentProgress, e: &EventView) -> (r: AgentProgress)
    ensures
        r@ == progressed(p@, e@),
{
    proof {
        lemma_kind_names();
    }
    let mut q = p;
    let kind = e.kind.as_str();
    q.last_room = copy(e.room.as_str());
    if !same(kind, "blocked") {
        q.blocked = None;
    }
    if same(kind, "task-start") {
        q.task_label = copy_opt(&e.task);
        q.task_state = Some(copy("start"));
    } else if same(kind, "task-done") || same(kind, "task-error") || same(kind, "task-abort") {
        if e.task.is_some() {
            q.task_label = copy_opt(&e.task);
        }
        q.task_state = Some(
            copy(
                if same(kind, "task-done") {
                    "done"
                } else if same(kind, "task-error") {
                    "error"
                } else {
                    "abort"
                },
            ),
        );
    } else if same(kind, "step") {
        q.step_cur = e.step_cur;
        q.step_total = e.step_total;
        q.percent = e.percent;
    } else if same(kind, "phase") {
        q.phase = copy_opt(&e.phase);
    } else if same(kind, "blocked") {
        q.blocked = copy_opt(&e.target);
    } else if same(kind, "handoff") {
        q.handoff = copy_opt(&e.target);
    }
    q
}

/// A list of progress is what the events say.
pub open spec fn is_progress(
    v: Seq<(String, AgentProgress)>,
    events: Seq<EventInfo>,
    observer: Seq<char>,
) -> bool {
    &&& lists(progress_names(v), active_agents(events, observer))
    &&& forall|i: int|
        0 <= i < v.len() ==> (#[trigger] v[i]).1@ == progress_of(events, v[i].0@)
}

/// The event of an agent that is left out changes nothing.
proof fn lemma_skip_event(
    v: Seq<(String, AgentProgress)>,
    before: Seq<EventInfo>,
    now: Seq<EventInfo>,
    observer: Seq<char>,
)
    requires
        now.len() > 0,
        now.drop_last() == before,
        now.last().agent == observer,
        is_progress(v, before, observer),
    ensures
        is_progress(v, now, observer),
{
    lemma_more_agents(before, now, observer);
    assert(active_agents(now, observer) =~= active_agents(before, observer));
    assert forall|i: int| 0 <= i < v.len() implies (#[trigger] v[i]).1@ == progress_of(
        now,
        v[i].0@,
    ) by {
        assert(progress_names(v)[i] == v[i].0@);
        assert(progress_names(v).contains(v[i].0@));
        assert(active_agents(before, observer).contains(v[i].0@));
    }
}

/// One more event adds its agent at most.
proof fn lemma_more_agents(before: Seq<EventInfo>, now: Seq<EventInfo>, observer: Seq<char>)
    requires
        now.len() > 0,
        now.drop_last() == before,
    ensures
        forall|a: Seq<char>| #[trigger]
            active_agents(now, observer).contains(a) <==> (active_agents(before, observer).contains(
                a,
            ) || (a != observer && a == now.last().agent)),
{
    assert forall|a: Seq<char>| #[trigger]
        active_agents(now, observer).contains(a) <==> (active_agents(before, observer).contains(a)
            || (a != observer && a == now.last().agent)) by {
        if active_agents(now, observer).contains(a) {
            let i = choose|i: int| 0 <= i < now.len() && (#[trigger] now[i]).agent == a;
            if i < before.len() {
                assert(before[i].agent == a);
            }
        }
        if active_agents(before, observer).contains(a) {
            let i = choose|i: int| 0 <= i < before.len() && (#[trigger] before[i]).agent == a;
            assert(now[i].agent == a);
        }
        if a == now.last().agent {
            assert(now[now.len() - 1].agent == a);
        }
    }
}

/// Folds the events into what each agent is at. Later events win; the observer is left out.
/// The list is in the order of the agents' names.
pub fn fold_progress(events: &[EventView], observer: &str) -> (r: Vec<(String, AgentProgress)>)
    ensures
        is_progress(r@, event_infos(events@), observer@),
{
    let ghost all = event_infos(events@);
    let mut out: Vec<(String, AgentProgress)> = Vec::new();
    let mut i: usize = 0;
    while i < events.len()
        invariant
            i <= events@.len(),
            all == event_infos(events@),
            is_progress(out@, all.take(i as int), observer@),
        decreases events@.len() - i,
    {
        let ghost before = all.take(i as int);
        let ghost now = all.take(i + 1);
        proof {
            assert(now.drop_last() =~= before);
            assert(now.last() == events@[i as int]@);
        }
        if same(events[i].agent.as_str(), observer) {
            proof {
                lemma_skip_event(out@, before, now, observer@);
            }
        } else {
            add_event(&mut out, &events[i], Ghost(before), Ghost(observer@));
            proof {
                assert(before.push(events@[i as int]@) =~= now);
            }
        }
        i += 1;
    }
    proof {
        assert(all.take(events@.len() as int) =~= all);
    }
    out
}

/// Adds an event to the list of progress.
fn add_event(
    out: &mut Vec<(String, AgentProgress)>,
    e: &EventView,
    before: Ghost<Seq<EventInfo>>,
    observer: Ghost<Seq<char>>,
)
    requires
        is_progress(old(out)@, before@, observer@),
        e@.agent != observer@,
    ensures
        is_progress(final(out)@, before@.push(e@), observer@),
{
    let ghost old_out = out@;
    let ghost names = progress_names(old_out);
    let ghost now = before@.push(e@);
    let ghost agent = e@.agent;
    let mut p: usize = 0;
    while p < out.len() && !le(e.agent.as_str(), out[p].0.as_str())
        invariant
            p <= out@.len(),
            out@ == old_out,
            names == progress_names(old_out),
            agent == e@.agent,
            forall|k: int| 0 <= k < p ==> !text_le(agent, #[trigger] names[k]),
        decreases out@.len() - p,
    {
        proof {
            assert(names[p as int] == out@[p as int].0@);
        }
        p += 1;
    }
    proof {
        assert(now.drop_last() =~= before@);
        lemma_more_agents(before@, now, observer@);
        if p < old_out.len() {
            assert(names[p as int] == old_out[p as int].0@);
        }
    }
    if p < out.len() && same(out[p].0.as_str(), e.agent.as_str()) {
        let mut known = empty_progress();
        std::mem::swap(&mut known, &mut out[p].1);
        let mut known = note_event(known, e);
        std::mem::swap(&mut known, &mut out[p].1);
        proof {
            assert(progress_names(out@) =~= names);
            assert(names.contains(agent)) by {
                assert(names[p as int] == agent);
            }
            assert forall|x: Seq<char>| #[trigger]
                active_agents(now, observer@).contains(x) <==> progress_names(out@).contains(x) by {
                assert(active_agents(before@, observer@).contains(x) <==> names.contains(x));
            }
            assert forall|i: int| 0 <= i < out@.len() implies (#[trigger] out@[i]).1@
                == progress_of(now, out@[i].0@) by {
                assert(names[i] == old_out[i].0@);
                assert(old_out[i].1@ == progress_of(before@, old_out[i].0@));
                if i != p {
                    assert(out@[i] == old_out[i]);
                    if i < p {
                        assert(text_lt(names[i], names[p as int]));
                    } else {
                        assert(text_lt(names[p as int], names[i]));
                    }
                }
            }
        }
    } else {
        proof {
            lemma_new_agent(before@, agent, old_out, observer@, p as int);
        }
        let fresh = note_event(empty_progress(), e);
        out.insert(p, (copy(e.agent.as_str()), fresh));
        proof {
            let new_names = progress_names(out@);
            assert(new_names =~= names.insert(p as int, agent));
            assert forall|i: int, j: int| 0 <= i < j < new_names.len() implies text_lt(
                #[trigger] new_names[i],
                #[trigger] new_names[j],
            ) by {
                let a = if i < p {
                    i
                } else {
                    i - 1
                };
                let b = if j < p {
                    j
                } else {
                    j - 1
                };
                if i != p && j != p {
                    assert(new_names[i] == names[a] && new_names[j] == names[b]);
                } else if i == p {
                    assert(new_names[j] == names[b]);
                } else {
                    assert(new_names[i] == names[a]);
                }
            }
            assert forall|x: Seq<char>| #[trigger]
                active_agents(now, observer@).contains(x) <==> new_names.contains(x) by {
                assert(active_agents(before@, observer@).contains(x) <==> names.contains(x));
                if names.contains(x) {
                    let k = choose|k: int| 0 <= k < names.len() && names[k] == x;
                    if k < p {
                        assert(new_names[k] == x);
                    } else {
                        assert(new_names[k + 1] == x);
                    }
                }
                if x == agent {
                    assert(new_names[p as int] == x);
                }
                if new_names.contains(x) {
                    let k = choose|k: int| 0 <= k < new_names.len() && new_names[k] == x;
                    if k < p {
                        assert(names[k] == x);
                    } else if k > p {
                        assert(names[k - 1] == x);
                    }
                }
            }
            assert forall|i: int| 0 <= i < out@.len() implies (#[trigger] out@[i]).1@
                == progress_of(now, out@[i].0@) by {
                if i < p {
                    assert(out@[i] == old_out[i]);
                    assert(names[i] == old_out[i].0@);
                } else if i > p {
                    assert(out@[i] == old_out[i - 1]);
                    assert(names[i - 1] == old_out[i - 1].0@);
                }
            }
        }
    }
}

/// An agent that is not in the list yet belongs at the place that was found, and nothing was
/// said of it.
proof fn lemma_new_agent(
    before: Seq<EventInfo>,
    agent: Seq<char>,
    v: Seq<(String, AgentProgress)>,
    observer: Seq<char>,
    p: int,
)
    requires
        is_progress(v, before, observer),
        agent != observer,
        0 <= p <= v.len(),
        forall|k: int| 0 <= k < p ==> !text_le(agent, #[trigger] progress_names(v)[k]),
        p < v.len() ==> text_le(agent, progress_names(v)[p]) && progress_names(v)[p] != agent,
    ensures
        forall|k: int| 0 <= k < p ==> text_lt(#[trigger] progress_names(v)[k], agent),
        forall|k: int| p <= k < v.len() ==> text_lt(agent, #[trigger] progress_names(v)[k]),
        progress_of(before, agent) == no_progress(),
{
    let names = progress_names(v);
    assert forall|k: int| 0 <= k < p implies text_lt(#[trigger] names[k], agent) by {
        lemma_text_le_total(agent, names[k]);
        if names[k] == agent {
            lemma_text_le_total(agent, agent);
        }
    }
    assert forall|k: int| p <= k < v.len() implies text_lt(agent, #[trigger] names[k]) by {
        if k > p {
            assert(text_lt(names[p], names[k]));
            lemma_text_le_trans(agent, names[p], names[k]);
            if names[k] == agent {
                lemma_text_le_antisym(names[p], agent);
            }
        }
    }
    assert(!names.contains(agent)) by {
        if names.contains(agent) {
            let k = choose|k: int| 0 <= k < names.len() && names[k] == agent;
            if k < p {
                assert(text_lt(names[k], agent));
            } else {
                assert(text_lt(agent, names[k]));
            }
        }
    }
    assert(!active_agents(before, observer).contains(agent));
    assert forall|i: int| 0 <= i < before.len() implies (#[trigger] before[i]).agent != agent by {}
    lemma_unmentioned(before, agent);
}

proof fn lemma_unmentioned(events: Seq<EventInfo>, agent: Seq<char>)
    requires
        forall|i: int| 0 <= i < events.len() ==> (#[trigger] events[i]).agent != agent,
    ensures
        progress_of(events, agent) == no_progress(),
    decreases events.len(),
{
    if events.len() > 0 {
        let front = events.drop_last();
        assert forall|i: int| 0 <= i < front.len() implies (#[trigger] front[i]).agent != agent by {
            assert(front[i] == events[i]);
        }
        lemma_unmentioned(front, agent);
        assert(events[events.len() - 1].agent != agent);
    }
}

/// A task's badge: its label and its colour.
pub open spec fn badge(state: Seq<char>) -> (Seq<char>, Color) {
    if state == "start"@ {
        ("running"@, Color::Yellow)
    } else if state == "done"@ {
        ("done"@, Color::Green)
    } else if state == "error"@ {
        ("error"@, Color::Red)
    } else if state == "abort"@ {
        ("abort"@, Color::DarkGray)
    } else {
        ("?"@, Color::White)
    }
}

/// A task's badge.
pub fn task_badge(state: &str) -> (r: (&'static str, Color))
    ensures
        (r.0@, r.1) == badge(state@),
{
    if same(state, "start") {
        ("running", Color::Yellow)
    } else if same(state, "done") {
        ("done", Color::Green)
    } else if same(state, "error") {
        ("error", Color::Red)
    } else if same(state, "abort") {
        ("abort", Color::DarkGray)
    } else {
        ("?", Color::White)
    }
}

/// How far an agent is, if it said so in a way that can be shown.
pub open spec fn step_shown(p: ProgressInfo) -> Option<Seq<char>> {
    match (p.step_cur, p.step_total, p.percent) {
        (Some(c), Some(t), Some(pct)) => Some(
            decimal(c) + "/"@ + decimal(t) + "  "@ + decimal(pct) + "%"@,
        ),
        (Some(c), Some(t), None) => Some(decimal(c) + "/"@ + decimal(t)),
        (None, None, Some(pct)) => Some(decimal(pct) + "%"@),
        _ => None,
    }
}

/// How far an agent is.
pub fn step_text(p: &AgentProgress) -> (r: Option<String>)
    ensures
        opt_text(r) == step_shown(p@),
{
    match (p.step_cur, p.step_total, p.percent) {
        (Some(c), Some(t), Some(pct)) => {
            let mut s = concat3(decimal_i64(c).as_str(), "/", decimal_i64(t).as_str());
            s.append("  ");
            s.append(decimal_i64(pct).as_str());
            s.append("%");
            Some(s)
        },
        (Some(c), Some(t), None) => Some(
            concat3(decimal_i64(c).as_str(), "/", decimal_i64(t).as_str()),
        ),
        (None, None, Some(pct)) => Some(concat2(decimal_i64(pct).as_str(), "%")),
        _ => None,
    }
}

/// A line of one piece, if there is something to say.
pub open spec fn line_of(prefix: Seq<char>, t: Option<Seq<char>>, color: Color, bold: bool) -> Seq<
    Seq<SpanData>,
> {
    match t {
        Some(t) => seq![seq![styled(prefix + t, color, bold)]],
        None => Seq::empty(),
    }
}

/// The line that shows an agent's task, if there is one.
pub open spec fn task_line(p: ProgressInfo) -> Seq<Seq<SpanData>> {
    match p.task_state {
        Some(state) => seq![
            seq![
                raw("  "@),
                styled("["@ + badge(state).0 + "]"@, badge(state).1, false),
                raw(
                    " "@ + (match p.task_label {
                        Some(t) => t,
                        None => Seq::empty(),
                    }),
                ),
            ],
        ],
        None => Seq::empty(),
    }
}

/// The lines that show what an agent is at.
pub open spec fn progress_block(agent: Seq<char>, p: ProgressInfo) -> Seq<Seq<SpanData>> {
    let head = seq![
        styled(agent, Color::Plain, true),
        styled("  ("@ + p.last_room + ")"@, Color::DarkGray, false),
    ];
    seq![head] + task_line(p) + line_of("  phase: "@, p.phase, Color::Plain, false) + line_of(
        "  "@,
        step_shown(p),
        Color::Plain,
        false,
    ) + line_of("  BLOCKED on "@, p.blocked, Color::Red, true) + line_of(
        "  -> "@,
        p.handoff,
        Color::Magenta,
        false,
    )
}

/// Adds a line.
fn push_line(out: &mut Vec<Line>, line: Line)
    ensures
        line_data(final(out)@) == line_data(old(out)@) + seq![line@],
{
    let ghost before = line_data(out@);
    out.push(line);
    proof {
        assert(line_data(out@) =~= before + seq![line@]);
    }
}

/// Adds a line of one piece, if there is something to say.
fn push_some(
    out: &mut Vec<Line>,
    prefix: &str,
    t: &Option<String>,
    color: Color,
    bold: bool,
)
    ensures
        line_data(final(out)@) == line_data(old(out)@) + line_of(
            prefix@,
            opt_text(*t),
            color,
            bold,
        ),
{
    match t {
        Some(t) => push_line(out, Line::of(concat2(prefix, t.as_str()), color, bold)),
        None => {
            proof {
                assert(line_data(out@) + Seq::<Seq<SpanData>>::empty() =~= line_data(out@));
            }
        },
    }
}

/// The lines that show what an agent is at.
pub fn agent_block(agent: &str, p: &AgentProgress) -> (r: Vec<Line>)
    ensures
        line_data(r@) == progress_block(agent@, p@),
{
    let mut out: Vec<Line> = Vec::new();
    let head = Line::of(copy(agent), Color::Plain, true).and(
        concat3("  (", p.last_room.as_str(), ")"),
        Color::DarkGray,
        false,
    );
    proof {
        assert(head@ =~= seq![
            styled(agent@, Color::Plain, true),
            styled("  ("@ + p.last_room@ + ")"@, Color::DarkGray, false),
        ]);
    }
    push_line(&mut out, head);
    proof {
        assert(line_data(out@) =~= seq![head@]);
    }
    match &p.task_state {
        Some(state) => {
            let (label, color) = task_badge(state.as_str());
            let text = match &p.task_label {
                Some(t) => concat2(" ", t.as_str()),
                None => {
                    proof {
                        assert(" "@ + Seq::<char>::empty() =~= " "@);
                    }
                    copy(" ")
                },
            };
            let line = Line::of(copy("  "), Color::Plain, false).and(
                concat3("[", label, "]"),
                color,
                false,
            ).and(text, Color::Plain, false);
            proof {
                assert(line@ =~= seq![
                    raw("  "@),
                    styled("["@ + badge(state@).0 + "]"@, badge(state@).1, false),
                    raw(
                        " "@ + (match p@.task_label {
                            Some(t) => t,
                            None => Seq::empty(),
                        }),
                    ),
                ]);
            }
            push_line(&mut out, line);
            proof {
                assert(p@.task_state == Some(state@));
                assert(task_line(p@)[0] =~= line@);
                assert(task_line(p@) =~= seq![line@]);
                assert(line_data(out@) =~= seq![head@] + task_line(p@));
            }
        },
        None => {
            proof {
                assert(line_data(out@) =~= seq![head@] + task_line(p@));
            }
        },
    }
    push_some(&mut out, "  phase: ", &p.phase, Color::Plain, false);
    push_some(&mut out, "  ", &step_text(p), Color::Plain, false);
    push_some(&mut out, "  BLOCKED on ", &p.blocked, Color::Red, true);
    push_some(&mut out, "  -> ", &p.handoff, Color::Magenta, false);
    out
}

/// The lines of the progress panel: a block for each agent.
pub open spec fn progress_panel(v: Seq<(String, AgentProgress)>) -> Seq<Seq<SpanData>>
    decreases v.len(),
{
    if v.len() == 0 {
        Seq::empty()
    } else {
        progress_panel(v.drop_last()) + progress_block(v.last().0@, v.last().1@)
    }
}

/// The lines of the progress panel.
pub fn panel_lines(v: &[(String, AgentProgress)]) -> (r: Vec<Line>)
    ensures
        line_data(r@) == progress_panel(v@),
{
    let mut out: Vec<Line> = Vec::new();
    proof {
        assert(line_data(out@) =~= Seq::<Seq<SpanData>>::empty());
    }
    let mut i: usize = 0;
    while i < v.len()
        invariant
            i <= v@.len(),
            line_data(out@) == progress_panel(v@.take(i as int)),
        decreases v@.len() - i,
    {
        proof {
            assert(v@.take(i + 1).drop_last() =~= v@.take(i as int));
            assert(v@.take(i + 1).last() == v@[i as int]);
        }
        let ghost before = line_data(out@);
        let mut block = agent_block(v[i].0.as_str(), &v[i].1);
        let ghost added = line_data(block@);
        out.append(&mut block);
        proof {
            assert(line_data(out@) =~= before + added);
        }
        i += 1;
    }
    proof {
        assert(v@.take(v@.len() as int) =~= v@);
    }
    out
}

/// The lines of the progress panel; none where no agent said anything.
pub fn progress_lines(snap: &Snapshot) -> (r: Vec<Line>)
    ensures
        exists|v: Seq<(String, AgentProgress)>|
            is_progress(v, event_infos(snap.events@), snap.observer@) && line_data(r@)
                == progress_panel(v),
{
    let v = fold_progress(snap.events.as_slice(), snap.observer.as_str());
    panel_lines(v.as_slice())
}

// ---- keys

/// What the dashboard remembers between frames, as data.
#[verifier::ext_equal]
pub struct ViewData {
    pub selected: int,
    /// How many messages were seen in a room when it was last looked at.
    pub baseline: Map<Seq<char>, u64>,
    pub focused: Option<Seq<char>>,
    pub thread_backscroll: int,
    pub thread_len: int,
}

/// What the dashboard remembers between frames.
pub struct ViewState {
    selected: usize,
    baseline: StringHashMap<u64>,
    focused: Option<String>,
    thread_backscroll: usize,
    thread_len: usize,
}

impl View for ViewState {
    type V = ViewData;

    closed spec fn view(&self) -> ViewData {
        ViewData {
            selected: self.selected as int,
            baseline: self.baseline@,
            focused: opt_text(self.focused),
            thread_backscroll: self.thread_backscroll as int,
            thread_len: self.thread_len as int,
        }
    }
}

/// A key that means something.
#[derive(Debug, Clone, Copy, PartialEq, Eq, Structural)]
pub enum Key {
    Quit,
    Escape,
    Enter,
    Down,
    Up,
    Other,
}

/// A key of the keyboard.
#[derive(Debug, Clone, Copy, PartialEq, Eq, Structural)]
pub enum KeyName {
    Char(char),
    Esc,
    Enter,
    Down,
    Up,
    Other,
}

/// What a key means: `q` and Ctrl-C quit, and `j` and `k` move as the arrows do.
pub open spec fn bound_key(name: KeyName, ctrl: bool) -> Key {
    match name {
        KeyName::Char(c) => if c == 'q' || (c == 'c' && ctrl) {
            Key::Quit
        } else if c == 'j' {
            Key::Down
        } else if c == 'k' {
            Key::Up
        } else {
            Key::Other
        },
        KeyName::Esc => Key::Escape,
        KeyName::Enter => Key::Enter,
        KeyName::Down => Key::Down,
        KeyName::Up => Key::Up,
        KeyName::Other => Key::Other,
    }
}

/// What a key means; `ctrl` says that it was pressed together with Control.
pub fn key_for(name: KeyName, ctrl: bool) -> (k: Key)
    ensures
        k == bound_key(name, ctrl),
{
    match name {
        KeyName::Char('q') => Key::Quit,
        KeyName::Char('c') if ctrl => Key::Quit,
        KeyName::Esc => Key::Escape,
        KeyName::Enter => Key::Enter,
        KeyName::Down | KeyName::Char('j') => Key::Down,
        KeyName::Up | KeyName::Char('k') => Key::Up,
        _ => Key::Other,
    }
}

/// The selection, moved back into the list where rooms have gone.
pub open spec fn clamped(selected: int, rooms: int) -> int {
    if rooms == 0 {
        0
    } else if selected >= rooms {
        rooms - 1
    } else {
        selected
    }
}

/// What is remembered after a frame: the selected room counts as looked at.
pub open spec fn after_frame(v: ViewData, snap: Snapshot) -> ViewData {
    let rooms = snap.rooms@;
    let selected = clamped(v.selected, rooms.len() as int);
    ViewData {
        selected,
        baseline: if rooms.len() == 0 {
            v.baseline
        } else {
            v.baseline.insert(rooms[selected].name@, rooms[selected].total_seen)
        },
        thread_len: match snap.thread {
            Some(t) => t.items@.len() as int,
            None => 0,
        },
        ..v
    }
}

/// What is remembered after a key, and whether it ends the dashboard. Keys move the selection
/// round the list of rooms, or scroll the thread of the room that is looked into.
pub open spec fn after_key(v: ViewData, key: Key, snap: Snapshot) -> (ViewData, bool) {
    let rooms = snap.rooms@;
    match key {
        Key::Quit => (v, true),
        Key::Escape => if v.focused is Some {
            (ViewData { focused: None, thread_backscroll: 0, ..v }, false)
        } else {
            (v, true)
        },
        Key::Enter => if v.focused is None && 0 <= v.selected < rooms.len() {
            (
                ViewData {
                    focused: Some(rooms[v.selected].name@),
                    thread_backscroll: 0,
                    ..v
                },
                false,
            )
        } else {
            (v, false)
        },
        Key::Down => if v.focused is Some {
            (
                ViewData {
                    thread_backscroll: if v.thread_backscroll > 0 {
                        v.thread_backscroll - 1
                    } else {
                        0
                    },
                    ..v
                },
                false,
            )
        } else if rooms.len() == 0 {
            (v, false)
        } else {
            (ViewData { selected: (v.selected + 1) % (rooms.len() as int), ..v }, false)
        },
        Key::Up => if v.focused is Some {
            let most = if v.thread_len > 0 {
                v.thread_len - 1
            } else {
                0
            };
            (
                ViewData {
                    thread_backscroll: if v.thread_backscroll + 1 < most {
                        v.thread_backscroll + 1
                    } else {
                        most
                    },
                    ..v
                },
                false,
            )
        } else if rooms.len() == 0 {
            (v, false)
        } else {
            (
                ViewData {
                    selected: if v.selected == 0 {
                        rooms.len() - 1
                    } else {
                        v.selected - 1
                    },
                    ..v
                },
                false,
            )
        },
        Key::Other => (v, false),
    }
}

/// A room has messages that came after it was last looked at.
pub open spec fn unseen(v: ViewData, room: RoomInfo) -> bool {
    room.total_seen > (if v.baseline.contains_key(room.name) {
        v.baseline[room.name] as int
    } else {
        0
    })
}

impl ViewState {
    /// The first room is selected, and none is looked into.
    pub fn new() -> (r: ViewState)
        ensures
            r@ == (ViewData {
                selected: 0,
                baseline: Map::empty(),
                focused: None,
                thread_backscroll: 0,
                thread_len: 0,
            }),
    {
        ViewState {
            selected: 0,
            baseline: StringHashMap::new(),
            focused: None,
            thread_backscroll: 0,
            thread_len: 0,
        }
    }

    /// The selected room.
    pub fn selected(&self) -> (r: usize)
        ensures
            r == self@.selected,
    {
        self.selected
    }

    /// The room that is looked into.
    pub fn focused(&self) -> (r: &Option<String>)
        ensures
            opt_text(*r) == self@.focused,
    {
        &self.focused
    }

    /// How far the thread is scrolled back.
    pub fn backscroll(&self) -> (r: usize)
        ensures
            r == self@.thread_backscroll,
    {
        self.thread_backscroll
    }

    /// Takes a look at what is about to be shown.
    pub fn note_frame(&mut self, snap: &Snapshot)
        ensures
            final(self)@ == after_frame(old(self)@, *snap),
    {
        if snap.rooms.len() == 0 {
            self.selected = 0;
        } else {
            if self.selected >= snap.rooms.len() {
                self.selected = snap.rooms.len() - 1;
            }
            let room = &snap.rooms[self.selected];
            self.baseline.insert(copy(room.name.as_str()), room.total_seen);
        }
        self.thread_len = match &snap.thread {
            Some(t) => t.items.len(),
            None => 0,
        };
    }

    /// Whether a room has messages that came after it was last looked at.
    pub fn is_unread(&self, room: &RoomView) -> (r: bool)
        ensures
            r == unseen(self@, room@),
    {
        let seen: u64 = match self.baseline.get(room.name.as_str()) {
            Some(n) => *n,
            None => 0,
        };
        room.total_seen > seen
    }

    /// Does what a key says; `true` ends the dashboard.
    pub fn press(&mut self, key: Key, snap: &Snapshot) -> (r: bool)
        requires
            old(self)@.selected < usize::MAX,
        ensures
            (final(self)@, r) == after_key(old(self)@, key, *snap),
    {
        match key {
            Key::Quit => true,
            Key::Escape => {
                if self.focused.is_some() {
                    self.focused = None;
                    self.thread_backscroll = 0;
                    false
                } else {
                    true
                }
            },
            Key::Enter => {
                if self.focused.is_none() && self.selected < snap.rooms.len() {
                    self.focused = Some(copy(snap.rooms[self.selected].name.as_str()));
                    self.thread_backscroll = 0;
                }
                false
            },
            Key::Down => {
                if self.focused.is_some() {
                    if self.thread_backscroll > 0 {
                        self.thread_backscroll = self.thread_backscroll - 1;
                    }
                } else if snap.rooms.len() > 0 {
                    self.selected = (self.selected + 1) % snap.rooms.len();
                }
                false
            },
            Key::Up => {
                if self.focused.is_some() {
                    let most: usize = if self.thread_len > 0 {
                        self.thread_len - 1
                    } else {
                        0
                    };
                    if self.thread_backscroll < most {
                        self.thread_backscroll = self.thread_backscroll + 1;
                    } else {
                        self.thread_backscroll = most;
                    }
                } else if snap.rooms.len() > 0 {
                    self.selected = if self.selected == 0 {
                        snap.rooms.len() - 1
                    } else {
                        self.selected - 1
                    };
                }
                false
            },
            Key::Other => false,
        }
    }
}

/// After a frame the selection is in the list of rooms, if there are any, and keys keep it
/// there.
pub proof fn law_selection_stays_in_list(v: ViewData, key: Key, snap: Snapshot)
    requires
        snap.rooms@.len() > 0,
        0 <= v.selected,
    ensures
        0 <= after_frame(v, snap).selected < snap.rooms@.len(),
        0 <= after_key(after_frame(v, snap), key, snap).0.selected < snap.rooms@.len(),
{
}

/// While no room is looked into, the two keys that move the selection undo each other, around
/// both ends of the list. Without rooms neither does anything.
pub proof fn law_selection_keys_undo(v: ViewData, snap: Snapshot)
    requires
        v.focused is None,
        snap.rooms@.len() > 0 ==> 0 <= v.selected < snap.rooms@.len(),
    ensures
        after_key(after_key(v, Key::Down, snap).0, Key::Up, snap) == (v, false),
        after_key(after_key(v, Key::Up, snap).0, Key::Down, snap) == (v, false),
        snap.rooms@.len() == 0 ==> after_key(v, Key::Down, snap) == (v, false) && after_key(
            v,
            Key::Up,
            snap,
        ) == (v, false),
{
    let n = snap.rooms@.len();
    if n > 0 {
        vstd::arithmetic::div_mod::lemma_mod_self_0(n as int);
        vstd::arithmetic::div_mod::lemma_small_mod(v.selected as nat, n);
        if v.selected + 1 < n {
            vstd::arithmetic::div_mod::lemma_small_mod((v.selected + 1) as nat, n);
        }
    }
}

/// A room that is selected when a frame is shown has nothing unread in it.
pub proof fn law_selected_room_is_read(v: ViewData, snap: Snapshot)
    requires
        snap.rooms@.len() > 0,
        0 <= v.selected,
    ensures
        !unseen(
            after_frame(v, snap),
            room_infos(snap.rooms@)[after_frame(v, snap).selected],
        ),
{
}

} // verus!
