//! Server-sent events: the text of a block, and a reader that takes the stream in
//! pieces of any size and hands out one block at a time.
//!
//! A block is a run of non-empty lines ended by an empty one. It is either a frame
//! (`event:`, `id:` and `data:` fields) or a bare comment (`: ready`, `: keepalive`).
//! A frame's id is the composite cursor `<msgSeq>:<evtSeq>`.

use crate::names::lemma_names;
use crate::number::{decimal, decimal_i64, i64_value, parse_i64};
use crate::text::{
    chars_of, copy, first_of, join, joined, lemma_first_of, lemma_first_of_bounds, opt_text, same,
    split_once, split_once_char, text_range, texts,
};
use vstd::prelude::*;
use vstd::utf8::{decode_utf8, valid_utf8};

verus! {

/// What `String::from_utf8_lossy` makes of bytes that are not valid UTF-8.
pub uninterp spec fn utf8_replaced(bytes: Seq<u8>) -> Seq<char>;

/// The characters that bytes stand for; invalid sequences are replaced.
pub open spec fn lossy(bytes: Seq<u8>) -> Seq<char> {
    if valid_utf8(bytes) {
        decode_utf8(bytes)
    } else {
        utf8_replaced(bytes)
    }
}

/// `String::from_utf8_lossy`: valid UTF-8 is decoded; of other bytes the result is a
/// function of the bytes alone.
#[verifier::external_body]
pub(crate) fn lossy_text(bytes: &[u8]) -> (r: String)
    ensures
        r@ == (if valid_utf8(bytes@) {
            decode_utf8(bytes@)
        } else {
            utf8_replaced(bytes@)
        }),
{
    String::from_utf8_lossy(bytes).into_owned()
}

/// One parsed block, as characters.
pub enum EventData {
    Frame { event: Seq<char>, id: Option<Seq<char>>, data: Seq<char> },
    Comment(Seq<char>),
}

/// One parsed SSE block: either a named frame (`event:`/`id:`/`data:` fields) or a bare
/// comment (`: ready`, `: keepalive`) with no fields at all.
#[derive(Debug, Clone, PartialEq, Eq)]
pub enum SseEvent {
    Frame { event: String, id: Option<String>, data: String },
    Comment(String),
}

impl View for SseEvent {
    type V = EventData;

    open spec fn view(&self) -> EventData {
        match *self {
            SseEvent::Frame { event, id, data } => EventData::Frame {
                event: event@,
                id: opt_text(id),
                data: data@,
            },
            SseEvent::Comment(c) => EventData::Comment(c@),
        }
    }
}

/// `s` without one leading space.
pub open spec fn unspaced(s: Seq<char>) -> Seq<char> {
    if s.len() > 0 && s[0] == ' ' {
        s.skip(1)
    } else {
        s
    }
}

/// A line that begins with a colon is a comment.
pub open spec fn is_comment(line: Seq<char>) -> bool {
    line.len() > 0 && line[0] == ':'
}

/// The name of the field that a line sets: what stands before the first colon.
pub open spec fn field_name(line: Seq<char>) -> Seq<char> {
    line.take(first_of(line, ':'))
}

/// The value that a line gives its field: what follows the colon and one space.
pub open spec fn field_value(line: Seq<char>) -> Seq<char> {
    let i = first_of(line, ':');
    if i < line.len() {
        unspaced(line.skip(i + 1))
    } else {
        Seq::empty()
    }
}

/// The texts of the comment lines, in order.
pub open spec fn comments(lines: Seq<Seq<char>>) -> Seq<Seq<char>>
    decreases lines.len(),
{
    if lines.len() == 0 {
        Seq::empty()
    } else if is_comment(lines.last()) {
        comments(lines.drop_last()).push(unspaced(lines.last().skip(1)))
    } else {
        comments(lines.drop_last())
    }
}

/// The values that the lines give the field `name`, in order.
pub open spec fn values(lines: Seq<Seq<char>>, name: Seq<char>) -> Seq<Seq<char>>
    decreases lines.len(),
{
    if lines.len() == 0 {
        Seq::empty()
    } else if !is_comment(lines.last()) && field_name(lines.last()) == name {
        values(lines.drop_last(), name).push(field_value(lines.last()))
    } else {
        values(lines.drop_last(), name)
    }
}

/// The block that non-empty lines make: a comment if all of them are comments, else a
/// frame with the last event name (by default `message`), the last id and all data.
pub open spec fn block(lines: Seq<Seq<char>>) -> EventData {
    if forall|i: int| 0 <= i < lines.len() ==> is_comment(#[trigger] lines[i]) {
        EventData::Comment(joined(comments(lines), "\n"@))
    } else {
        let events = values(lines, "event"@);
        let ids = values(lines, "id"@);
        EventData::Frame {
            event: if events.len() > 0 {
                events.last()
            } else {
                "message"@
            },
            id: if ids.len() > 0 {
                Some(ids.last())
            } else {
                None
            },
            data: joined(values(lines, "data"@), "\n"@),
        }
    }
}

/// The text of a line without its line feed: one trailing carriage return is dropped.
pub open spec fn line_text(raw: Seq<u8>) -> Seq<char> {
    if raw.len() > 0 && raw.last() == 13 {
        lossy(raw.drop_last())
    } else {
        lossy(raw)
    }
}

/// What a reader holds: the lines of the block begun, and the bytes not yet read.
pub struct ReaderState {
    pub lines: Seq<Seq<char>>,
    pub buf: Seq<u8>,
}

/// The next complete block in what a reader holds, and what it holds then.
pub open spec fn next_block(s: ReaderState) -> (Option<EventData>, ReaderState)
    decreases s.buf.len(),
{
    let nl = first_of(s.buf, 10u8);
    if 0 <= nl < s.buf.len() {
        let line = line_text(s.buf.take(nl));
        let rest = s.buf.skip(nl + 1);
        if line.len() > 0 {
            next_block(ReaderState { lines: s.lines.push(line), buf: rest })
        } else if s.lines.len() == 0 {
            next_block(ReaderState { lines: s.lines, buf: rest })
        } else {
            (Some(block(s.lines)), ReaderState { lines: Seq::empty(), buf: rest })
        }
    } else {
        (None, s)
    }
}

/// All complete blocks in what a reader holds, and what it holds then.
pub open spec fn drain(s: ReaderState) -> (Seq<EventData>, ReaderState)
    decreases s.buf.len(),
{
    let nl = first_of(s.buf, 10u8);
    if 0 <= nl < s.buf.len() {
        let line = line_text(s.buf.take(nl));
        let rest = s.buf.skip(nl + 1);
        if line.len() > 0 {
            drain(ReaderState { lines: s.lines.push(line), buf: rest })
        } else if s.lines.len() == 0 {
            drain(ReaderState { lines: s.lines, buf: rest })
        } else {
            let r = drain(ReaderState { lines: Seq::empty(), buf: rest });
            (seq![block(s.lines)] + r.0, r.1)
        }
    } else {
        (Seq::empty(), s)
    }
}

/// The state with `bytes` behind the bytes not yet read.
pub open spec fn fed(s: ReaderState, bytes: Seq<u8>) -> ReaderState {
    ReaderState { lines: s.lines, buf: s.buf + bytes }
}

/// The state of a reader that has seen nothing.
pub open spec fn fresh() -> ReaderState {
    ReaderState { lines: Seq::empty(), buf: Seq::empty() }
}

/// The pieces put together.
pub open spec fn whole(pieces: Seq<Seq<u8>>) -> Seq<u8>
    decreases pieces.len(),
{
    if pieces.len() == 0 {
        Seq::empty()
    } else {
        whole(pieces.drop_last()) + pieces.last()
    }
}

/// The blocks that come out when the pieces arrive one by one and all complete blocks
/// are taken out after each piece.
pub open spec fn arrive(s: ReaderState, pieces: Seq<Seq<u8>>) -> (Seq<EventData>, ReaderState)
    decreases pieces.len(),
{
    if pieces.len() == 0 {
        (Seq::empty(), s)
    } else {
        let before = arrive(s, pieces.drop_last());
        let now = drain(fed(before.1, pieces.last()));
        (before.0 + now.0, now.1)
    }
}

/// Taking out one block after the other yields what `drain` says.
pub proof fn law_blocks_in_order(s: ReaderState)
    ensures
        match next_block(s) {
            (Some(e), t) => t.buf.len() < s.buf.len() && drain(s).0 =~= seq![e] + drain(t).0
                && drain(s).1 == drain(t).1,
            (None, t) => drain(s).0 =~= Seq::<EventData>::empty() && drain(s).1 == t && next_block(t)
                == (None::<EventData>, t),
        },
    decreases s.buf.len(),
{
    let nl = first_of(s.buf, 10u8);
    if 0 <= nl < s.buf.len() {
        let line = line_text(s.buf.take(nl));
        let rest = s.buf.skip(nl + 1);
        if line.len() > 0 {
            law_blocks_in_order(ReaderState { lines: s.lines.push(line), buf: rest });
        } else if s.lines.len() == 0 {
            law_blocks_in_order(ReaderState { lines: s.lines, buf: rest });
        }
    }
}

/// Bytes that arrive later change nothing of what came out before: reading the whole is
/// reading the first part and then the rest.
pub proof fn law_split_anywhere(s: ReaderState, more: Seq<u8>)
    ensures
        drain(fed(s, more)).0 =~= drain(s).0 + drain(fed(drain(s).1, more)).0,
        drain(fed(s, more)).1 == drain(fed(drain(s).1, more)).1,
    decreases s.buf.len(),
{
    let nl = first_of(s.buf, 10u8);
    lemma_first_of_bounds(s.buf, 10u8);
    if nl < s.buf.len() {
        let all = s.buf + more;
        assert(all[nl] == 10u8);
        lemma_first_of(all, 10u8, nl);
        let line = line_text(s.buf.take(nl));
        let rest = s.buf.skip(nl + 1);
        assert(all.take(nl) =~= s.buf.take(nl));
        assert(all.skip(nl + 1) =~= rest + more);
        let next = if line.len() > 0 {
            ReaderState { lines: s.lines.push(line), buf: rest }
        } else {
            ReaderState { lines: Seq::empty(), buf: rest }
        };
        if line.len() == 0 && s.lines.len() == 0 {
            assert(s.lines =~= Seq::<Seq<char>>::empty());
        }
        law_split_anywhere(next, more);
        assert(fed(next, more).buf =~= all.skip(nl + 1));
    }
}

/// However the stream is cut into pieces, the same blocks come out in the same order.
pub proof fn law_fragmentation(s: ReaderState, pieces: Seq<Seq<u8>>)
    requires
        drain(s).0.len() == 0,
        drain(s).1 == s,
    ensures
        arrive(s, pieces).0 =~= drain(fed(s, whole(pieces))).0,
        arrive(s, pieces).1 == drain(fed(s, whole(pieces))).1,
    decreases pieces.len(),
{
    if pieces.len() == 0 {
        assert(s.buf + whole(pieces) =~= s.buf);
    } else {
        law_fragmentation(s, pieces.drop_last());
        let first = fed(s, whole(pieces.drop_last()));
        law_split_anywhere(first, pieces.last());
        assert(fed(first, pieces.last()).buf =~= s.buf + whole(pieces));
    }
}

proof fn lemma_names_differ()
    ensures
        "event"@ != "id"@,
        "event"@ != "data"@,
        "id"@ != "data"@,
{
    reveal_strlit("event");
    reveal_strlit("id");
    reveal_strlit("data");
    assert("event"@.len() == 5 && "id"@.len() == 2 && "data"@.len() == 4);
}

/// Turns a block's lines into a frame or a comment. A block with only comment lines is a
/// `Comment`; any other line makes it a `Frame`, and unknown fields are ignored.
pub fn parse_block(lines: &[String]) -> (r: SseEvent)
    ensures
        r@ == block(texts(lines@)),
{
    let mut event = copy("message");
    let mut id: Option<String> = None;
    let mut data_parts: Vec<String> = Vec::new();
    let mut comment_parts: Vec<String> = Vec::new();
    let mut has_field = false;
    let ghost all = texts(lines@);
    proof {
        lemma_names_differ();
        assert(texts(data_parts@) =~= Seq::<Seq<char>>::empty());
    }
    for i in 0..lines.len()
        invariant
            all == texts(lines@),
            "event"@ != "id"@ && "event"@ != "data"@ && "id"@ != "data"@,
            texts(comment_parts@) == comments(all.take(i as int)),
            texts(data_parts@) == values(all.take(i as int), "data"@),
            event@ == (if values(all.take(i as int), "event"@).len() > 0 {
                values(all.take(i as int), "event"@).last()
            } else {
                "message"@
            }),
            opt_text(id) == (if values(all.take(i as int), "id"@).len() > 0 {
                Some(values(all.take(i as int), "id"@).last())
            } else {
                None
            }),
            has_field == !(forall|j: int| 0 <= j < i ==> is_comment(#[trigger] all[j])),
    {
        let ghost before = all.take(i as int);
        let ghost now = all.take(i + 1);
        let cs = chars_of(lines[i].as_str());
        let ghost line = cs@;
        proof {
            assert(now.drop_last() =~= before);
            assert(now.last() == line);
            assert(all[i as int] == line);
        }
        if cs.len() > 0 && cs[0] == ':' {
            let from: usize = if cs.len() > 1 && cs[1] == ' ' {
                2
            } else {
                1
            };
            let part = text_range(cs.as_slice(), from, cs.len());
            let ghost old_parts = texts(comment_parts@);
            assert(part@ =~= unspaced(line.skip(1)));
            comment_parts.push(part);
            assert(texts(comment_parts@) =~= old_parts.push(part@));
        } else {
            assert(!is_comment(all[i as int]));
            has_field = true;
            let (field, value) = match split_once_char(lines[i].as_str(), ':') {
                Some((f, v)) => {
                    let vs = chars_of(v.as_str());
                    let from: usize = if vs.len() > 0 && vs[0] == ' ' {
                        1
                    } else {
                        0
                    };
                    let u = text_range(vs.as_slice(), from, vs.len());
                    assert(u@ =~= unspaced(v@));
                    (f, u)
                },
                None => (copy(lines[i].as_str()), String::new()),
            };
            proof {
                lemma_first_of_bounds(line, ':');
                if first_of(line, ':') == line.len() {
                    assert(line.take(line.len() as int) =~= line);
                }
            }
            assert(field@ == field_name(line));
            assert(value@ == field_value(line));
            if same(field.as_str(), "event") {
                event = value;
            } else if same(field.as_str(), "id") {
                id = Some(value);
            } else if same(field.as_str(), "data") {
                let ghost old_parts = texts(data_parts@);
                data_parts.push(value);
                assert(texts(data_parts@) =~= old_parts.push(value@));
            }
        }
    }
    assert(all.take(lines@.len() as int) =~= all);
    if !has_field {
        return SseEvent::Comment(join(comment_parts.as_slice(), "\n"));
    }
    SseEvent::Frame { event, id, data: join(data_parts.as_slice(), "\n") }
}

/// Parser over a byte stream already stripped of HTTP chunk framing. It holds partial
/// input, so it does not matter how the stream is cut into pieces: `push` takes the next
/// piece, `next_event` hands out the next complete block. A block left partial when the
/// stream ends is never handed out.
pub struct SseReader {
    buf: Vec<u8>,
    lines: Vec<String>,
}

impl View for SseReader {
    type V = ReaderState;

    closed spec fn view(&self) -> ReaderState {
        ReaderState { lines: texts(self.lines@), buf: self.buf@ }
    }
}

impl SseReader {
    /// A reader that has seen nothing.
    pub fn new() -> (r: SseReader)
        ensures
            r@ == fresh(),
    {
        let r = SseReader { buf: Vec::new(), lines: Vec::new() };
        assert(texts(r.lines@) =~= Seq::<Seq<char>>::empty());
        r
    }

    /// Takes the next piece of the stream.
    pub fn push(&mut self, bytes: &[u8])
        ensures
            final(self)@ == fed(old(self)@, bytes@),
    {
        self.buf.extend_from_slice(bytes);
        assert(self.buf@ =~= old(self).buf@ + bytes@);
    }

    /// The next complete block, parsed; `None` when more bytes are needed first.
    pub fn next_event(&mut self) -> (r: Option<SseEvent>)
        ensures
            final(self)@ == next_block(old(self)@).1,
            match r {
                Some(e) => next_block(old(self)@).0 == Some(e@),
                None => next_block(old(self)@).0 is None,
            },
    {
        loop
            invariant
                next_block(self@) == next_block(old(self)@),
            decreases self@.buf.len(),
        {
            let ghost here = self@;
            let mut nl: usize = 0;
            while nl < self.buf.len() && self.buf[nl] != 10
                invariant
                    nl <= self.buf@.len(),
                    forall|j: int| 0 <= j < nl ==> self.buf@[j] != 10u8,
                decreases self.buf@.len() - nl,
            {
                nl += 1;
            }
            proof {
                lemma_first_of(self.buf@, 10u8, nl as int);
            }
            if nl == self.buf.len() {
                return None;
            }
            let rest = self.buf.split_off(nl + 1);
            let mut end: usize = nl;
            if end > 0 && self.buf[end - 1] == 13 {
                end -= 1;
            }
            let line = lossy_text(vstd::slice::slice_subrange(self.buf.as_slice(), 0, end));
            proof {
                let raw = here.buf.take(nl as int);
                assert(self.buf@.subrange(0, end as int) =~= (if raw.len() > 0 && raw.last() == 13 {
                    raw.drop_last()
                } else {
                    raw
                }));
                assert(rest@ =~= here.buf.skip(nl + 1));
            }
            self.buf = rest;
            if line.as_str().is_empty() {
                if self.lines.len() > 0 {
                    let mut taken: Vec<String> = Vec::new();
                    std::mem::swap(&mut taken, &mut self.lines);
                    assert(texts(self.lines@) =~= Seq::<Seq<char>>::empty());
                    return Some(parse_block(taken.as_slice()));
                }
            } else {
                self.lines.push(line);
                assert(texts(self.lines@) =~= here.lines.push(line@));
            }
        }
    }
}

/// The composite cursor `<msgSeq>:<evtSeq>`.
pub open spec fn since_text(msg_seq: int, evt_seq: int) -> Seq<char> {
    decimal(msg_seq) + seq![':'] + decimal(evt_seq)
}

/// The two marks of a composite cursor, if it is well formed.
pub open spec fn since_value(s: Seq<char>) -> Option<(int, int)> {
    match split_once(s, ':') {
        Some((m, e)) => match (i64_value(m), i64_value(e)) {
            (Some(a), Some(b)) => Some((a, b)),
            _ => None,
        },
        None => None,
    }
}

/// Build the composite Last-Event-ID / `since` cursor `<msgSeq>:<evtSeq>`.
pub fn since_str(msg_seq: i64, evt_seq: i64) -> (r: String)
    ensures
        r@ == since_text(msg_seq as int, evt_seq as int),
{
    let mut s = decimal_i64(msg_seq);
    s.push(':');
    s.append(decimal_i64(evt_seq).as_str());
    assert(s@ =~= since_text(msg_seq as int, evt_seq as int));
    s
}

/// Split a composite cursor `<msgSeq>:<evtSeq>` back into its two independent marks.
/// `None` if malformed.
pub fn parse_since(s: &str) -> (r: Option<(i64, i64)>)
    ensures
        match r {
            Some((m, e)) => since_value(s@) == Some((m as int, e as int)),
            None => since_value(s@) is None,
        },
{
    match split_once_char(s, ':') {
        Some((m, e)) => match (parse_i64(m.as_str()), parse_i64(e.as_str())) {
            (Some(a), Some(b)) => Some((a, b)),
            _ => None,
        },
        None => None,
    }
}

/// A cursor reads back as the two marks that it was built from.
pub proof fn law_since_roundtrip(msg_seq: i64, evt_seq: i64)
    ensures
        since_value(since_text(msg_seq as int, evt_seq as int)) == Some(
            (msg_seq as int, evt_seq as int),
        ),
{
    let m = decimal(msg_seq as int);
    let e = decimal(evt_seq as int);
    let s = since_text(msg_seq as int, evt_seq as int);
    crate::number::lemma_decimal_chars(msg_seq as int);
    assert forall|j: int| 0 <= j < m.len() implies s[j] != ':' by {
        assert(s[j] == m[j]);
    }
    assert(s[m.len() as int] == ':');
    lemma_first_of(s, ':', m.len() as int);
    assert(s.take(m.len() as int) =~= m);
    assert(s.skip(m.len() as int + 1) =~= e);
    crate::number::lemma_decimal_roundtrip(msg_seq as int);
    crate::number::lemma_decimal_roundtrip(evt_seq as int);
}

/// A line sets the field that stands before its first colon to what follows, without one leading
/// space; a line without a colon sets the field of its own name to nothing.
pub proof fn law_field_lines(name: Seq<char>, v: Seq<char>)
    requires
        name.len() > 0,
        !name.contains(':'),
    ensures
        ({
            let spaced = name + seq![':', ' '] + v;
            &&& !is_comment(spaced) && field_name(spaced) == name && field_value(spaced) == v
        }),
        v.len() == 0 || v[0] != ' ' ==> {
            let close = name + seq![':'] + v;
            &&& !is_comment(close) && field_name(close) == name && field_value(close) == v
        },
        !is_comment(name) && field_name(name) == name && field_value(name).len() == 0,
{
    let spaced = name + seq![':', ' '] + v;
    let close = name + seq![':'] + v;
    assert forall|j: int| 0 <= j < name.len() implies name[j] != ':' by {
        assert(name.contains(name[j]));
    }
    let n = name.len() as int;
    lemma_first_of(spaced, ':', n);
    lemma_first_of(close, ':', n);
    lemma_first_of(name, ':', n);
    assert(spaced.take(n) =~= name);
    assert(close.take(n) =~= name);
    assert(name.take(n) =~= name);
    assert(spaced.skip(n + 1) =~= seq![' '] + v);
    assert((seq![' '] + v).skip(1) =~= v);
    assert(close.skip(n + 1) =~= v);
    assert(spaced[0] == name[0] && close[0] == name[0]);
}

/// A block is a comment exactly if all of its lines begin with a colon.
pub proof fn law_comment_blocks(lines: Seq<Seq<char>>)
    ensures
        block(lines) is Comment <==> forall|i: int|
            0 <= i < lines.len() ==> (#[trigger] lines[i]).len() > 0 && lines[i][0] == ':',
{
}

/// The texts of comment lines, without the colon and one space, make one comment, with line feeds
/// between them.
pub proof fn law_comment_text(texts: Seq<Seq<char>>)
    ensures
        block(Seq::new(texts.len(), |i: int| seq![':', ' '] + texts[i])) == EventData::Comment(
            joined(texts, "\n"@),
        ),
    decreases texts.len(),
{
    let lines = Seq::new(texts.len(), |i: int| seq![':', ' '] + texts[i]);
    lemma_comment_texts(texts);
    assert forall|i: int| 0 <= i < lines.len() implies is_comment(#[trigger] lines[i]) by {}
}

proof fn lemma_comment_texts(texts: Seq<Seq<char>>)
    ensures
        comments(Seq::new(texts.len(), |i: int| seq![':', ' '] + texts[i])) == texts,
    decreases texts.len(),
{
    let lines = Seq::new(texts.len(), |i: int| seq![':', ' '] + texts[i]);
    if texts.len() == 0 {
        assert(comments(lines) =~= texts);
    } else {
        let front = texts.drop_last();
        lemma_comment_texts(front);
        assert(lines.drop_last() =~= Seq::new(front.len(), |i: int| seq![':', ' '] + front[i]));
        let l = lines.last();
        assert(l =~= seq![':', ' '] + texts.last());
        assert(l.skip(1) =~= seq![' '] + texts.last());
        assert((seq![' '] + texts.last()).skip(1) =~= texts.last());
        assert(texts =~= front.push(texts.last()));
    }
}

/// One more line of a frame. The last event name and the last id count; data lines are put
/// together with line feeds between them; comments and other fields do not count. A frame without
/// an event name is a message.
pub proof fn law_one_more_line(lines: Seq<Seq<char>>, name: Seq<char>, v: Seq<char>)
    requires
        block(lines) is Frame,
        name.len() > 0,
        !name.contains(':'),
    ensures
        ({
            let before = block(lines);
            let after = block(lines.push(name + seq![':', ' '] + v));
            &&& after is Frame
            &&& name == "event"@ ==> after->event == v && after->id == before->id
                && after->data == before->data
            &&& name == "id"@ ==> after->event == before->event && after->id == Some(v)
                && after->data == before->data
            &&& name == "data"@ ==> after->event == before->event && after->id == before->id && (
            before->data.len() > 0 ==> after->data == before->data + "\n"@ + v) && (after->data == v
                || after->data == before->data + "\n"@ + v)
            &&& name != "event"@ && name != "id"@ && name != "data"@ ==> after == before
            &&& block(lines.push(seq![':'] + v)) == before
        }),
{
    lemma_names();
    let l = name + seq![':', ' '] + v;
    let c = seq![':'] + v;
    law_field_lines(name, v);
    reveal_strlit("data");
    let k = choose|k: int| 0 <= k < lines.len() && !is_comment(#[trigger] lines[k]);
    assert(lines.push(l)[k] == lines[k]);
    assert(lines.push(c)[k] == lines[k]);
    assert(lines.push(l).drop_last() =~= lines);
    assert(lines.push(c).drop_last() =~= lines);
    assert(is_comment(c));
    let had = values(lines, "data"@);
    assert(had.push(v).drop_last() =~= had);
    assert("event"@ != "data"@ && "event"@ != "id"@ && "id"@ != "data"@) by {
        reveal_strlit("event");
        reveal_strlit("id");
        assert("event"@.len() == 5 && "id"@.len() == 2 && "data"@.len() == 4);
    }
}

/// A block that is one line of data is a message without an id.
pub proof fn law_plain_data_is_a_message(v: Seq<char>)
    ensures
        block(seq!["data"@ + seq![':', ' '] + v]) == (EventData::Frame {
            event: "message"@,
            id: None,
            data: v,
        }),
{
    reveal_strlit("data");
    reveal_strlit("event");
    reveal_strlit("id");
    assert("event"@.len() == 5 && "id"@.len() == 2 && "data"@.len() == 4);
    assert(!"data"@.contains(':'));
    law_field_lines("data"@, v);
    let l = "data"@ + seq![':', ' '] + v;
    let lines = seq![l];
    assert(lines.drop_last() =~= Seq::<Seq<char>>::empty());
    assert(lines.last() == l && lines[0] == l);
    reveal_with_fuel(values, 2);
    assert(values(lines, "data"@) =~= seq![v]);
}

/// A line may end in a carriage return, which is no part of it; empty lines before a block do not
/// count.
pub proof fn law_line_ends(raw: Seq<u8>, s: ReaderState, rest: Seq<u8>)
    requires
        raw.len() == 0 || raw.last() != 13,
        s.lines.len() == 0,
        s.buf == seq![10u8] + rest,
    ensures
        line_text(raw.push(13u8)) == line_text(raw),
        drain(s) == drain(ReaderState { lines: s.lines, buf: rest }),
{
    assert(raw.push(13u8).drop_last() =~= raw);
    lemma_first_of(s.buf, 10u8, 0);
    assert(s.buf.take(0) =~= Seq::<u8>::empty());
    assert(s.buf.skip(1) =~= rest);
}

/// A cursor is written as the number of the message, a colon, and the number of the event. A text
/// without a colon is none.
pub proof fn law_cursor_is_message_then_event(msg_seq: i64, evt_seq: i64, s: Seq<char>)
    ensures
        ({
            let m = decimal(msg_seq as int);
            let e = decimal(evt_seq as int);
            let id = since_text(msg_seq as int, evt_seq as int);
            &&& id.len() == m.len() + 1 + e.len()
            &&& id.take(m.len() as int) == m
            &&& id[m.len() as int] == ':'
            &&& id.skip(m.len() as int + 1) == e
        }),
        !s.contains(':') ==> since_value(s) is None,
{
    let m = decimal(msg_seq as int);
    let e = decimal(evt_seq as int);
    let id = since_text(msg_seq as int, evt_seq as int);
    assert(id.take(m.len() as int) =~= m);
    assert(id.skip(m.len() as int + 1) =~= e);
    if !s.contains(':') {
        assert forall|j: int| 0 <= j < s.len() implies s[j] != ':' by {
            assert(s.contains(s[j]));
        }
        lemma_first_of(s, ':', s.len() as int);
    }
}

} // verus!
