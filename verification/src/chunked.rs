//! HTTP/1.1 chunked transfer coding: a decoder that takes the stream in pieces of any
//! size, and the encoding of one chunk.

use crate::number::{hexadecimal, hexadecimal_u64, parse_unsigned, unsigned_value};
use crate::sse::{lossy, lossy_text, whole};
use crate::text::{chars_of, find_char, first_of, text_range, trim, trimmed};
use vstd::prelude::*;
use vstd::utf8::encode_utf8;

verus! {

/// What a decoder expects next.
#[derive(Debug, Clone, Copy, PartialEq, Eq, Structural)]
pub enum Phase {
    /// A chunk's size line.
    Size,
    /// The bytes of a chunk.
    Body,
    /// The line end behind the bytes of a chunk.
    Gap,
    /// The trailer lines behind the last chunk.
    Trailer,
    /// Nothing: the body is complete, and what follows it is the caller's.
    Done,
    /// To be told to go on: a size line was not a number.
    Bad,
}

/// What a decoder holds: the line begun, and how many bytes of the chunk, or of the line
/// end behind it, are still to come. Behind a bad size line it holds what came after that line, and
/// behind the body what came after the body.
pub struct ChunkState {
    pub phase: Phase,
    pub line: Seq<u8>,
    pub remaining: int,
}

/// The size that a size line announces: hexadecimal, up to the first semicolon.
pub open spec fn chunk_size(line: Seq<u8>) -> Option<int> {
    let t = lossy(line);
    unsigned_value(trimmed(t.take(first_of(t, ';'))), 16, usize::MAX as int)
}

/// A decoder that has seen nothing, or only complete chunks.
pub open spec fn between_chunks() -> ChunkState {
    ChunkState { phase: Phase::Size, line: Seq::empty(), remaining: 0 }
}

/// The state after a complete size line.
pub open spec fn after_size(line: Seq<u8>) -> ChunkState {
    match chunk_size(line) {
        None => ChunkState { phase: Phase::Bad, line: Seq::empty(), remaining: 0 },
        Some(n) => if n == 0 {
            ChunkState { phase: Phase::Trailer, line: Seq::empty(), remaining: 0 }
        } else {
            ChunkState { phase: Phase::Body, line: Seq::empty(), remaining: n }
        },
    }
}

/// What one byte does: the next state, and the body byte that comes out, if any.
pub open spec fn step(s: ChunkState, b: u8) -> (ChunkState, Option<u8>) {
    match s.phase {
        Phase::Size => if b == 10 {
            (after_size(s.line), None)
        } else if b == 13 {
            (s, None)
        } else {
            (ChunkState { line: s.line.push(b), ..s }, None)
        },
        Phase::Body => if s.remaining <= 1 {
            (ChunkState { phase: Phase::Gap, line: s.line, remaining: 2 }, Some(b))
        } else {
            (ChunkState { remaining: s.remaining - 1, ..s }, Some(b))
        },
        Phase::Gap => if s.remaining <= 1 {
            (ChunkState { phase: Phase::Size, line: s.line, remaining: 0 }, None)
        } else {
            (ChunkState { remaining: s.remaining - 1, ..s }, None)
        },
        Phase::Trailer => if b == 10 {
            if s.line.len() == 0 {
                (ChunkState { phase: Phase::Done, ..s }, None)
            } else {
                (ChunkState { line: Seq::empty(), ..s }, None)
            }
        } else if b == 13 {
            (s, None)
        } else {
            (ChunkState { line: s.line.push(b), ..s }, None)
        },
        Phase::Done => (ChunkState { line: s.line.push(b), ..s }, None),
        Phase::Bad => (ChunkState { line: s.line.push(b), ..s }, None),
    }
}

/// What a run of bytes does: the state after it, and the body bytes that come out.
pub open spec fn decode(s: ChunkState, bytes: Seq<u8>) -> (ChunkState, Seq<u8>)
    decreases bytes.len(),
{
    if bytes.len() == 0 {
        (s, Seq::empty())
    } else {
        let before = decode(s, bytes.drop_last());
        let now = step(before.0, bytes.last());
        match now.1 {
            Some(b) => (now.0, before.1.push(b)),
            None => (now.0, before.1),
        }
    }
}

/// Going on behind a bad size line: what came after it is read as the next size line and what
/// follows.
pub open spec fn resumed(s: ChunkState) -> (ChunkState, Seq<u8>) {
    if s.phase == Phase::Bad {
        decode(between_chunks(), s.line)
    } else {
        (s, Seq::empty())
    }
}

/// What came behind the body, which is no part of it.
pub open spec fn behind_body(s: ChunkState) -> Seq<u8> {
    if s.phase == Phase::Done {
        s.line
    } else {
        Seq::empty()
    }
}

/// A stream that ends here is broken: in or behind a size line that is no number, or behind the
/// bytes of a chunk, where the next size line is missing.
pub open spec fn cut_short(s: ChunkState) -> bool {
    s.phase == Phase::Bad || s.phase == Phase::Gap || (s.phase == Phase::Size && chunk_size(s.line)
        is None)
}

/// One chunk on the wire: its size in hexadecimal, its bytes, and the line ends.
pub open spec fn chunk_bytes(data: Seq<u8>) -> Seq<u8> {
    encode_utf8(hexadecimal(data.len() as int)) + seq![13u8, 10u8] + data + seq![13u8, 10u8]
}

/// Decoding the whole is decoding the first part and then the rest: it does not matter
/// how the stream is cut into pieces.
pub proof fn law_decode_split(s: ChunkState, a: Seq<u8>, b: Seq<u8>)
    ensures
        decode(s, a + b).0 == decode(decode(s, a).0, b).0,
        decode(s, a + b).1 =~= decode(s, a).1 + decode(decode(s, a).0, b).1,
    decreases b.len(),
{
    if b.len() == 0 {
        assert(a + b =~= a);
    } else {
        law_decode_split(s, a, b.drop_last());
        assert((a + b).drop_last() =~= a + b.drop_last());
        assert((a + b).last() == b.last());
    }
}

/// Bytes of a line gather until its line feed.
proof fn lemma_line_gathers(s: ChunkState, bytes: Seq<u8>)
    requires
        s.phase == Phase::Size,
        forall|i: int| 0 <= i < bytes.len() ==> bytes[i] != 10 && bytes[i] != 13,
    ensures
        decode(s, bytes).0 == (ChunkState { line: s.line + bytes, ..s }),
        decode(s, bytes).1 =~= Seq::<u8>::empty(),
    decreases bytes.len(),
{
    if bytes.len() == 0 {
        assert(s.line + bytes =~= s.line);
    } else {
        lemma_line_gathers(s, bytes.drop_last());
        assert((s.line + bytes.drop_last()).push(bytes.last()) =~= s.line + bytes);
    }
}

/// The bytes of a chunk come out as they went in.
proof fn lemma_body_passes(s: ChunkState, bytes: Seq<u8>)
    requires
        s.phase == Phase::Body,
        bytes.len() <= s.remaining,
        s.remaining > 0,
    ensures
        decode(s, bytes).1 =~= bytes,
        decode(s, bytes).0 == (if bytes.len() == s.remaining {
            ChunkState { phase: Phase::Gap, line: s.line, remaining: 2 }
        } else {
            ChunkState { remaining: s.remaining - bytes.len(), ..s }
        }),
    decreases bytes.len(),
{
    if bytes.len() > 0 {
        lemma_body_passes(s, bytes.drop_last());
    }
}

/// A size line that holds a number in hexadecimal announces that number.
proof fn lemma_size_line(n: int)
    requires
        0 <= n <= usize::MAX,
    ensures
        chunk_size(encode_utf8(hexadecimal(n))) == Some(n),
        forall|i: int|
            0 <= i < encode_utf8(hexadecimal(n)).len() ==> {
                let b = #[trigger] encode_utf8(hexadecimal(n))[i];
                b != 10 && b != 13
            },
{
    let t = hexadecimal(n);
    crate::number::lemma_digits_roundtrip(n, 16);
    assert(vstd::utf8::is_ascii_chars(t));
    vstd::utf8::is_ascii_chars_encode_utf8(t);
    vstd::utf8::encode_utf8_valid_utf8(t);
    vstd::utf8::encode_utf8_decode_utf8(t);
    let bytes = encode_utf8(t);
    assert forall|i: int| 0 <= i < bytes.len() implies {
        let b = #[trigger] bytes[i];
        b != 10 && b != 13
    } by {
        assert(bytes[i] == t[i] as u8);
        assert(t[i] as int >= 48);
    }
    crate::text::lemma_first_of(t, ';', t.len() as int);
    assert(t.take(t.len() as int) =~= t);
    crate::text::lemma_trimmed_id(t);
    crate::number::lemma_hexadecimal_roundtrip(n, usize::MAX as int);
}

/// A chunk decodes to the bytes that it was made from, and the decoder is ready for the
/// next one.
pub proof fn law_chunk_roundtrip(data: Seq<u8>)
    requires
        0 < data.len() <= usize::MAX,
    ensures
        decode(between_chunks(), chunk_bytes(data)).0 == between_chunks(),
        decode(between_chunks(), chunk_bytes(data)).1 =~= data,
{
    let n = data.len() as int;
    let head = encode_utf8(hexadecimal(n));
    let s0 = between_chunks();
    lemma_size_line(n);
    lemma_line_gathers(s0, head);
    assert(s0.line + head =~= head);
    let s1 = ChunkState { line: head, ..s0 };
    let crlf = seq![13u8, 10u8];
    lemma_two(s1, 13u8, 10u8);
    let s2 = ChunkState { phase: Phase::Body, line: Seq::empty(), remaining: n };
    law_decode_split(s0, head, crlf);
    lemma_body_passes(s2, data);
    law_decode_split(s0, head + crlf, data);
    let s3 = ChunkState { phase: Phase::Gap, line: Seq::empty(), remaining: 2 };
    lemma_two(s3, 13u8, 10u8);
    law_decode_split(s0, head + crlf + data, crlf);
    assert(decode(s0, head + crlf + data).1 =~= data);
}

/// Two bytes are two steps.
proof fn lemma_two(s: ChunkState, a: u8, b: u8)
    ensures
        decode(s, seq![a, b]).0 == step(step(s, a).0, b).0,
        step(s, a).1 is None && step(step(s, a).0, b).1 is None ==> decode(s, seq![a, b]).1
            =~= Seq::<u8>::empty(),
{
    reveal_with_fuel(decode, 3);
    assert(seq![a, b].drop_last() =~= seq![a]);
    assert(seq![a].drop_last() =~= Seq::<u8>::empty());
}

/// The empty chunk ends the body.
pub proof fn law_last_chunk_ends()
    ensures
        decode(between_chunks(), chunk_bytes(Seq::empty())).0.phase == Phase::Done,
        behind_body(decode(between_chunks(), chunk_bytes(Seq::empty())).0) =~= Seq::<u8>::empty(),
        decode(between_chunks(), chunk_bytes(Seq::empty())).1 =~= Seq::<u8>::empty(),
{
    let head = encode_utf8(hexadecimal(0));
    let s0 = between_chunks();
    let crlf = seq![13u8, 10u8];
    let none = Seq::<u8>::empty();
    lemma_size_line(0);
    lemma_line_gathers(s0, head);
    assert(s0.line + head =~= head);
    let s1 = ChunkState { line: head, ..s0 };
    lemma_two(s1, 13u8, 10u8);
    law_decode_split(s0, head, crlf);
    let s2 = ChunkState { phase: Phase::Trailer, line: Seq::empty(), remaining: 0 };
    lemma_two(s2, 13u8, 10u8);
    assert(head + crlf + none =~= head + crlf);
    law_decode_split(s0, head + crlf, crlf);
}

/// The size of a chunk is what its size line says in hexadecimal, in small or capital letters,
/// with white space around it or not; what follows a semicolon does not count.
pub proof fn law_size_lines(line: Seq<u8>, a: Seq<char>, n: int, b: Seq<char>, rest: Seq<char>)
    requires
        0 <= n <= usize::MAX,
        forall|i: int| 0 <= i < a.len() ==> crate::text::is_white(#[trigger] a[i]),
        forall|i: int| 0 <= i < b.len() ==> crate::text::is_white(#[trigger] b[i]),
        lossy(line) == a + hexadecimal(n) + b || lossy(line) == a + hexadecimal(n) + b + seq![';']
            + rest,
    ensures
        chunk_size(line) == Some(n),
        after_size(line).phase == (if n == 0 {
            Phase::Trailer
        } else {
            Phase::Body
        }),
        n > 0 ==> after_size(line).remaining == n,
{
    let t = lossy(line);
    let h = hexadecimal(n);
    let head = a + h + b;
    crate::number::lemma_digits_roundtrip(n, 16);
    crate::number::lemma_hexadecimal_roundtrip(n, usize::MAX as int);
    assert forall|j: int| 0 <= j < head.len() implies t[j] != ';' by {
        assert(t[j] == head[j]);
        if j < a.len() {
            assert(crate::text::is_white(a[j]));
        } else if j < a.len() + h.len() {
            assert(head[j] == h[j - a.len()]);
            let u = h[j - a.len()] as int;
            assert(48 <= u <= 57 || 97 <= u <= 102);
        } else {
            assert(head[j] == b[j - a.len() - h.len()]);
            assert(crate::text::is_white(b[j - a.len() - h.len()]));
        }
    }
    crate::text::lemma_first_of(t, ';', head.len() as int);
    assert(t.take(head.len() as int) =~= head);
    assert(!crate::text::is_white(h[0])) by {
        let u = h[0] as int;
        assert(48 <= u <= 57 || 97 <= u <= 102);
    }
    assert(!crate::text::is_white(h.last())) by {
        let u = h[h.len() - 1] as int;
        assert(48 <= u <= 57 || 97 <= u <= 102);
    }
    crate::text::law_trimmed(a, h, b);
}

/// A trailer line behind the last chunk is dropped: it is no part of the body, and the decoder
/// waits for the next one, or for the empty line that ends them.
pub proof fn law_trailers_are_dropped(line: Seq<u8>)
    requires
        line.len() > 0,
        forall|i: int| 0 <= i < line.len() ==> #[trigger] line[i] != 10 && line[i] != 13,
    ensures
        ({
            let s = ChunkState { phase: Phase::Trailer, line: Seq::empty(), remaining: 0 };
            &&& decode(s, line + seq![13u8, 10u8]).0 == s
            &&& decode(s, line + seq![13u8, 10u8]).1.len() == 0
            &&& decode(s, seq![13u8, 10u8]).0.phase == Phase::Done
            &&& decode(s, seq![13u8, 10u8]).1.len() == 0
        }),
{
    let s = ChunkState { phase: Phase::Trailer, line: Seq::empty(), remaining: 0 };
    lemma_trailer_gathers(s, line);
    assert(s.line + line =~= line);
    let s1 = ChunkState { line, ..s };
    lemma_two(s1, 13u8, 10u8);
    lemma_two(s, 13u8, 10u8);
    law_decode_split(s, line, seq![13u8, 10u8]);
}

proof fn lemma_trailer_gathers(s: ChunkState, line: Seq<u8>)
    requires
        s.phase == Phase::Trailer,
        forall|i: int| 0 <= i < line.len() ==> #[trigger] line[i] != 10 && line[i] != 13,
    ensures
        decode(s, line).0 == (ChunkState { line: s.line + line, ..s }),
        decode(s, line).1 =~= Seq::<u8>::empty(),
    decreases line.len(),
{
    if line.len() == 0 {
        assert(s.line + line =~= s.line);
    } else {
        let front = line.drop_last();
        assert forall|i: int| 0 <= i < front.len() implies #[trigger] front[i] != 10 && front[i]
            != 13 by {
            assert(front[i] == line[i]);
        }
        lemma_trailer_gathers(s, front);
        assert(line[line.len() - 1] != 10 && line[line.len() - 1] != 13);
        assert((s.line + front).push(line.last()) =~= s.line + line);
    }
}

/// Chunks in a row.
pub open spec fn chunked(parts: Seq<Seq<u8>>) -> Seq<u8>
    decreases parts.len(),
{
    if parts.len() == 0 {
        Seq::empty()
    } else {
        chunked(parts.drop_last()) + chunk_bytes(parts.last())
    }
}

/// Any number of chunks decodes to the parts put together.
pub proof fn law_chunked_roundtrip(parts: Seq<Seq<u8>>)
    requires
        forall|i: int| 0 <= i < parts.len() ==> 0 < (#[trigger] parts[i]).len() <= usize::MAX,
    ensures
        decode(between_chunks(), chunked(parts)).0 == between_chunks(),
        decode(between_chunks(), chunked(parts)).1 =~= whole(parts),
    decreases parts.len(),
{
    if parts.len() > 0 {
        let front = parts.drop_last();
        assert forall|i: int| 0 <= i < front.len() implies 0 < (#[trigger] front[i]).len()
            <= usize::MAX by {
            assert(front[i] == parts[i]);
        }
        law_chunked_roundtrip(front);
        assert(0 < parts[parts.len() - 1].len() <= usize::MAX);
        law_chunk_roundtrip(parts.last());
        law_decode_split(between_chunks(), chunked(front), chunk_bytes(parts.last()));
    }
}

/// Bytes behind a bad size line, or behind the body, are kept.
proof fn lemma_kept(s: ChunkState, bytes: Seq<u8>)
    requires
        s.phase == Phase::Bad || s.phase == Phase::Done,
    ensures
        decode(s, bytes).0 == (ChunkState { line: s.line + bytes, ..s }),
        decode(s, bytes).1 =~= Seq::<u8>::empty(),
    decreases bytes.len(),
{
    if bytes.len() == 0 {
        assert(s.line + bytes =~= s.line);
    } else {
        lemma_kept(s, bytes.drop_last());
        assert((s.line + bytes.drop_last()).push(bytes.last()) =~= s.line + bytes);
    }
}

/// A bad size line stops the decoder, and loses nothing of what follows it: going on is
/// decoding the rest afresh.
pub proof fn law_rest_behind_bad_line(line: Seq<u8>, rest: Seq<u8>)
    requires
        forall|i: int| 0 <= i < line.len() ==> line[i] != 10 && line[i] != 13,
        chunk_size(line) is None,
    ensures
        ({
            let stopped = decode(between_chunks(), line + seq![10u8] + rest);
            &&& stopped.0.phase == Phase::Bad
            &&& stopped.1 =~= Seq::<u8>::empty()
            &&& resumed(stopped.0) == decode(between_chunks(), rest)
        }),
{
    let s0 = between_chunks();
    let nl = seq![10u8];
    lemma_line_gathers(s0, line);
    assert(s0.line + line =~= line);
    let s1 = ChunkState { line, ..s0 };
    assert(nl.drop_last() =~= Seq::<u8>::empty());
    reveal_with_fuel(decode, 2);
    let bad = ChunkState { phase: Phase::Bad, line: Seq::empty(), remaining: 0 };
    assert(decode(s1, nl).0 == bad);
    law_decode_split(s0, line, nl);
    law_decode_split(s0, line + nl, rest);
    lemma_kept(bad, rest);
    assert(bad.line + rest =~= rest);
}

/// What follows the end of a body is left to the caller, whole and unread, and changes nothing
/// of the body.
pub proof fn law_rest_behind_body(s: ChunkState, body: Seq<u8>, rest: Seq<u8>)
    requires
        decode(s, body).0.phase == Phase::Done,
    ensures
        decode(s, body + rest).0.phase == Phase::Done,
        decode(s, body + rest).1 =~= decode(s, body).1,
        behind_body(decode(s, body + rest).0) =~= behind_body(decode(s, body).0) + rest,
{
    law_decode_split(s, body, rest);
    lemma_kept(decode(s, body).0, rest);
}

/// Chunks, the empty chunk and any other bytes decode to the parts put together, and leave those
/// bytes.
pub proof fn law_body_then_rest(parts: Seq<Seq<u8>>, rest: Seq<u8>)
    requires
        forall|i: int| 0 <= i < parts.len() ==> 0 < (#[trigger] parts[i]).len() <= usize::MAX,
    ensures
        ({
            let read = decode(between_chunks(), chunked(parts) + chunk_bytes(Seq::empty()) + rest);
            &&& read.0.phase == Phase::Done
            &&& read.1 =~= whole(parts)
            &&& behind_body(read.0) =~= rest
        }),
{
    let last = chunk_bytes(Seq::empty());
    law_chunked_roundtrip(parts);
    law_last_chunk_ends();
    law_decode_split(between_chunks(), chunked(parts), last);
    law_rest_behind_body(between_chunks(), chunked(parts) + last, rest);
}

/// A stream that ends behind complete chunks, before the one that ends the body, is broken.
/// So is one that ends behind the bytes of a chunk, or within the line end that follows them.
pub proof fn law_missing_end_is_broken(parts: Seq<Seq<u8>>, data: Seq<u8>, k: int)
    requires
        forall|i: int| 0 <= i < parts.len() ==> 0 < (#[trigger] parts[i]).len() <= usize::MAX,
        0 < data.len() <= usize::MAX,
        chunk_bytes(data).len() - 2 <= k <= chunk_bytes(data).len(),
    ensures
        cut_short(decode(between_chunks(), chunked(parts)).0),
        cut_short(decode(between_chunks(), chunked(parts) + chunk_bytes(data).take(k)).0),
{
    law_chunked_roundtrip(parts);
    lemma_empty_size_line();
    let s0 = between_chunks();
    let whole_chunk = chunk_bytes(data);
    law_decode_split(s0, chunked(parts), whole_chunk.take(k));
    let n = data.len() as int;
    let head = encode_utf8(hexadecimal(n));
    let crlf = seq![13u8, 10u8];
    lemma_size_line(n);
    lemma_line_gathers(s0, head);
    assert(s0.line + head =~= head);
    let s1 = ChunkState { line: head, ..s0 };
    lemma_two(s1, 13u8, 10u8);
    law_decode_split(s0, head, crlf);
    let s2 = ChunkState { phase: Phase::Body, line: Seq::empty(), remaining: n };
    lemma_body_passes(s2, data);
    law_decode_split(s0, head + crlf, data);
    let body = head + crlf + data;
    let s3 = ChunkState { phase: Phase::Gap, line: Seq::empty(), remaining: 2 };
    assert(decode(s0, body).0 == s3);
    if k == whole_chunk.len() {
        assert(whole_chunk.take(k) =~= whole_chunk);
        law_chunk_roundtrip(data);
    } else if k == whole_chunk.len() - 1 {
        assert(whole_chunk.take(k) =~= body.push(13u8));
        assert(body.push(13u8).drop_last() =~= body);
    } else {
        assert(whole_chunk.take(k) =~= body);
    }
}

/// An empty size line is no number.
proof fn lemma_empty_size_line()
    ensures
        chunk_size(Seq::empty()) is None,
{
    let none = Seq::<char>::empty();
    vstd::utf8::encode_utf8_valid_utf8(none);
    vstd::utf8::encode_utf8_decode_utf8(none);
    assert(encode_utf8(none) =~= Seq::<u8>::empty());
    assert(none.take(0) =~= none);
}

/// Decodes an HTTP/1.1 "Transfer-Encoding: chunked" byte stream into the plain body, one
/// layer under `SseReader`. Trailers are drained and discarded; what follows them is kept for
/// the caller.
pub struct ChunkedReader {
    phase: Phase,
    line: Vec<u8>,
    remaining: usize,
}

impl View for ChunkedReader {
    type V = ChunkState;

    closed spec fn view(&self) -> ChunkState {
        ChunkState { phase: self.phase, line: self.line@, remaining: self.remaining as int }
    }
}

/// Reads the size line of a chunk.
fn read_size(line: &[u8]) -> (r: Option<usize>)
    ensures
        match r {
            Some(n) => chunk_size(line@) == Some(n as int),
            None => chunk_size(line@) is None,
        },
{
    let t = lossy_text(line);
    let cs = chars_of(t.as_str());
    let i: usize = find_char(cs.as_slice(), ';');
    let part = text_range(cs.as_slice(), 0, i);
    assert(cs@.subrange(0, i as int) =~= cs@.take(i as int));
    match parse_unsigned(trim(part.as_str()).as_str(), 16, usize::MAX as u64) {
        Some(n) => Some(n as usize),
        None => None,
    }
}

impl ChunkedReader {
    /// A decoder that has seen nothing.
    pub fn new() -> (r: ChunkedReader)
        ensures
            r@ == between_chunks(),
    {
        let r = ChunkedReader { phase: Phase::Size, line: Vec::new(), remaining: 0 };
        assert(r.line@ =~= Seq::<u8>::empty());
        r
    }

    /// What the decoder expects next.
    pub fn phase(&self) -> (r: Phase)
        ensures
            r == self@.phase,
    {
        self.phase
    }

    /// Whether the stream is broken if it ends here: in or behind a size line that is no number,
    /// or behind the bytes of a chunk, where the next size line is missing.
    pub fn broken_at_end(&self) -> (r: bool)
        ensures
            r == cut_short(self@),
    {
        match self.phase {
            Phase::Bad => true,
            Phase::Gap => true,
            Phase::Size => read_size(self.line.as_slice()).is_none(),
            _ => false,
        }
    }

    /// Takes one byte of the stream; the body byte that comes out, if any.
    fn take(&mut self, b: u8) -> (r: Option<u8>)
        ensures
            final(self)@ == step(old(self)@, b).0,
            r == step(old(self)@, b).1,
    {
        match self.phase {
            Phase::Size => {
                if b == 10 {
                    let size = read_size(self.line.as_slice());
                    self.line = Vec::new();
                    self.remaining = 0;
                    match size {
                        None => {
                            self.phase = Phase::Bad;
                        },
                        Some(n) => {
                            if n == 0 {
                                self.phase = Phase::Trailer;
                            } else {
                                self.phase = Phase::Body;
                                self.remaining = n;
                            }
                        },
                    }
                    assert(self.line@ =~= Seq::<u8>::empty());
                } else if b != 13 {
                    self.line.push(b);
                }
                None
            },
            Phase::Body => {
                if self.remaining <= 1 {
                    self.phase = Phase::Gap;
                    self.remaining = 2;
                } else {
                    self.remaining = self.remaining - 1;
                }
                Some(b)
            },
            Phase::Gap => {
                if self.remaining <= 1 {
                    self.phase = Phase::Size;
                    self.remaining = 0;
                } else {
                    self.remaining = self.remaining - 1;
                }
                None
            },
            Phase::Trailer => {
                if b == 10 {
                    if self.line.len() == 0 {
                        self.phase = Phase::Done;
                    } else {
                        self.line = Vec::new();
                        assert(self.line@ =~= Seq::<u8>::empty());
                    }
                } else if b != 13 {
                    self.line.push(b);
                }
                None
            },
            Phase::Done => {
                self.line.push(b);
                None
            },
            Phase::Bad => {
                self.line.push(b);
                None
            },
        }
    }

    /// Goes on behind a bad size line; the body bytes that come out.
    pub fn resume(&mut self) -> (r: Vec<u8>)
        ensures
            final(self)@ == resumed(old(self)@).0,
            r@ == resumed(old(self)@).1,
    {
        if self.phase != Phase::Bad {
            let none: Vec<u8> = Vec::new();
            assert(none@ =~= Seq::<u8>::empty());
            return none;
        }
        let mut rest: Vec<u8> = Vec::new();
        std::mem::swap(&mut rest, &mut self.line);
        self.phase = Phase::Size;
        self.remaining = 0;
        assert(self.line@ =~= Seq::<u8>::empty());
        self.push(rest.as_slice())
    }

    /// What came behind the body. It is no part of the body, and the caller's to read.
    pub fn into_rest(self) -> (r: Vec<u8>)
        ensures
            r@ == behind_body(self@),
    {
        match self.phase {
            Phase::Done => self.line,
            _ => {
                let none: Vec<u8> = Vec::new();
                assert(none@ =~= Seq::<u8>::empty());
                none
            },
        }
    }

    /// Takes the next piece of the stream; the body bytes that come out. Bytes behind the body
    /// are kept for the caller.
    pub fn push(&mut self, bytes: &[u8]) -> (r: Vec<u8>)
        ensures
            final(self)@ == decode(old(self)@, bytes@).0,
            r@ == decode(old(self)@, bytes@).1,
    {
        let mut out: Vec<u8> = Vec::new();
        for i in 0..bytes.len()
            invariant
                self@ == decode(old(self)@, bytes@.take(i as int)).0,
                out@ == decode(old(self)@, bytes@.take(i as int)).1,
        {
            assert(bytes@.take(i + 1).drop_last() =~= bytes@.take(i as int));
            if let Some(b) = self.take(bytes[i]) {
                out.push(b);
            }
        }
        assert(bytes@.take(bytes@.len() as int) =~= bytes@);
        out
    }
}

/// One chunk on the wire: hexadecimal length, line end, data, line end. The chunk of no
/// data ends the body.
pub fn chunk(data: &[u8]) -> (r: Vec<u8>)
    ensures
        r@ == chunk_bytes(data@),
{
    let mut out: Vec<u8> = Vec::new();
    out.extend_from_slice(hexadecimal_u64(data.len() as u64).as_str().as_bytes());
    let ghost head = encode_utf8(hexadecimal(data@.len() as int));
    assert(out@ =~= head);
    out.push(13);
    out.push(10);
    assert(out@ =~= head + seq![13u8, 10u8]);
    out.extend_from_slice(data);
    assert(out@ =~= head + seq![13u8, 10u8] + data@);
    out.push(13);
    out.push(10);
    assert(out@ =~= chunk_bytes(data@));
    out
}

/// On the wire a chunk is the line of its size in hexadecimal, then its bytes, then the end of a
/// line.
pub proof fn law_chunk_on_the_wire(data: Seq<u8>)
    ensures
        ({
            let size = encode_utf8(hexadecimal(data.len() as int));
            let all = chunk_bytes(data);
            let n = size.len() as int;
            &&& all.len() == n + 2 + data.len() + 2
            &&& all.take(n) == size
            &&& all[n] == 13 && all[n + 1] == 10
            &&& all.subrange(n + 2, n + 2 + data.len()) == data
            &&& all[all.len() - 2] == 13 && all[all.len() - 1] == 10
        }),
{
    let size = encode_utf8(hexadecimal(data.len() as int));
    let all = chunk_bytes(data);
    let n = size.len() as int;
    assert(all.take(n) =~= size);
    assert(all.subrange(n + 2, n + 2 + data.len()) =~= data);
}

/// A stream that ends with its body, or behind it, is not broken; nor is one that ends within a
/// chunk's bytes or a trailer, of which the reader makes what it got.
pub proof fn law_complete_is_not_broken(parts: Seq<Seq<u8>>, rest: Seq<u8>, s: ChunkState)
    requires
        forall|i: int| 0 <= i < parts.len() ==> 0 < (#[trigger] parts[i]).len() <= usize::MAX,
    ensures
        !cut_short(
            decode(between_chunks(), chunked(parts) + chunk_bytes(Seq::empty()) + rest).0,
        ),
        s.phase == Phase::Body || s.phase == Phase::Trailer || s.phase == Phase::Done ==> !cut_short(
            s,
        ),
        s.phase == Phase::Bad ==> cut_short(s),
{
    law_body_then_rest(parts, rest);
}

} // verus!
