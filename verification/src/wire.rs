//! What the server writes on a stream, and the proof that a client reads it back.

use crate::chunked::{
    between_chunks, chunk, chunk_bytes, chunked, decode, law_chunked_roundtrip, law_decode_split,
    ChunkState,
};
use crate::sse::{
    block, comments, drain, fed, field_name, field_value, fresh, is_comment, law_split_anywhere,
    line_text, unspaced, values, whole, EventData, ReaderState,
};
use crate::text::{copy, lemma_first_of};
use vstd::prelude::*;
use vstd::utf8::{encode_scalar, encode_utf8};

verus! {

/// The text of a frame.
pub open spec fn frame_text(event: Seq<char>, id: Seq<char>, data: Seq<char>) -> Seq<char> {
    "event: "@ + event + "\nid: "@ + id + "\ndata: "@ + data + "\n\n"@
}

/// The text of a comment.
pub open spec fn comment_text(text: Seq<char>) -> Seq<char> {
    ": "@ + text + "\n\n"@
}

/// One `event`/`id`/`data` frame.
pub fn sse_frame(event: &str, id: &str, data: &str) -> (r: String)
    ensures
        r@ == frame_text(event@, id@, data@),
{
    let mut s = copy("event: ");
    s.append(event);
    s.append("\nid: ");
    s.append(id);
    s.append("\ndata: ");
    s.append(data);
    s.append("\n\n");
    s
}

/// One content-free comment, such as `: ready`.
pub fn sse_comment(text: &str) -> (r: String)
    ensures
        r@ == comment_text(text@),
{
    let mut s = copy(": ");
    s.append(text);
    s.append("\n\n");
    s
}

/// The head of a stream's response.
pub const STREAM_HEAD: &'static str = "HTTP/1.1 200 OK\r\n\
     Content-Type: text/event-stream\r\n\
     Cache-Control: no-cache\r\n\
     Connection: keep-alive\r\n\
     Transfer-Encoding: chunked\r\n\
     \r\n";

/// The status line and headers that open a stream.
pub fn stream_headers() -> (r: String)
    ensures
        r@ == STREAM_HEAD@,
{
    copy(STREAM_HEAD)
}

/// The bytes of one frame on the wire: a chunk of its own.
pub fn frame_chunk(event: &str, id: &str, data: &str) -> (r: Vec<u8>)
    ensures
        r@ == chunk_bytes(encode_utf8(frame_text(event@, id@, data@))),
{
    chunk(sse_frame(event, id, data).as_str().as_bytes())
}

/// The bytes of one comment on the wire: a chunk of its own.
pub fn comment_chunk(text: &str) -> (r: Vec<u8>)
    ensures
        r@ == chunk_bytes(encode_utf8(comment_text(text@))),
{
    chunk(sse_comment(text).as_str().as_bytes())
}

/// The bytes that end a stream.
pub fn end_chunk() -> (r: Vec<u8>)
    ensures
        r@ == chunk_bytes(Seq::empty()),
{
    let none: Vec<u8> = Vec::new();
    assert(none@ =~= Seq::<u8>::empty());
    chunk(none.as_slice())
}

/// A text that stands on one line: no line feed in it, no carriage return at its end.
pub open spec fn single_line(s: Seq<char>) -> bool {
    &&& forall|i: int| 0 <= i < s.len() ==> #[trigger] s[i] != '\n'
    &&& s.len() > 0 ==> s.last() != '\r'
}

/// A block that the server can write: all of its texts stand on one line.
pub open spec fn sendable(e: EventData) -> bool {
    match e {
        EventData::Frame { event, id, data } => {
            &&& single_line(event)
            &&& id matches Some(i) && single_line(i)
            &&& single_line(data)
        },
        EventData::Comment(text) => single_line(text),
    }
}

/// The text that the server writes for a block.
pub open spec fn block_text(e: EventData) -> Seq<char> {
    match e {
        EventData::Frame { event, id, data } => frame_text(
            event,
            match id {
                Some(i) => i,
                None => Seq::empty(),
            },
            data,
        ),
        EventData::Comment(text) => comment_text(text),
    }
}

/// The bytes that the server writes for each block, before chunking.
pub open spec fn block_parts(blocks: Seq<EventData>) -> Seq<Seq<u8>> {
    Seq::new(blocks.len(), |i: int| encode_utf8(block_text(blocks[i])))
}

/// What a client reads when the pieces arrive one by one: each piece is dechunked and
/// handed to the block reader.
pub open spec fn receive(
    c: ChunkState,
    r: ReaderState,
    pieces: Seq<Seq<u8>>,
) -> (Seq<EventData>, ChunkState, ReaderState)
    decreases pieces.len(),
{
    if pieces.len() == 0 {
        (Seq::empty(), c, r)
    } else {
        let before = receive(c, r, pieces.drop_last());
        let body = decode(before.1, pieces.last());
        let now = drain(fed(before.2, body.1));
        (before.0 + now.0, body.0, now.1)
    }
}

/// The encoding of two texts put together is the encodings put together.
pub proof fn lemma_encode_concat(a: Seq<char>, b: Seq<char>)
    ensures
        encode_utf8(a + b) =~= encode_utf8(a) + encode_utf8(b),
    decreases a.len(),
{
    if a.len() == 0 {
        assert(a + b =~= b);
    } else {
        lemma_encode_concat(a.drop_first(), b);
        assert((a + b).drop_first() =~= a.drop_first() + b);
    }
}

/// The bytes of one character: a line feed or a carriage return stands for itself only.
proof fn lemma_scalar_bytes(c: char)
    ensures
        encode_scalar(c as u32).len() > 0,
        c != '\n' ==> forall|i: int|
            0 <= i < encode_scalar(c as u32).len() ==> #[trigger] encode_scalar(c as u32)[i] != 10,
        c != '\r' ==> encode_scalar(c as u32).last() != 13,
        c == '\n' ==> encode_scalar(c as u32) =~= seq![10u8],
{
    let u = c as u32;
    vstd::utf8::char_is_scalar(c);
    vstd::utf8::char_u32_cast(c, u);
    assert(u <= 0x7f ==> (u & 0x7f) as u8 == u) by (bit_vector);
    assert(0x80u8 | (u & 0x3F) as u8 >= 0x80u8) by (bit_vector);
    assert(0x80u8 | ((u >> 6) & 0x3F) as u8 >= 0x80u8) by (bit_vector);
    assert(0x80u8 | ((u >> 12) & 0x3F) as u8 >= 0x80u8) by (bit_vector);
    assert(0xC0u8 | ((u >> 6) & 0x1F) as u8 >= 0x80u8) by (bit_vector);
    assert(0xE0u8 | ((u >> 12) & 0x0F) as u8 >= 0x80u8) by (bit_vector);
    assert(0xF0u8 | ((u >> 18) & 0x7) as u8 >= 0x80u8) by (bit_vector);
}

/// The bytes of a single line hold no line feed and do not end in a carriage return.
proof fn lemma_line_bytes(s: Seq<char>)
    requires
        single_line(s),
    ensures
        forall|i: int| 0 <= i < encode_utf8(s).len() ==> #[trigger] encode_utf8(s)[i] != 10,
        encode_utf8(s).len() > 0 ==> encode_utf8(s).last() != 13,
        s.len() > 0 ==> encode_utf8(s).len() > 0,
    decreases s.len(),
{
    if s.len() > 0 {
        let t = s.drop_first();
        assert forall|i: int| 0 <= i < t.len() implies #[trigger] t[i] != '\n' by {
            assert(t[i] == s[i + 1]);
        }
        assert(t.len() > 0 ==> t.last() == s.last());
        lemma_line_bytes(t);
        lemma_scalar_bytes(s[0]);
        assert(s[0] != '\n');
        let head = encode_scalar(s[0] as u32);
        let tail = encode_utf8(t);
        assert forall|i: int| 0 <= i < encode_utf8(s).len() implies #[trigger] encode_utf8(s)[i]
            != 10 by {
            if i < head.len() {
                assert(encode_utf8(s)[i] == head[i]);
            } else {
                assert(encode_utf8(s)[i] == tail[i - head.len()]);
            }
        }
        if t.len() == 0 {
            assert(tail =~= Seq::<u8>::empty());
            assert(encode_utf8(s) =~= head);
        } else {
            assert(encode_utf8(s).last() == tail.last());
        }
    }
}

/// One line of text is read as that line.
proof fn lemma_drain_line(lines: Seq<Seq<char>>, s: Seq<char>, rest: Seq<char>)
    requires
        single_line(s),
    ensures
        ({
            let state = ReaderState { lines, buf: encode_utf8(s + seq!['\n'] + rest) };
            let tail = encode_utf8(rest);
            if s.len() > 0 {
                drain(state) == drain(ReaderState { lines: lines.push(s), buf: tail })
            } else if lines.len() == 0 {
                drain(state) == drain(ReaderState { lines, buf: tail })
            } else {
                let r = drain(ReaderState { lines: Seq::empty(), buf: tail });
                drain(state) == (seq![block(lines)] + r.0, r.1)
            }
        }),
{
    let nl = seq!['\n'];
    let tail = encode_utf8(rest);
    let raw = encode_utf8(s);
    let buf = encode_utf8(s + nl + rest);
    lemma_encode_concat(s + nl, rest);
    lemma_encode_concat(s, nl);
    lemma_scalar_bytes('\n');
    assert(nl.drop_first() =~= Seq::<char>::empty());
    assert(nl[0] == '\n');
    assert(encode_utf8(nl.drop_first()) =~= Seq::<u8>::empty());
    assert(encode_utf8(nl) =~= encode_scalar(nl[0] as u32) + encode_utf8(nl.drop_first()));
    assert(encode_utf8(nl) =~= seq![10u8]);
    lemma_line_bytes(s);
    assert(buf =~= raw + seq![10u8] + tail);
    assert(buf[raw.len() as int] == 10u8);
    assert forall|j: int| 0 <= j < raw.len() implies buf[j] != 10u8 by {
        assert(buf[j] == raw[j]);
    }
    lemma_first_of(buf, 10u8, raw.len() as int);
    assert(buf.take(raw.len() as int) =~= raw);
    assert(buf.skip(raw.len() as int + 1) =~= tail);
    vstd::utf8::encode_utf8_valid_utf8(s);
    vstd::utf8::encode_utf8_decode_utf8(s);
    assert(line_text(raw) == s);
}

/// A line `name: value` sets the field `name` to `value`.
proof fn lemma_field_line(name: Seq<char>, value: Seq<char>)
    requires
        name.len() > 0,
        forall|i: int| 0 <= i < name.len() ==> name[i] != ':',
    ensures
        !is_comment(name + seq![':', ' '] + value),
        field_name(name + seq![':', ' '] + value) =~= name,
        field_value(name + seq![':', ' '] + value) =~= value,
{
    let l = name + seq![':', ' '] + value;
    let n = name.len() as int;
    assert(l[0] == name[0]);
    assert forall|j: int| 0 <= j < n implies l[j] != ':' by {
        assert(l[j] == name[j]);
    }
    assert(l[n] == ':');
    lemma_first_of(l, ':', n);
    assert(l.skip(n + 1)[0] == ' ');
    assert(l.skip(n + 1).skip(1) =~= value);
}

/// The frame that its three lines make.
proof fn lemma_frame_block(event: Seq<char>, id: Seq<char>, data: Seq<char>)
    ensures
        block(seq!["event"@ + seq![':', ' '] + event, "id"@ + seq![':', ' '] + id, "data"@ + seq![
            ':',
            ' ',
        ] + data]) == (EventData::Frame { event, id: Some(id), data }),
{
    reveal_strlit("event");
    reveal_strlit("id");
    reveal_strlit("data");
    let e = "event"@ + seq![':', ' '] + event;
    let i = "id"@ + seq![':', ' '] + id;
    let d = "data"@ + seq![':', ' '] + data;
    lemma_field_line("event"@, event);
    lemma_field_line("id"@, id);
    lemma_field_line("data"@, data);
    let l3 = seq![e, i, d];
    let l2 = seq![e, i];
    let l1 = seq![e];
    assert(l3.drop_last() =~= l2 && l3.last() == d);
    assert(l2.drop_last() =~= l1 && l2.last() == i);
    assert(l1.drop_last() =~= Seq::<Seq<char>>::empty() && l1.last() == e);
    assert("event"@.len() == 5 && "id"@.len() == 2 && "data"@.len() == 4);
    reveal_with_fuel(values, 4);
    assert(values(l3, "event"@) =~= seq![event]);
    assert(values(l3, "id"@) =~= seq![id]);
    assert(values(l3, "data"@) =~= seq![data]);
    assert(!is_comment(l3[0]));
}

/// Reading what the server writes for a block yields that block, and nothing is left.
pub proof fn law_block_roundtrip(e: EventData)
    requires
        sendable(e),
    ensures
        drain(fed(fresh(), encode_utf8(block_text(e)))).0 =~= seq![e],
        drain(fed(fresh(), encode_utf8(block_text(e)))).1 == fresh(),
{
    let none = Seq::<char>::empty();
    let nl = seq!['\n'];
    let no_lines = Seq::<Seq<char>>::empty();
    reveal_strlit("\n\n");
    let text = block_text(e);
    let start = fed(fresh(), encode_utf8(text));
    assert(start.buf =~= encode_utf8(text));
    assert(encode_utf8(none) =~= Seq::<u8>::empty());
    assert(drain(fresh()) == (Seq::<EventData>::empty(), fresh()));
    match e {
        EventData::Frame { event, id, data } => {
            let i = id->0;
            reveal_strlit("event: ");
            reveal_strlit("\nid: ");
            reveal_strlit("\ndata: ");
            reveal_strlit("event");
            reveal_strlit("id");
            reveal_strlit("data");
            let l1 = "event"@ + seq![':', ' '] + event;
            let l2 = "id"@ + seq![':', ' '] + i;
            let l3 = "data"@ + seq![':', ' '] + data;
            let r3 = none + nl + none;
            let r2 = l3 + nl + r3;
            let r1 = l2 + nl + r2;
            assert(text =~= l1 + nl + r1);
            lemma_drain_line(no_lines, l1, r1);
            lemma_drain_line(no_lines.push(l1), l2, r2);
            lemma_drain_line(no_lines.push(l1).push(l2), l3, r3);
            let lines = no_lines.push(l1).push(l2).push(l3);
            lemma_drain_line(lines, none, none);
            assert(lines =~= seq![l1, l2, l3]);
            lemma_frame_block(event, i, data);
        },
        EventData::Comment(c) => {
            reveal_strlit(": ");
            let l = seq![':', ' '] + c;
            let r = none + nl + none;
            assert(text =~= l + nl + r);
            lemma_drain_line(no_lines, l, r);
            let lines = no_lines.push(l);
            lemma_drain_line(lines, none, none);
            assert(lines =~= seq![l]);
            assert(is_comment(l));
            assert(unspaced(l.skip(1)) =~= c);
            assert(lines.drop_last() =~= no_lines);
            reveal_with_fuel(comments, 2);
            assert(comments(lines) =~= seq![c]);
        },
    }
}

/// The blocks of a stream are read in order.
proof fn lemma_blocks_roundtrip(blocks: Seq<EventData>)
    requires
        forall|i: int| 0 <= i < blocks.len() ==> sendable(#[trigger] blocks[i]),
    ensures
        drain(fed(fresh(), whole(block_parts(blocks)))).0 =~= blocks,
        drain(fed(fresh(), whole(block_parts(blocks)))).1 == fresh(),
    decreases blocks.len(),
{
    let parts = block_parts(blocks);
    if blocks.len() == 0 {
        assert(fed(fresh(), whole(parts)).buf =~= Seq::<u8>::empty());
    } else {
        let front = blocks.drop_last();
        assert forall|i: int| 0 <= i < front.len() implies sendable(#[trigger] front[i]) by {
            assert(front[i] == blocks[i]);
        }
        lemma_blocks_roundtrip(front);
        assert(parts.drop_last() =~= block_parts(front));
        let first = fed(fresh(), whole(block_parts(front)));
        assert(sendable(blocks[blocks.len() - 1]));
        law_split_anywhere(first, parts.last());
        assert(fed(first, parts.last()).buf =~= fed(fresh(), whole(parts)).buf);
        law_block_roundtrip(blocks.last());
        assert(fed(fresh(), parts.last()).buf =~= parts.last());
        assert(blocks =~= front.push(blocks.last()));
    }
}

/// Dechunking piece by piece and then reading is reading the dechunked whole.
proof fn lemma_receive(pieces: Seq<Seq<u8>>)
    ensures
        ({
            let all = decode(between_chunks(), whole(pieces));
            let read = drain(fed(fresh(), all.1));
            receive(between_chunks(), fresh(), pieces) == (read.0, all.0, read.1)
        }),
    decreases pieces.len(),
{
    if pieces.len() == 0 {
        assert(fed(fresh(), Seq::<u8>::empty()).buf =~= fresh().buf);
    } else {
        let front = pieces.drop_last();
        lemma_receive(front);
        law_decode_split(between_chunks(), whole(front), pieces.last());
        let a = decode(between_chunks(), whole(front));
        let b = decode(a.0, pieces.last());
        law_split_anywhere(fed(fresh(), a.1), b.1);
        let all = decode(between_chunks(), whole(pieces));
        assert(all.1 =~= a.1 + b.1);
        assert(fed(fed(fresh(), a.1), b.1).buf =~= fed(fresh(), all.1).buf);
        let last = drain(fed(drain(fed(fresh(), a.1)).1, b.1));
        let read = drain(fed(fresh(), all.1));
        assert(read.0 =~= drain(fed(fresh(), a.1)).0 + last.0);
        assert(read.1 == last.1);
    }
}

/// A client reads exactly the blocks that the server wrote, in their order, however the
/// network cuts the stream into pieces.
pub proof fn law_stream_roundtrip(blocks: Seq<EventData>, pieces: Seq<Seq<u8>>)
    requires
        forall|i: int| 0 <= i < blocks.len() ==> sendable(#[trigger] blocks[i]),
        forall|i: int|
            0 <= i < blocks.len() ==> encode_utf8(block_text(#[trigger] blocks[i])).len()
                <= usize::MAX,
        whole(pieces) == chunked(block_parts(blocks)),
    ensures
        receive(between_chunks(), fresh(), pieces).0 =~= blocks,
{
    let parts = block_parts(blocks);
    assert forall|i: int| 0 <= i < parts.len() implies 0 < (#[trigger] parts[i]).len()
        <= usize::MAX by {
        let text = block_text(blocks[i]);
        reveal_strlit("\n\n");
        assert(text.len() > 0);
        lemma_scalar_bytes(text[0]);
        assert(parts[i] =~= encode_scalar(text[0] as u32) + encode_utf8(text.drop_first()));
    }
    law_chunked_roundtrip(parts);
    lemma_receive(pieces);
    lemma_blocks_roundtrip(blocks);
}

} // verus!
