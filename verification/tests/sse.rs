use orbal_net::chunked::{chunk, ChunkedReader, Phase};
use orbal_net::sse::{parse_since, since_str, SseEvent, SseReader};
use orbal_net::wire::{comment_chunk, end_chunk, frame_chunk, sse_comment, sse_frame, stream_headers};

/// Hands `data` over in pieces of at most `piece` bytes and collects all blocks.
fn read_all(data: &[u8], piece: usize) -> Vec<SseEvent> {
    let mut r = SseReader::new();
    let mut out = Vec::new();
    for p in data.chunks(piece) {
        r.push(p);
        while let Some(e) = r.next_event() {
            out.push(e);
        }
    }
    out
}

/// The same for a chunked stream.
fn read_chunked(data: &[u8], piece: usize) -> Vec<SseEvent> {
    let mut c = ChunkedReader::new();
    let mut r = SseReader::new();
    let mut out = Vec::new();
    for p in data.chunks(piece) {
        let body = c.push(p);
        r.push(&body);
        while let Some(e) = r.next_event() {
            out.push(e);
        }
    }
    out
}

fn encode(body: &[u8], size: usize) -> Vec<u8> {
    let mut encoded = Vec::new();
    for piece in body.chunks(size) {
        encoded.extend_from_slice(format!("{:x}\r\n", piece.len()).as_bytes());
        encoded.extend_from_slice(piece);
        encoded.extend_from_slice(b"\r\n");
    }
    encoded.extend_from_slice(b"0\r\n\r\n");
    encoded
}

fn frame(event: &str, id: Option<&str>, data: &str) -> SseEvent {
    SseEvent::Frame {
        event: event.to_string(),
        id: id.map(|s| s.to_string()),
        data: data.to_string(),
    }
}

fn comment(text: &str) -> SseEvent {
    SseEvent::Comment(text.to_string())
}

#[test]
fn parses_message_frame() {
    let raw = "event: message\nid: 5:2\ndata: {\"seq\":5}\n\n";
    let got = read_all(raw.as_bytes(), 4096);
    assert_eq!(got[0], frame("message", Some("5:2"), "{\"seq\":5}"));
}

#[test]
fn parses_ready_and_keepalive_comments() {
    let raw = ": ready\n\n: keepalive\n\n";
    let got = read_all(raw.as_bytes(), 4096);
    assert_eq!(got[0], comment("ready"));
    assert_eq!(got[1], comment("keepalive"));
}

#[test]
fn handles_split_across_read_boundaries() {
    let raw = "event: progress\nid: 3:9\ndata: {\"kind\":\"step\"}\n\n: keepalive\n\nevent: message\nid: 4:9\ndata: {\"seq\":4}\n\n";
    for chunk in [1, 2, 3, 7, 64] {
        let got = read_all(raw.as_bytes(), chunk);
        assert_eq!(
            got[0],
            frame("progress", Some("3:9"), "{\"kind\":\"step\"}"),
            "chunk size {chunk}"
        );
        assert_eq!(got[1], comment("keepalive"), "chunk size {chunk}");
        assert_eq!(
            got[2],
            frame("message", Some("4:9"), "{\"seq\":4}"),
            "chunk size {chunk}"
        );
        assert_eq!(got.get(3), None, "chunk size {chunk}");
    }
}

#[test]
fn multiline_data_joins_with_newline() {
    let raw = "event: roster\ndata: line1\ndata: line2\n\n";
    let got = read_all(raw.as_bytes(), 5);
    assert_eq!(got[0], frame("roster", None, "line1\nline2"));
}

#[test]
fn since_roundtrip() {
    assert_eq!(since_str(12, 7), "12:7");
    assert_eq!(parse_since("12:7"), Some((12, 7)));
    assert_eq!(parse_since("0:0"), Some((0, 0)));
    assert_eq!(parse_since("bad"), None);
    assert_eq!(parse_since(""), None);
}

#[test]
fn chunked_decode_roundtrip() {
    let body = b"event: message\nid: 1:0\ndata: {\"seq\":1}\n\n: keepalive\n\n";
    let encoded = encode(body, 7);
    for read_chunk in [1, 3, 16, 4096] {
        let mut dechunked = ChunkedReader::new();
        let mut out = Vec::new();
        for p in encoded.chunks(read_chunk) {
            out.extend_from_slice(&dechunked.push(p));
        }
        assert_eq!(out, body, "read_chunk {read_chunk}");
        assert!(!dechunked.broken_at_end());
        assert_eq!(dechunked.phase(), Phase::Done);
    }
}

#[test]
fn chunked_then_sse_parse_end_to_end() {
    let body = b"event: message\nid: 2:0\ndata: {\"seq\":2}\n\n: ready\n\n";
    let got = read_chunked(&encode(body, 9), 5);
    assert_eq!(got[0], frame("message", Some("2:0"), "{\"seq\":2}"));
    assert_eq!(got[1], comment("ready"));
    assert_eq!(got.get(2), None);
}

#[test]
fn since_covers_the_extremes() {
    assert_eq!(since_str(i64::MIN, i64::MAX), "-9223372036854775808:9223372036854775807");
    assert_eq!(
        parse_since("-9223372036854775808:9223372036854775807"),
        Some((i64::MIN, i64::MAX))
    );
    assert_eq!(parse_since("9223372036854775808:0"), None);
    assert_eq!(parse_since("+3:04"), Some((3, 4)));
    assert_eq!(parse_since("1:2:3"), None);
    assert_eq!(parse_since("-:1"), None);
}

#[test]
fn frames_have_defaults_and_ignore_unknown_fields() {
    let raw = "retry: 5\ndata:x\n\n";
    assert_eq!(read_all(raw.as_bytes(), 3), vec![frame("message", None, "x")]);
    // A comment inside a frame does not make it a comment.
    let raw = ": note\nevent: a\ndata: 1\n\n";
    assert_eq!(read_all(raw.as_bytes(), 100), vec![frame("a", None, "1")]);
    // Carriage returns at the ends of lines are dropped.
    let raw = "event: a\r\ndata: 1\r\n\r\n";
    assert_eq!(read_all(raw.as_bytes(), 2), vec![frame("a", None, "1")]);
    // A block that the stream breaks off is never handed out.
    assert_eq!(read_all(b"event: a\ndata: 1\n", 100), vec![]);
}

#[test]
fn invalid_utf8_is_replaced() {
    let mut raw = b"data: a".to_vec();
    raw.push(0xff);
    raw.extend_from_slice(b"b\n\n");
    assert_eq!(read_all(&raw, 100), vec![frame("message", None, "a\u{fffd}b")]);
}

#[test]
fn a_bad_size_line_breaks_the_stream() {
    let mut c = ChunkedReader::new();
    assert_eq!(c.push(b"zz\r\nabc"), b"");
    assert_eq!(c.phase(), Phase::Bad);
    assert!(c.broken_at_end());
    // What follows the bad line is read as the next size line.
    assert_eq!(c.push(b"\r\n2\r\nhi\r\n"), b"");
    assert_eq!(c.resume(), b"2\r\nhi\r\n", "abc is a number");
    assert_eq!(c.phase(), Phase::Body);
    assert_eq!(c.resume(), b"");
    let mut c = ChunkedReader::new();
    assert_eq!(c.push(b"zz\r\n2\r\nhi\r\n0\r\n\r\n"), b"");
    assert_eq!(c.resume(), b"hi");
    assert_eq!(c.phase(), Phase::Done);
    // Extensions behind a semicolon are ignored.
    let mut c = ChunkedReader::new();
    assert_eq!(c.push(b"3;x=y\r\nabc\r\n"), b"abc");
}

#[test]
fn a_stream_without_its_last_chunk_is_broken() {
    for (bytes, phase, broken) in [
        (&b""[..], Phase::Size, true),
        (b"3\r\nabc", Phase::Gap, true),
        (b"3\r\nabc\r", Phase::Gap, true),
        (b"3\r\nabc\r\n", Phase::Size, true),
        (b"3\r\nab", Phase::Body, false),
        (b"3\r\nabc\r\n3", Phase::Size, false),
        (b"3\r\nabc\r\n0\r\n", Phase::Trailer, false),
        (b"3\r\nabc\r\n0\r\n\r\n", Phase::Done, false),
    ] {
        let mut c = ChunkedReader::new();
        c.push(bytes);
        assert_eq!((c.phase(), c.broken_at_end()), (phase, broken), "{bytes:?}");
    }
}

#[test]
fn chunks_are_framed() {
    assert_eq!(chunk(b"hello, chunked body"), b"13\r\nhello, chunked body\r\n");
    assert_eq!(end_chunk(), b"0\r\n\r\n");
}

#[test]
fn written_blocks_are_read_back() {
    assert_eq!(
        sse_frame("message", "5:2", "{}"),
        "event: message\nid: 5:2\ndata: {}\n\n"
    );
    assert_eq!(sse_comment("ready"), ": ready\n\n");
    let mut stream = frame_chunk("message", "1:0", "{\"text\":\"h\u{e9}llo\"}");
    stream.extend_from_slice(&comment_chunk("ready"));
    stream.extend_from_slice(&frame_chunk("progress", "1:1", ""));
    stream.extend_from_slice(&end_chunk());
    for piece in [1, 2, 5, 1000] {
        assert_eq!(
            read_chunked(&stream, piece),
            vec![
                frame("message", Some("1:0"), "{\"text\":\"h\u{e9}llo\"}"),
                comment("ready"),
                frame("progress", Some("1:1"), ""),
            ]
        );
    }
    assert_eq!(
        stream_headers(),
        "HTTP/1.1 200 OK\r\nContent-Type: text/event-stream\r\nCache-Control: no-cache\r\n\
         Connection: keep-alive\r\nTransfer-Encoding: chunked\r\n\r\n"
    );
}

#[test]
fn what_follows_the_body_is_the_callers() {
    let stream = b"5;name=v\r\nhello\r\n0\r\nX-T: 1\r\n\r\nREST";
    for piece in [1, 3, 16, 100] {
        let mut c = ChunkedReader::new();
        let mut body = Vec::new();
        for p in stream.chunks(piece) {
            body.extend_from_slice(&c.push(p));
        }
        assert_eq!(body, b"hello");
        assert_eq!(c.phase(), Phase::Done);
        assert!(!c.broken_at_end());
        assert_eq!(c.into_rest(), b"REST");
    }
    let mut c = ChunkedReader::new();
    c.push(b"5\r\nhel");
    assert_eq!(c.into_rest(), b"");
}
