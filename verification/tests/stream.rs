use orbal_net::chunked::ChunkedReader;
use orbal_net::cli::{parse_recv, recv_payload};
use orbal_net::json::{object, parse, text, text_of, Json};
use orbal_net::ops::{op_create_room, op_dm, op_event, op_join, op_read, op_send};
use orbal_net::recv::{print_line, print_messages, Recv, RecvAction};
use orbal_net::sse::{SseEvent, SseReader};
use orbal_net::store::Store;
use orbal_net::stream::{may_park, read_plan, Next, Session, KEEPALIVE_MS};
use orbal_net::wire::{comment_chunk, end_chunk};

fn body(fields: &[(&str, &str)]) -> Json {
    let mut b = object();
    for (k, v) in fields {
        b = b.with(k, text(v));
    }
    b
}

/// A mission with the room `r`, in which are alice and bob.
fn mission() -> Store {
    let mut s = Store::in_memory().unwrap();
    op_create_room(&mut s, "alice", &body(&[("name", "r")])).unwrap();
    op_join(&mut s, "bob", &body(&[("room", "r")])).unwrap();
    s
}

fn send(s: &mut Store, words: &str) {
    op_send(s, "alice", &body(&[("room", "r"), ("text", words)]), 7).unwrap();
}

fn open(s: &mut Store, b: &Json) -> Session {
    let plan = read_plan(b, &None).unwrap();
    let started = Session::start(s, plan, b.get_str("agent").unwrap()).unwrap();
    assert!(started.missed_agent.is_none() && started.missed_mark.is_none());
    started.session
}

/// One round, written to a client: the bytes, with every delivery noted.
fn round(s: &mut Store, session: &mut Session) -> Vec<u8> {
    let mut bytes = Vec::new();
    for o in session.round(s).unwrap() {
        bytes.extend_from_slice(&o.bytes);
        if let Some(seq) = o.cursor {
            session.delivered(s, seq).unwrap();
        }
    }
    bytes
}

/// The frames in bytes: event, id and data.
fn frames(bytes: &[u8]) -> Vec<(String, String, Json)> {
    let mut c = ChunkedReader::new();
    let mut r = SseReader::new();
    r.push(&c.push(bytes));
    let mut out = Vec::new();
    while let Some(e) = r.next_event() {
        if let SseEvent::Frame { event, id, data } = e {
            out.push((event, id.unwrap(), parse(&data).unwrap()));
        }
    }
    out
}

fn texts(frames: &[(String, String, Json)]) -> Vec<String> {
    frames
        .iter()
        .filter(|f| f.0 == "message")
        .map(|f| f.2.get_str("text").unwrap().to_string())
        .collect()
}

fn peek_texts(s: &mut Store, agent: &str) -> Vec<String> {
    let doc = op_read(s, agent, &body(&[("room", "r")]).with("peek", Json::Bool(true))).unwrap();
    doc.get_array("messages")
        .unwrap()
        .iter()
        .map(|m| m.get_str("text").unwrap().to_string())
        .collect()
}

fn recv_body() -> Json {
    body(&[("agent", "bob"), ("mode", "recv"), ("room", "r")])
}

#[test]
fn stream_pushes_new_message_fast() {
    let mut s = mission();
    let mut client = open(&mut s, &recv_body());
    assert!(frames(&round(&mut s, &mut client)).is_empty(), "empty room backfills nothing");
    send(&mut s, "wakeup");
    let got = frames(&round(&mut s, &mut client));
    assert_eq!(got[0].0, "message");
    assert_eq!(got[0].2.get_str("text"), Some("wakeup"));
}

#[test]
fn stream_reconnect_no_loss_no_dup() {
    let mut s = mission();
    // 3 messages land before bob ever connects.
    for t in ["m1", "m2", "m3"] {
        send(&mut s, t);
    }
    let mut client = open(&mut s, &recv_body());
    let backfilled = frames(&round(&mut s, &mut client));
    assert_eq!(backfilled.len(), 3, "sees the full pre-connect backlog");
    assert_eq!(texts(&backfilled), vec!["m1", "m2", "m3"]);
    let last_id = backfilled.last().unwrap().1.clone();

    // 2 more messages land while bob is disconnected.
    for t in ["m4", "m5"] {
        send(&mut s, t);
    }
    let mut client = open(&mut s, &recv_body().with("since", text(&last_id)));
    let resumed = frames(&round(&mut s, &mut client));
    assert_eq!(
        texts(&resumed),
        vec!["m4", "m5"],
        "reconnect backfill must be exactly the offline window, no loss or dup"
    );
    assert!(
        peek_texts(&mut s, "bob").is_empty(),
        "recv's cursor advance leaves nothing unread behind"
    );
}

#[test]
fn stream_monitor_sees_events_and_roster_non_consuming() {
    let mut s = mission();
    send(&mut s, "hi");
    let mut client = open(&mut s, &body(&[("agent", "watcher"), ("mode", "monitor")]));
    let backfilled = frames(&round(&mut s, &mut client));
    assert!(
        backfilled.iter().any(|f| f.0 == "message" && f.2.get_str("text") == Some("hi")),
        "monitor backfills existing messages"
    );
    assert!(
        backfilled.iter().any(|f| f.0 == "roster"),
        "monitor gets an initial roster frame"
    );
    op_event(
        &mut s,
        "alice",
        &body(&[("room", "r"), ("kind", "phase"), ("phase", "building")]),
        9,
    )
    .unwrap();
    let live = frames(&round(&mut s, &mut client));
    assert_eq!(live[0].0, "progress");
    assert_eq!(live[0].1, "1:1");
    assert_eq!(live[0].2.get_str("phase"), Some("building"));
    assert_eq!(live.len(), 1, "an unchanged roster is not sent again");
    assert_eq!(peek_texts(&mut s, "bob"), vec!["hi"]);
}

#[test]
fn stream_monitor_default_scope_is_global_not_membership() {
    let mut s = Store::in_memory().unwrap();
    op_create_room(&mut s, "alice", &body(&[("name", "r1")])).unwrap();
    op_create_room(&mut s, "carol", &body(&[("name", "r2")])).unwrap();
    op_send(&mut s, "alice", &body(&[("room", "r1"), ("text", "m1")]), 1).unwrap();
    op_send(&mut s, "carol", &body(&[("room", "r2"), ("text", "m2")]), 2).unwrap();
    op_dm(&mut s, "alice", &body(&[("to", "carol"), ("text", "secret")]), 3).unwrap();

    let mut client = open(&mut s, &body(&[("agent", "observer"), ("mode", "monitor")]));
    let seen = texts(&frames(&round(&mut s, &mut client)));
    assert!(
        seen.contains(&"m1".to_string()) && seen.contains(&"m2".to_string()),
        "non-member monitor sees every room's backlog: got {seen:?}"
    );
    assert!(
        !seen.contains(&"secret".to_string()),
        "default monitor scope excludes DM channels, matching the old poller: got {seen:?}"
    );
    // A channel can be watched by naming it.
    let mut client = open(
        &mut s,
        &body(&[("agent", "observer"), ("mode", "monitor"), ("room", "@alice|carol")]),
    );
    assert_eq!(texts(&frames(&round(&mut s, &mut client))), vec!["secret"]);
}

#[test]
fn stream_lost_wakeup_regression() {
    let mut s = mission();
    let mut client = open(&mut s, &recv_body());
    let mut generation: u64 = 0;
    let seen = generation;
    assert!(frames(&round(&mut s, &mut client)).is_empty());
    // The send lands between the look at the tables and the decision to wait.
    send(&mut s, "raced");
    generation += 1;
    assert!(!may_park(seen, generation), "must look again instead of waiting");
    let got = frames(&round(&mut s, &mut client));
    assert_eq!(got[0].0, "message");
    assert_eq!(got[0].2.get_str("text"), Some("raced"));
    assert!(may_park(generation, generation));
}

#[test]
fn stream_connect_send_race_exactly_once() {
    // Whatever part of the messages lands before the backlog is sent, each comes once.
    const N: i64 = 20;
    for before in 0..=N {
        let mut s = mission();
        for i in 0..before {
            send(&mut s, &format!("race{i}"));
        }
        let mut client = open(&mut s, &recv_body());
        let mut seqs: Vec<i64> = Vec::new();
        let take = |bytes: Vec<u8>, seqs: &mut Vec<i64>| {
            for f in frames(&bytes) {
                seqs.push(f.2.get_i64("seq").unwrap());
            }
        };
        let bytes = round(&mut s, &mut client);
        take(bytes, &mut seqs);
        for i in before..N {
            send(&mut s, &format!("race{i}"));
            if i % 3 == 0 {
                let bytes = round(&mut s, &mut client);
                take(bytes, &mut seqs);
            }
        }
        let bytes = round(&mut s, &mut client);
        take(bytes, &mut seqs);
        assert_eq!(seqs, (1..=N).collect::<Vec<_>>(), "exactly-once, no gaps");
    }
}

#[test]
fn stream_emits_keepalive_on_idle() {
    let mut s = mission();
    let mut client = open(&mut s, &recv_body());
    assert!(frames(&round(&mut s, &mut client)).is_empty());
    assert_eq!(
        client.next(false, true, KEEPALIVE_MS, 60_000),
        Next::Park { keepalive: true, wait_ms: KEEPALIVE_MS }
    );
    let mut c = ChunkedReader::new();
    let comment = String::from_utf8(c.push(&comment_chunk("keepalive"))).unwrap();
    assert_eq!(comment.trim(), ": keepalive", "idle stream must emit keepalive");
    assert_eq!(
        client.next(false, true, 5_000, 60_000),
        Next::Park { keepalive: false, wait_ms: 15_000 }
    );
    assert_eq!(
        client.next(false, true, KEEPALIVE_MS - 1, 60_000),
        Next::Park { keepalive: false, wait_ms: 100 }
    );
    assert_eq!(client.next(true, true, 0, 60_000), Next::Round);
    assert_eq!(client.next(false, false, 0, 0), Next::Round);
}

/// One whole `recv`: the server's side and the client's, over the bytes between them. Sends
/// `late` once the backlog was sent.
fn recv_call(s: &mut Store, args: &[&str], late: &[&str]) -> Vec<String> {
    let args: Vec<String> = args.iter().map(|a| a.to_string()).collect();
    let args = parse_recv(&args).unwrap();
    let payload = recv_payload(&args, "bob");
    let mut session = open(s, &payload);
    let mut bytes = round(s, &mut session);
    let mut wrote = !bytes.is_empty();
    bytes.extend_from_slice(&comment_chunk("ready"));
    let mut live = false;
    let mut age: u64 = 0;
    let mut late = Some(late);
    loop {
        match session.next(wrote, live, age, age) {
            Next::Close => break,
            Next::Round => {}
            Next::Park { wait_ms, .. } => age += wait_ms,
        }
        if let Some(late) = late.take() {
            for t in late {
                send(s, t);
            }
        }
        live = true;
        let more = round(s, &mut session);
        wrote = !more.is_empty();
        bytes.extend_from_slice(&more);
    }
    bytes.extend_from_slice(&end_chunk());

    let mut c = ChunkedReader::new();
    let mut r = SseReader::new();
    let mut client = Recv::new(args.follow);
    r.push(&c.push(&bytes));
    let got = loop {
        match r.next_event() {
            Some(e) => match client.event(e) {
                RecvAction::Wait => {}
                RecvAction::Finish(v) => break v,
                other => panic!("unexpected {other:?}"),
            },
            None => match client.close() {
                RecvAction::Finish(v) => break v,
                other => panic!("unexpected {other:?}"),
            },
        }
    };
    got.iter().map(|m| m.get_str("text").unwrap().to_string()).collect()
}

#[test]
fn recv_calls_lose_nothing() {
    let mut s = mission();
    send(&mut s, "a1");
    assert_eq!(recv_call(&mut s, &["r", "--timeout", "5"], &[]), vec!["a1"]);
    // Nothing is connected when these land.
    send(&mut s, "a2");
    assert_eq!(recv_call(&mut s, &["r", "--timeout", "5"], &[]), vec!["a2"]);
    send(&mut s, "a3");
    send(&mut s, "a4");
    assert_eq!(recv_call(&mut s, &["r", "--timeout", "5"], &[]), vec!["a3", "a4"]);
    // These land while the call waits.
    assert_eq!(recv_call(&mut s, &["r", "--timeout", "5"], &["b1", "b2"]), vec!["b1", "b2"]);
    assert!(peek_texts(&mut s, "bob").is_empty());
}

#[test]
fn recv_times_out_with_nothing() {
    let mut s = mission();
    assert!(recv_call(&mut s, &["r", "--timeout", "1"], &[]).is_empty());
}

#[test]
fn following_does_not_move_the_cursor() {
    let mut s = mission();
    send(&mut s, "f1");
    let args = parse_recv(&["r".to_string(), "--follow".to_string()]).unwrap();
    let payload = recv_payload(&args, "bob");
    assert_eq!(
        text_of(&payload),
        "{\"agent\":\"bob\",\"follow\":true,\"mode\":\"recv\",\"room\":\"r\"}"
    );
    let mut session = open(&mut s, &payload);
    let out = session.round(&s).unwrap();
    assert_eq!(out[0].cursor, None);
    let mut client = Recv::new(true);
    let mut c = ChunkedReader::new();
    let mut r = SseReader::new();
    r.push(&c.push(&out[0].bytes));
    match client.event(r.next_event().unwrap()) {
        RecvAction::Line(j) => assert_eq!(
            print_line(&j),
            "{\"from\":\"alice\",\"room\":\"r\",\"seq\":1,\"text\":\"f1\",\"ts\":7}"
        ),
        other => panic!("unexpected {other:?}"),
    }
    assert_eq!(
        client.event(SseEvent::Comment("ready".to_string())),
        RecvAction::Wait
    );
    assert_eq!(
        client.close(),
        RecvAction::Fail("recv: server closed the stream".to_string())
    );
    // A plain call still sees it.
    assert_eq!(recv_call(&mut s, &["r", "--timeout", "3"], &[]), vec!["f1"]);
}

#[test]
fn one_shot_streams_end() {
    let mut s = mission();
    let b = recv_body().with("once", Json::Bool(true)).with("timeout", text("2"));
    let client = open(&mut s, &b);
    assert_eq!(client.next(true, false, 0, 0), Next::Close);
    assert_eq!(client.next(true, true, 0, 0), Next::Close);
    assert_eq!(client.next(false, true, 0, 2_000), Next::Close);
    assert_eq!(
        client.next(false, true, 500, 500),
        Next::Park { keepalive: false, wait_ms: 1_500 }
    );
}

#[test]
fn plans_are_read_or_refused() {
    let none: Option<String> = None;
    assert_eq!(
        read_plan(&body(&[("mode", "x")]), &none).unwrap_err().msg,
        "mode must be \"recv\" or \"monitor\""
    );
    assert_eq!(read_plan(&object(), &none).unwrap_err().code, 400);
    assert_eq!(
        read_plan(&body(&[("mode", "recv")]), &none).unwrap_err().msg,
        "recv requires 'room'"
    );
    let b = recv_body().with("since", text("1:2"));
    assert_eq!(read_plan(&b, &none).unwrap().since, Some((1, 2)));
    // The header wins, even if it cannot be read.
    assert_eq!(read_plan(&b, &Some("3:4".to_string())).unwrap().since, Some((3, 4)));
    assert_eq!(read_plan(&b, &Some("bad".to_string())).unwrap().since, None);
    assert_eq!(read_plan(&b, &none).unwrap().timeout_ms, 120_000);
    let b = recv_body().with("timeout", Json::Int(-1));
    assert_eq!(read_plan(&b, &none).unwrap().timeout_ms, 120_000);
    let b = recv_body().with("timeout", Json::Int(i64::MAX));
    assert_eq!(read_plan(&b, &none).unwrap().timeout_ms, u64::MAX);
}

#[test]
fn the_roster_is_sent_when_it_changes() {
    let mut s = mission();
    let mut client = open(&mut s, &body(&[("agent", "alice"), ("mode", "monitor")]));
    let first = frames(&round(&mut s, &mut client));
    assert_eq!(
        text_of(&first.last().unwrap().2),
        "{\"agents\":[{\"id\":\"alice\",\"status\":\"active\"}],\"rooms\":[{\"members\":[\"alice\",\"bob\"],\"name\":\"r\",\"owner\":\"alice\",\"type\":\"public\"}]}"
    );
    assert!(frames(&round(&mut s, &mut client)).is_empty());
    op_join(&mut s, "carol", &body(&[("room", "r")])).unwrap();
    let next = frames(&round(&mut s, &mut client));
    assert_eq!(next.len(), 1);
    assert_eq!(next[0].0, "roster");
}

#[test]
fn finished_calls_are_printed() {
    assert_eq!(
        print_messages("r", vec![]),
        "{\n  \"messages\": [],\n  \"room\": \"r\"\n}"
    );
    let mut client = Recv::new(false);
    let frame = |d: &str| SseEvent::Frame {
        event: "message".to_string(),
        id: None,
        data: d.to_string(),
    };
    assert_eq!(client.event(frame("oops")), RecvAction::Wait);
    assert_eq!(client.event(SseEvent::Comment("keepalive".to_string())), RecvAction::Wait);
    assert_eq!(client.expire(), vec![Json::Null]);
    // A stream that ends before the backlog is complete is an error.
    assert_eq!(
        Recv::new(false).close(),
        RecvAction::Fail("recv: server closed the stream".to_string())
    );
}

#[test]
fn resuming_after_any_frame_brings_the_rest() {
    let mut s = mission();
    for t in ["m1", "m2"] {
        send(&mut s, t);
    }
    for p in ["p1", "p2"] {
        let e = body(&[("room", "r"), ("kind", "phase"), ("phase", p)]);
        op_event(&mut s, "alice", &e, 9).unwrap();
    }
    let watcher = || body(&[("agent", "alice"), ("mode", "monitor")]);
    let mut client = open(&mut s, &watcher());
    let all = frames(&round(&mut s, &mut client));
    let ids: Vec<&str> = all.iter().map(|f| f.1.as_str()).collect();
    assert_eq!(ids, vec!["1:0", "2:0", "2:1", "2:2", "2:2"]);
    for k in 1..=all.len() {
        let mut client = open(&mut s, &watcher().with("since", text(&all[k - 1].1)));
        let rest = frames(&round(&mut s, &mut client));
        let wanted: Vec<_> = all[k..].iter().filter(|f| f.0 != "roster").collect();
        let got: Vec<_> = rest.iter().filter(|f| f.0 != "roster").collect();
        assert_eq!(got, wanted, "after frame {k}");
    }
}

#[test]
fn recv_is_understood() {
    let args = |v: &[&str]| -> Vec<String> { v.iter().map(|s| s.to_string()).collect() };
    let a = parse_recv(&args(&["r", "--since", "3:4", "--timeout", "7"])).unwrap();
    let p = read_plan(&recv_payload(&a, "bob"), &a.since).unwrap();
    assert_eq!((p.monitor, p.follow, p.once, p.timeout_ms), (false, false, true, 7000));
    assert_eq!((p.room.as_deref(), p.since), (Some("r"), Some((3, 4))));
    let a = parse_recv(&args(&["r", "--follow"])).unwrap();
    let p = read_plan(&recv_payload(&a, "bob"), &a.since).unwrap();
    assert_eq!((p.monitor, p.follow, p.once, p.since), (false, true, false, None));
}
