use orbal_net::json::{array, object, text, text_of, Json};
use orbal_net::sse::SseEvent;
use orbal_net::tui::data::{
    handle_message, handle_progress, handle_roster, merge_thread_items, monitor_payload, nap,
    Feed, Threads, EVENT_RING_CAP, NAP, ROOM_THREAD_CAP,
};
use orbal_net::tui::view::{
    agent_item, agent_lines, event_color, event_detail, event_tag, fmt_time, fold_progress,
    footer_text, header_lines, key_for, placeholder_text, progress_lines, room_item, step_text,
    task_badge, thread_item_line, thread_lines, truncate, Color, Key, KeyName, Line, ViewState,
};
use orbal_net::tui::{
    health_after, AgentView, Attempt, CallError, Client, Config, EventView, Health, MsgView, RoomThread, RoomView,
    Snapshot, ThreadItem,
};

fn msg_data(room: &str, from: &str, words: &str, ts: i64) -> String {
    text_of(
        &object()
            .with("seq", Json::Int(1))
            .with("room", text(room))
            .with("from", text(from))
            .with("text", text(words))
            .with("ts", Json::Int(ts)),
    )
}

fn event(agent: &str, kind: &str, ts: i64) -> EventView {
    EventView {
        room: "r".to_string(),
        agent: agent.to_string(),
        kind: kind.to_string(),
        task: None,
        phase: None,
        step_cur: None,
        step_total: None,
        percent: None,
        target: None,
        note: None,
        ts,
    }
}

fn msg(from: &str, words: &str, ts: Option<i64>) -> MsgView {
    MsgView { from: from.to_string(), text: words.to_string(), ts }
}

fn room(name: &str, total_seen: u64) -> RoomView {
    RoomView {
        name: name.to_string(),
        rtype: "public".to_string(),
        owner: "alice".to_string(),
        members: vec!["alice".to_string(), "bob".to_string()],
        total_seen,
        last: None,
    }
}

/// A line's text.
fn plain(line: &Line) -> String {
    line.spans.iter().map(|s| s.text.as_str()).collect()
}

#[test]
fn handle_message_seeds_and_updates_room() {
    let mut rooms = Vec::new();
    let mut threads = Threads::new();
    handle_message(&msg_data("r", "alice", "hi", 100), &mut rooms, &mut threads);
    assert_eq!(rooms.len(), 1);
    assert_eq!(rooms[0].total_seen, 1);
    assert_eq!(rooms[0].last.as_ref().unwrap().text, "hi");

    handle_message(&msg_data("r", "bob", "yo", 200), &mut rooms, &mut threads);
    assert_eq!(rooms.len(), 1, "same room, no duplicate entry");
    assert_eq!(rooms[0].total_seen, 2);
    assert_eq!(rooms[0].last.as_ref().unwrap().text, "yo");
    assert_eq!(threads.get("r").unwrap().len(), 2);
}

#[test]
fn handle_message_filters_dm_channels() {
    let mut rooms = Vec::new();
    let mut threads = Threads::new();
    handle_message(&msg_data("@alice|bob", "alice", "psst", 100), &mut rooms, &mut threads);
    assert!(rooms.is_empty());
    assert!(threads.is_empty());
}

#[test]
fn handle_roster_carries_forward_preview_and_drops_destroyed_rooms() {
    let mut rooms = Vec::new();
    let mut threads = Threads::new();
    handle_message(&msg_data("r", "alice", "hi", 100), &mut rooms, &mut threads);

    let mut agents = Vec::new();
    let roster = text_of(
        &object()
            .with(
                "agents",
                array(vec![object().with("id", text("alice")).with("status", text("active"))]),
            )
            .with(
                "rooms",
                array(vec![object()
                    .with("name", text("r"))
                    .with("type", text("public"))
                    .with("owner", text("alice"))
                    .with("members", array(vec![text("alice")]))]),
            ),
    );
    handle_roster(&roster, &mut agents, &mut rooms);

    assert_eq!(agents.len(), 1);
    assert_eq!(rooms.len(), 1);
    assert_eq!(rooms[0].rtype, "public");
    assert_eq!(rooms[0].owner, "alice");
    assert_eq!(rooms[0].total_seen, 1, "preview carried forward");
    assert_eq!(rooms[0].last.as_ref().unwrap().text, "hi");

    let roster2 = text_of(&object().with("agents", array(vec![])).with("rooms", array(vec![])));
    handle_roster(&roster2, &mut agents, &mut rooms);
    assert!(rooms.is_empty());
}

#[test]
fn handle_progress_feeds_global_ring_and_room_thread() {
    let mut events = Vec::new();
    let mut threads = Threads::new();
    let data = text_of(
        &object()
            .with("seq", Json::Int(1))
            .with("room", text("r"))
            .with("agent", text("alice"))
            .with("kind", text("phase"))
            .with("phase", text("building"))
            .with("ts", Json::Int(500)),
    );
    handle_progress(&data, &mut events, &mut threads);
    assert_eq!(events.len(), 1);
    assert_eq!(events[0].phase.as_deref(), Some("building"));
    assert_eq!(threads.get("r").unwrap().len(), 1);
    // A row without a number is no event.
    handle_progress("{\"room\":\"r\"}", &mut events, &mut threads);
    handle_progress("oops", &mut events, &mut threads);
    assert_eq!(events.len(), 1);
}

#[test]
fn event_ring_and_room_thread_are_capped() {
    let mut events = Vec::new();
    let mut threads = Threads::new();
    for i in 0..(EVENT_RING_CAP + 10) {
        let data = text_of(
            &object()
                .with("seq", Json::Int(i as i64))
                .with("room", text("r"))
                .with("agent", text("a"))
                .with("kind", text("step"))
                .with("step_cur", Json::Int(i as i64))
                .with("step_total", Json::Int(1))
                .with("ts", Json::Int(i as i64)),
        );
        handle_progress(&data, &mut events, &mut threads);
    }
    assert_eq!(events.len(), EVENT_RING_CAP);
    assert_eq!(events[0].step_cur, Some(10), "oldest 10 dropped");
    assert_eq!(threads.get("r").unwrap().len(), ROOM_THREAD_CAP);
}

#[test]
fn merge_thread_items_sorts_by_ts_with_message_before_event_tiebreak() {
    let items = vec![
        ThreadItem::Evt(EventView {
            room: "r".into(),
            agent: "a".into(),
            kind: "phase".into(),
            task: None,
            phase: Some("p".into()),
            step_cur: None,
            step_total: None,
            percent: None,
            target: None,
            note: None,
            ts: 100,
        }),
        ThreadItem::Msg(MsgView { from: "alice".into(), text: "hi".into(), ts: Some(100) }),
        ThreadItem::Msg(MsgView { from: "bob".into(), text: "legacy".into(), ts: None }),
    ];
    let sorted = merge_thread_items(&items);
    assert!(matches!(&sorted[0], ThreadItem::Msg(m) if m.text == "legacy"));
    assert!(matches!(&sorted[1], ThreadItem::Msg(m) if m.text == "hi"));
    assert!(matches!(&sorted[2], ThreadItem::Evt(_)));
}

#[test]
fn merging_keeps_the_order_of_equals() {
    let items: Vec<ThreadItem> = [("a", 5), ("b", 3), ("c", 5), ("d", 3), ("e", 4)]
        .iter()
        .map(|(t, ts)| ThreadItem::Msg(msg("x", t, Some(*ts))))
        .collect();
    let order: Vec<String> = merge_thread_items(&items)
        .iter()
        .map(|i| match i {
            ThreadItem::Msg(m) => m.text.clone(),
            ThreadItem::Evt(_) => unreachable!(),
        })
        .collect();
    assert_eq!(order, vec!["b", "d", "e", "a", "c"]);
}

#[test]
fn the_feed_follows_its_stream() {
    let mut feed = Feed::new();
    assert_eq!(feed.since(), "0:0");
    let frame = |event: &str, id: &str, data: String| SseEvent::Frame {
        event: event.to_string(),
        id: Some(id.to_string()),
        data,
    };
    feed.event(&frame("message", "4:2", msg_data("r", "alice", "hi", 9)));
    // Marks never go back, and an id that cannot be read changes nothing.
    feed.event(&frame("message", "3:5", msg_data("r", "alice", "again", 8)));
    feed.event(&frame("other", "bad", "{}".to_string()));
    feed.event(&SseEvent::Comment("ready".to_string()));
    assert_eq!(feed.since(), "4:5");
    let mut snap = Snapshot::initial("me".to_string());
    assert_eq!(snap.health, Health::Connecting);
    feed.publish(&mut snap, &Some("r".to_string()), 77);
    assert_eq!(snap.health, Health::Connected);
    assert_eq!((snap.polls, snap.last_update), (1, Some(77)));
    let thread = snap.thread.as_ref().unwrap();
    assert_eq!(thread.room, "r");
    assert_eq!(thread.items[0], ThreadItem::Msg(msg("alice", "again", Some(8))));
    assert_eq!(snap.rooms[0].total_seen, 2);
    feed.publish(&mut snap, &None, 78);
    assert_eq!(snap.thread, None);
    assert_eq!(
        monitor_payload("me"),
        "{\"agent\":\"me\",\"mode\":\"monitor\"}"
    );
}

#[test]
fn naps_are_short() {
    assert_eq!(nap(NAP * 3 + 1), NAP);
    assert_eq!(nap(7), 7);
    assert_eq!(nap(0), 0);
}

#[test]
fn the_client_calls_under_the_observers_name() {
    let cfg = Config {
        url: "http://h:1".to_string(),
        token: "t".to_string(),
        agent: "me".to_string(),
        interval: 1_000_000_000,
    };
    let c = Client::new(&cfg);
    assert_eq!(
        (c.url.as_str(), c.token.as_str(), c.agent.as_str(), c.timeout_secs),
        ("http://h:1", "t", "me", 15)
    );
    assert_eq!(
        c.payload(object().with("room", text("r"))),
        "{\"agent\":\"me\",\"room\":\"r\"}"
    );
    assert_eq!(Client::reply(200, "{}"), Ok(object()));
    assert_eq!(Client::reply(200, "oops"), Ok(Json::Null));
    let e = Client::reply(403, "{\"error\":\"no\"}").unwrap_err();
    assert_eq!(e.message(), "403 no");
    assert_eq!(CallError::Transport("refused".to_string()).message(), "refused");
}

#[test]
fn times_of_day() {
    assert_eq!(fmt_time(Some(3_723_000)), "01:02:03");
    assert_eq!(fmt_time(Some(86_400_000 + 86_399_999)), "23:59:59");
    assert_eq!(fmt_time(Some(999)), "00:00:00");
    assert_eq!(fmt_time(Some(0)), "--:--:--");
    assert_eq!(fmt_time(Some(-5)), "--:--:--");
    assert_eq!(fmt_time(None), "--:--:--");
}

#[test]
fn texts_are_cut() {
    assert_eq!(truncate("abcdefgh", 8), "abcdefgh");
    assert_eq!(truncate("abcdefghi", 8), "abcde...");
    assert_eq!(truncate("abcdefghi", 0), "a...");
    assert_eq!(truncate("\u{e9}\u{e9}\u{e9}\u{e9}\u{e9}", 4), "\u{e9}...");
}

#[test]
fn events_are_tagged() {
    let mut e = event("a", "step", 1);
    assert_eq!(event_tag(&e), "step");
    e.step_cur = Some(3);
    assert_eq!(event_tag(&e), "step");
    e.step_total = Some(8);
    assert_eq!(event_tag(&e), "step 3/8");
    e.percent = Some(37);
    assert_eq!(event_tag(&e), "step 3/8 37%");
    e.step_cur = None;
    assert_eq!(event_tag(&e), "step 37%");
    let mut e = event("a", "blocked", 1);
    assert_eq!(event_tag(&e), "blocked->?");
    e.target = Some("host".to_string());
    assert_eq!(event_tag(&e), "blocked->host");
    e.kind = "handoff".to_string();
    assert_eq!(event_tag(&e), "handoff->host");
    assert_eq!(event_tag(&event("a", "phase", 1)), "phase");
    assert_eq!(event_detail(&e), "");
    e.task = Some("t".to_string());
    e.note = Some("n".to_string());
    assert_eq!(event_detail(&e), "t - n");
    e.phase = Some("p".to_string());
    assert_eq!(event_detail(&e), "t - p - n");
    assert_eq!(event_color("handoff"), Color::Magenta);
    assert_eq!(event_color("odd"), Color::White);
    assert_eq!(plain(&thread_item_line(&ThreadItem::Evt(e))), "00:00:00  [handoff->host] a: t - p - n");
    assert_eq!(
        plain(&thread_item_line(&ThreadItem::Evt(event("a", "phase", 0)))),
        "--:--:--  [phase] a"
    );
    assert_eq!(
        plain(&thread_item_line(&ThreadItem::Msg(msg("bob", "hi", None)))),
        "--:--:--  bob: hi"
    );
}

#[test]
fn progress_is_folded_by_agent() {
    let mut start = event("zoe", "task-start", 1);
    start.task = Some("build".to_string());
    let mut blocked = event("zoe", "blocked", 2);
    blocked.target = Some("host".to_string());
    let mut step = event("adam", "step", 3);
    step.percent = Some(40);
    let done = event("zoe", "task-done", 4);
    let seen = event("me", "phase", 5);
    let v = fold_progress(&[start.clone(), blocked.clone(), step.clone(), seen.clone()], "me");
    assert_eq!(v.iter().map(|p| p.0.as_str()).collect::<Vec<_>>(), vec!["adam", "zoe"]);
    assert_eq!(v[1].1.blocked.as_deref(), Some("host"));
    assert_eq!(v[1].1.task_state.as_deref(), Some("start"));
    assert_eq!(step_text(&v[0].1), Some("40%".to_string()));
    let mut snap = Snapshot::initial("me".to_string());
    snap.events = vec![start, blocked, step, done, seen];
    let lines: Vec<String> = progress_lines(&snap).iter().map(plain).collect();
    assert_eq!(
        lines,
        vec!["adam  (r)", "  40%", "zoe  (r)", "  [done] build"]
    );
    assert_eq!(task_badge("start"), ("running", Color::Yellow));
    assert_eq!(task_badge("x"), ("?", Color::White));
    snap.events = vec![];
    assert!(progress_lines(&snap).is_empty());
}

#[test]
fn every_kind_of_event_is_folded() {
    let mut handoff = event("a", "handoff", 1);
    handoff.target = Some("bob".to_string());
    let mut phase = event("a", "phase", 2);
    phase.phase = Some("p".to_string());
    let mut step = event("a", "step", 3);
    step.step_cur = Some(1);
    step.step_total = Some(2);
    step.percent = Some(50);
    let mut error = event("a", "task-error", 4);
    error.task = Some("t".to_string());
    let mut blocked = event("a", "blocked", 5);
    blocked.target = Some("c".to_string());
    blocked.room = "r2".to_string();
    let mut snap = Snapshot::initial("me".to_string());
    snap.events = vec![handoff, phase, step, error, blocked];
    let lines: Vec<String> = progress_lines(&snap).iter().map(plain).collect();
    assert_eq!(
        lines,
        vec![
            "a  (r2)",
            "  [error] t",
            "  phase: p",
            "  1/2  50%",
            "  BLOCKED on c",
            "  -> bob"
        ]
    );
    snap.events.push(event("a", "task-abort", 6));
    let lines: Vec<String> = progress_lines(&snap).iter().map(plain).collect();
    assert_eq!(lines[1], "  [abort] t");
    assert!(!lines.iter().any(|l| l.contains("BLOCKED")));
}

#[test]
fn rooms_and_agents_are_listed() {
    let mut r = room("r", 3);
    assert_eq!(
        room_item(&r, 40, true).iter().map(plain).collect::<Vec<_>>(),
        vec!["* r [public] owner=alice members=2 seen=3", "    (no messages yet)"]
    );
    r.last = Some(msg("bob", "a long message that is cut", None));
    let lines = room_item(&r, 20, false);
    assert_eq!(plain(&lines[0]), "  r [public] owner=alice members=2 seen=3");
    assert_eq!(plain(&lines[1]), "    bob: a long m...");
    assert_eq!(lines[1].spans[0].color, Color::DarkGray);
    let agent = |id: &str, status: &str| AgentView { id: id.to_string(), status: status.to_string() };
    let line = agent_item(&agent("bob", "BUSY"));
    assert_eq!(plain(&line), "bob  [BUSY]");
    assert_eq!(line.spans[0].color, Color::Cyan);
    assert_eq!(agent_item(&agent("bob", "odd")).spans[0].color, Color::White);
    let mut snap = Snapshot::initial("me".to_string());
    assert_eq!(placeholder_text(&snap), "connecting...");
    snap.health = Health::Disconnected("gone".to_string());
    assert_eq!(placeholder_text(&snap), "(none yet)");
    snap.agents = vec![agent("a", "active"), agent("me", "idle"), agent("z", "done")];
    snap.rooms = vec![r];
    assert_eq!(
        agent_lines(&snap).iter().map(plain).collect::<Vec<_>>(),
        vec!["a  [active]", "z  [done]"]
    );
    assert_eq!(
        header_lines("me", &snap, "never").iter().map(plain).collect::<Vec<_>>(),
        vec![
            "comms tui  observer: me  DISCONNECTED (gone)",
            "last update: never   polls: 0   rooms: 1   agents: 2"
        ]
    );
    assert!(footer_text(true).contains("Esc: back"));
    assert!(footer_text(false).contains("Enter: open thread"));
}

#[test]
fn a_thread_is_shown_through_a_window() {
    let items: Vec<ThreadItem> =
        (0..5).map(|i| ThreadItem::Msg(msg("a", &format!("m{i}"), None))).collect();
    let thread = Some(RoomThread { room: "r".to_string(), items });
    let shown = |back: usize, height: usize| {
        thread_lines(&thread, "r", back, height)
            .unwrap()
            .iter()
            .map(|l| l.spans[2].text.clone())
            .collect::<Vec<_>>()
    };
    assert_eq!(shown(0, 2), vec!["m3", "m4"]);
    assert_eq!(shown(1, 2), vec!["m2", "m3"]);
    assert_eq!(shown(0, 0), vec!["m4"]);
    assert_eq!(shown(4, 10), vec!["m0"]);
    assert!(shown(9, 3).is_empty());
    assert!(thread_lines(&thread, "other", 0, 2).is_none());
    assert!(thread_lines(&None, "r", 0, 2).is_none());
}

#[test]
fn keys_move_and_quit() {
    let mut snap = Snapshot::initial("me".to_string());
    let mut v = ViewState::new();
    v.note_frame(&snap);
    assert!(!v.press(Key::Down, &snap));
    assert_eq!(v.selected(), 0);
    snap.rooms = vec![room("a", 1), room("b", 2), room("c", 0)];
    assert!(v.is_unread(&snap.rooms[0]));
    v.note_frame(&snap);
    assert!(!v.is_unread(&snap.rooms[0]), "a selected room is read");
    assert!(v.is_unread(&snap.rooms[1]));
    assert!(!v.is_unread(&snap.rooms[2]));
    v.press(Key::Up, &snap);
    assert_eq!(v.selected(), 2);
    v.press(Key::Down, &snap);
    assert_eq!(v.selected(), 0);
    v.press(Key::Down, &snap);
    assert!(!v.press(Key::Enter, &snap));
    assert_eq!(v.focused(), &Some("b".to_string()));
    let items = (0..3).map(|i| ThreadItem::Msg(msg("a", "x", Some(i)))).collect();
    snap.thread = Some(RoomThread { room: "b".to_string(), items });
    v.note_frame(&snap);
    for _ in 0..5 {
        v.press(Key::Up, &snap);
    }
    assert_eq!(v.backscroll(), 2);
    v.press(Key::Down, &snap);
    assert_eq!(v.backscroll(), 1);
    assert!(!v.press(Key::Escape, &snap));
    assert_eq!(v.focused(), &None);
    assert_eq!(v.backscroll(), 0);
    assert!(!v.press(Key::Other, &snap));
    snap.rooms = vec![room("a", 1)];
    v.note_frame(&snap);
    assert_eq!(v.selected(), 0);
    assert!(v.press(Key::Escape, &snap));
    assert!(v.press(Key::Quit, &snap));
}

#[test]
fn only_a_server_that_does_not_answer_is_down() {
    assert_eq!(health_after(&Attempt::Begun), Health::Connecting);
    assert_eq!(health_after(&Attempt::Answered(200)), Health::Connected);
    assert_eq!(health_after(&Attempt::Answered(401)), Health::Connected);
    let why = "Connection refused".to_string();
    assert_eq!(health_after(&Attempt::Failed(why.clone())), Health::Disconnected(why));
    assert_eq!(health_after(&Attempt::Closed), Health::Disconnected("stream closed".to_string()));
}

#[test]
fn keys_are_bound() {
    for (name, ctrl, key) in [
        (KeyName::Char('q'), false, Key::Quit),
        (KeyName::Char('q'), true, Key::Quit),
        (KeyName::Char('c'), true, Key::Quit),
        (KeyName::Char('c'), false, Key::Other),
        (KeyName::Char('j'), false, Key::Down),
        (KeyName::Char('k'), true, Key::Up),
        (KeyName::Down, false, Key::Down),
        (KeyName::Up, false, Key::Up),
        (KeyName::Esc, false, Key::Escape),
        (KeyName::Enter, false, Key::Enter),
        (KeyName::Other, true, Key::Other),
    ] {
        assert_eq!(key_for(name, ctrl), key, "{name:?}");
    }
}

#[test]
fn selection_keys_undo_each_other() {
    let mut snap = Snapshot::initial("me".to_string());
    snap.rooms = vec![room("a", 1), room("b", 2), room("c", 0)];
    let mut v = ViewState::new();
    v.note_frame(&snap);
    for at in 0..snap.rooms.len() {
        assert_eq!(v.selected(), at);
        for (there, back) in [(Key::Down, Key::Up), (Key::Up, Key::Down)] {
            v.press(there, &snap);
            assert_ne!(v.selected(), at);
            v.press(back, &snap);
            assert_eq!(v.selected(), at);
        }
        v.press(Key::Down, &snap);
    }
    assert_eq!(v.selected(), 0);
}
