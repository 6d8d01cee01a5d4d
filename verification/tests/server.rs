use orbal_net::json::{object, parse, pretty, text, text_of, Json};
use orbal_net::ops::{
    dm_key, op_create_room, op_dm, op_event, op_events, op_join, op_read, op_rooms, op_send,
};
use orbal_net::server::{
    answer, authorized, equal_names, header, parse_body, react, read_call, respond, Call,
    HeaderLine, Reaction,
};
use orbal_net::store::{lacks_ts, Failure, Store};
use orbal_net::stream::{read_plan, Session};

fn store() -> Store {
    Store::in_memory().unwrap()
}

/// A body with string fields.
fn body(fields: &[(&str, &str)]) -> Json {
    let mut b = object();
    for (k, v) in fields {
        b = b.with(k, text(v));
    }
    b
}

/// One request, carried out as the server does.
fn call(store: &mut Store, action: &str, agent: &str, b: Json) -> (u16, Json) {
    request(store, "demo-token", action, agent, b)
}

/// One request under a token.
fn request(store: &mut Store, token: &str, action: &str, agent: &str, b: Json) -> (u16, Json) {
    let headers = bearer(token);
    let body = text_of(&b.with("agent", text(agent)));
    let url = format!("/{action}");
    match respond(store, &headers, "demo-token", &url, &body, 1_700_000_000_000).unwrap() {
        Reaction::Reply(a) => (a.code, a.body),
        Reaction::Stream { .. } => panic!("{action} opened a stream"),
    }
}

fn bearer(token: &str) -> Vec<HeaderLine> {
    vec![HeaderLine { name: "Authorization".to_string(), value: format!("Bearer {token}") }]
}

fn list<'a>(j: &'a Json, key: &str) -> &'a Vec<Json> {
    j.get_array(key).unwrap()
}

fn error(j: &Json) -> &str {
    j.get_str("error").unwrap()
}

#[test]
fn integration_selfcheck() {
    let mut s = store();
    let (code, doc) = request(&mut s, "wrong", "rooms", "a", object());
    assert_eq!(code, 401, "bad token must 401");
    assert_eq!(text_of(&doc), "{\"error\":\"unauthorized\"}");
    // register + room + send + read roundtrip
    assert_eq!(
        call(&mut s, "create-room", "alice", body(&[("name", "r")])).1.get_str("owner"),
        Some("alice"),
        "create-room owner"
    );
    assert_eq!(call(&mut s, "join", "bob", body(&[("room", "r")])).0, 200, "join");
    assert_eq!(
        call(&mut s, "send", "alice", body(&[("room", "r"), ("text", "hi")])).1.get_bool("ok"),
        Some(true),
        "send"
    );
    let (code, doc) = call(&mut s, "read", "bob", body(&[("room", "r")]));
    assert!(
        code == 200 && list(&doc, "messages")[0].get_str("text") == Some("hi"),
        "read roundtrip"
    );
    // read advances the cursor: second read sees nothing new
    let (_, doc) = call(&mut s, "read", "bob", body(&[("room", "r")]));
    assert!(list(&doc, "messages").is_empty(), "cursor advance");
    // inbox backlog for a fresh joiner
    assert_eq!(
        call(&mut s, "send", "alice", body(&[("room", "r"), ("text", "again")])).1.get_bool("ok"),
        Some(true),
        "send2"
    );
    let (_, doc) = call(&mut s, "inbox", "carol", object());
    assert!(list(&doc, "inbox").is_empty(), "non-member empty inbox");
    assert_eq!(call(&mut s, "join", "carol", body(&[("room", "r")])).0, 200, "carol join");
    let (_, doc) = call(&mut s, "inbox", "carol", object());
    assert_eq!(
        list(&doc, "inbox")[0].get_i64("unread"),
        Some(2),
        "fresh joiner sees backlog"
    );
    // dm
    assert_eq!(
        call(&mut s, "dm", "alice", body(&[("to", "bob"), ("text", "psst")])).1.get_bool("ok"),
        Some(true),
        "dm"
    );
    let (_, doc) = call(&mut s, "inbox", "bob", object());
    assert!(!list(&doc, "inbox").is_empty(), "bob sees DM");
    // events: emit each kind, non-consuming read, bad-kind/missing-field rejection
    let ok = |s: &mut Store, b: Json| call(s, "event", "alice", b).1.get_bool("ok") == Some(true);
    assert!(
        ok(&mut s, body(&[("room", "r"), ("kind", "task-start"), ("task", "build")])),
        "event task-start"
    );
    assert!(
        ok(
            &mut s,
            body(&[("room", "r"), ("kind", "step")])
                .with("step_cur", Json::Int(3))
                .with("step_total", Json::Int(8))
        ),
        "event step"
    );
    assert!(
        ok(&mut s, body(&[("room", "r"), ("kind", "phase"), ("phase", "compiling")])),
        "event phase"
    );
    assert!(
        ok(&mut s, body(&[("room", "r"), ("kind", "blocked"), ("target", "host")])),
        "event blocked"
    );
    assert!(
        ok(&mut s, body(&[("room", "r"), ("kind", "task-done"), ("task", "build")])),
        "event task-done"
    );
    assert_eq!(
        call(&mut s, "event", "alice", body(&[("room", "r"), ("kind", "nonsense")])).0,
        400,
        "bad kind rejected"
    );
    assert_eq!(
        call(&mut s, "event", "alice", body(&[("room", "r"), ("kind", "task-start")])).0,
        400,
        "missing required field rejected"
    );
    let from_start = || body(&[("room", "r")]).with("since", Json::Int(0));
    let (code, doc) = call(&mut s, "events", "bob", from_start());
    assert!(code == 200 && list(&doc, "events").len() == 5, "events read sees all 5");
    // events read is non-consuming: same since=0 read again sees the same 5
    let (_, doc) = call(&mut s, "events", "bob", from_start());
    assert_eq!(list(&doc, "events").len(), 5, "events read is non-consuming");
    // room-omitted events read spans all rooms
    let (_, doc) = call(&mut s, "events", "bob", object().with("since", Json::Int(0)));
    assert!(list(&doc, "events").len() >= 5, "events read across all rooms");
    // owner-only destroy
    assert_eq!(
        call(&mut s, "destroy-room", "bob", body(&[("room", "r")])).0,
        403,
        "non-owner destroy 403"
    );
    assert_eq!(
        call(&mut s, "destroy-room", "alice", body(&[("room", "r")])).1.get_str("destroyed"),
        Some("r"),
        "owner destroy"
    );
    let (_, doc) = call(&mut s, "rooms", "alice", object());
    assert!(
        list(&doc, "rooms").iter().all(|r| r.get_str("name") != Some("r")),
        "room gone"
    );
}

#[test]
fn persistence_survives_reopen() {
    // A database in shared memory lives as long as one connection to it does.
    let name = "file:persist_test?mode=memory&cache=shared";
    let keeper = rusqlite::Connection::open(name).unwrap();
    {
        let mut s = Store::init_schema(rusqlite::Connection::open(name).unwrap()).unwrap();
        op_create_room(&mut s, "alice", &body(&[("name", "r")])).unwrap();
        op_join(&mut s, "bob", &body(&[("room", "r")])).unwrap();
        op_send(&mut s, "alice", &body(&[("room", "r"), ("text", "persisted")]), 1).unwrap();
    }
    {
        let mut s = Store::init_schema(rusqlite::Connection::open(name).unwrap()).unwrap();
        let rooms = op_rooms(&s).unwrap();
        assert_eq!(list(&rooms, "rooms")[0].get_str("name"), Some("r"));
        let read = op_read(&mut s, "bob", &body(&[("room", "r")])).unwrap();
        assert_eq!(list(&read, "messages")[0].get_str("text"), Some("persisted"));
    }
    drop(keeper);
}

#[test]
fn migration_adds_ts_to_old_schema_db() {
    let conn = rusqlite::Connection::open_in_memory().unwrap();
    conn.execute_batch(
        "CREATE TABLE agents(id TEXT PRIMARY KEY, status TEXT NOT NULL DEFAULT 'active');
         CREATE TABLE rooms(name TEXT PRIMARY KEY, owner TEXT NOT NULL, type TEXT NOT NULL DEFAULT 'public');
         CREATE TABLE members(room TEXT NOT NULL, agent TEXT NOT NULL, PRIMARY KEY(room, agent));
         CREATE TABLE messages(seq INTEGER PRIMARY KEY AUTOINCREMENT,
           room_key TEXT NOT NULL, sender TEXT NOT NULL, text TEXT NOT NULL);
         CREATE TABLE cursors(agent TEXT NOT NULL, room_key TEXT NOT NULL, seq INTEGER NOT NULL,
           PRIMARY KEY(agent, room_key));
         INSERT INTO rooms(name, owner) VALUES('r', 'alice');
         INSERT INTO members(room, agent) VALUES('r', 'alice');
         INSERT INTO messages(room_key, sender, text) VALUES('r', 'alice', 'before migration');",
    )
    .unwrap();
    let mut s = Store::init_schema(conn).unwrap();
    let read = op_read(
        &mut s,
        "bob",
        &body(&[("room", "r")]).with("since", Json::Int(0)).with("peek", Json::Bool(true)),
    )
    .unwrap();
    let first = &list(&read, "messages")[0];
    assert_eq!(first.get_str("text"), Some("before migration"));
    assert_eq!(first.get("ts"), Some(&Json::Null), "legacy row keeps ts=null");

    op_join(&mut s, "bob", &body(&[("room", "r")])).unwrap();
    let posted = op_event(
        &mut s,
        "alice",
        &body(&[("room", "r"), ("kind", "phase"), ("phase", "migrated")]),
        1_700_000_000_000,
    )
    .unwrap();
    assert_eq!(posted.get_bool("ok"), Some(true));
    assert!(posted.get_i64("ts").unwrap() > 0);
    let events = op_events(&s, &body(&[("room", "r")]).with("since", Json::Int(0))).unwrap();
    assert_eq!(list(&events, "events")[0].get_str("phase"), Some("migrated"));
}

#[test]
fn refusals_say_why() {
    let mut s = store();
    let mut refuse = |action: &str, agent: &str, b: Json| {
        let (code, doc) = call(&mut s, action, agent, b);
        (code, error(&doc).to_string())
    };
    assert_eq!(
        refuse("create-room", "a", object()),
        (400, "missing field \"name\"".to_string())
    );
    assert_eq!(
        refuse("create-room", "a", body(&[("name", "")])),
        (400, "missing field \"name\"".to_string())
    );
    assert_eq!(
        refuse("join", "a", body(&[("room", "x\"y")])),
        (404, "no room \"x\\\"y\"".to_string())
    );
    assert_eq!(
        refuse("status", "a", body(&[("state", "asleep")])),
        (
            400,
            "bad state \"asleep\"; want one of [\"active\", \"idle\", \"busy\", \"done\"]".to_string()
        )
    );
    assert_eq!(
        refuse("fly", "a", object()),
        (404, "unknown action \"fly\"".to_string())
    );
    assert_eq!(
        refuse("event", "a", body(&[("room", "r"), ("kind", "odd")])),
        (
            400,
            "bad kind \"odd\"; want one of [\"task-start\", \"task-done\", \"task-error\", \"task-abort\", \"step\", \"phase\", \"blocked\", \"handoff\"]".to_string()
        )
    );
    assert_eq!(
        refuse("event", "a", body(&[("room", "r"), ("kind", "step")])),
        (404, "no room \"r\"".to_string())
    );
    call(&mut s, "create-room", "alice", body(&[("name", "r")]));
    let mut refuse = |action: &str, agent: &str, b: Json| {
        let (code, doc) = call(&mut s, action, agent, b);
        (code, error(&doc).to_string())
    };
    assert_eq!(
        refuse("create-room", "bob", body(&[("name", "r")])),
        (409, "room \"r\" already exists (owner \"alice\")".to_string())
    );
    assert_eq!(
        refuse("send", "bob", body(&[("room", "r"), ("text", "x")])),
        (403, "\"bob\" is not a member of \"r\"".to_string())
    );
    assert_eq!(
        refuse("invite", "bob", body(&[("room", "r"), ("target", "c")])),
        (403, "\"bob\" is not a member of \"r\"".to_string())
    );
    assert_eq!(
        refuse("kick", "bob", body(&[("room", "r"), ("target", "alice")])),
        (403, "not owner of \"r\" (owner \"alice\")".to_string())
    );
    assert_eq!(
        refuse("event", "alice", body(&[("room", "r"), ("kind", "step")])),
        (400, "kind \"step\" needs step_cur/step_total or percent".to_string())
    );
    assert_eq!(
        refuse("event", "alice", body(&[("room", "r"), ("kind", "handoff")])),
        (400, "kind \"handoff\" needs field \"target\"".to_string())
    );
    assert_eq!(
        refuse("event", "alice", body(&[("room", "r"), ("kind", "phase")])),
        (400, "kind \"phase\" needs field \"phase\"".to_string())
    );
}

#[test]
fn creating_a_room_twice_changes_nothing() {
    let mut s = store();
    let first = call(&mut s, "create-room", "alice", body(&[("name", "r"), ("type", "private")]));
    let again = call(&mut s, "create-room", "alice", body(&[("name", "r")]));
    assert_eq!(text_of(&first.1), text_of(&again.1));
    let (_, doc) = call(&mut s, "rooms", "alice", object());
    assert_eq!(
        text_of(&doc),
        "{\"rooms\":[{\"members\":[\"alice\"],\"name\":\"r\",\"owner\":\"alice\",\"type\":\"private\"}]}"
    );
}

#[test]
fn membership_comes_and_goes() {
    let mut s = store();
    call(&mut s, "create-room", "zoe", body(&[("name", "r")]));
    call(&mut s, "join", "adam", body(&[("room", "r")]));
    let (_, doc) = call(&mut s, "invite", "adam", body(&[("room", "r"), ("target", "mia")]));
    assert_eq!(doc.get_str("invited"), Some("mia"));
    let members = |s: &mut Store| {
        let (_, doc) = call(s, "rooms", "zoe", object());
        list(&list(&doc, "rooms")[0], "members")
            .iter()
            .map(|m| m.as_str().unwrap().to_string())
            .collect::<Vec<_>>()
    };
    assert_eq!(members(&mut s), vec!["adam", "mia", "zoe"]);
    call(&mut s, "leave", "adam", body(&[("room", "r")]));
    let (_, doc) = call(&mut s, "kick", "zoe", body(&[("room", "r"), ("target", "mia")]));
    assert_eq!(doc.get_str("kicked"), Some("mia"));
    assert_eq!(members(&mut s), vec!["zoe"]);
}

#[test]
fn agents_are_listed_in_order_with_their_states() {
    let mut s = store();
    call(&mut s, "register", "bob", object());
    call(&mut s, "status", "alice", body(&[("state", "busy")]));
    let (_, doc) = call(&mut s, "agents", "bob", object());
    assert_eq!(
        text_of(&doc),
        "{\"agents\":[{\"id\":\"alice\",\"status\":\"busy\"},{\"id\":\"bob\",\"status\":\"active\"}]}"
    );
    let (_, doc) = call(&mut s, "whoami", "alice", object());
    assert_eq!(text_of(&doc), "{\"agent\":\"alice\",\"status\":\"busy\"}");
}

#[test]
fn peeking_leaves_the_cursor_and_since_overrides_it() {
    let mut s = store();
    call(&mut s, "create-room", "alice", body(&[("name", "r")]));
    for t in ["a", "b", "c"] {
        call(&mut s, "send", "alice", body(&[("room", "r"), ("text", t)]));
    }
    let texts = |doc: &Json| {
        list(doc, "messages")
            .iter()
            .map(|m| m.get_str("text").unwrap().to_string())
            .collect::<Vec<_>>()
    };
    let (_, doc) = call(&mut s, "peek", "bob", body(&[("room", "r")]).with("peek", Json::Bool(true)));
    assert_eq!(texts(&doc), vec!["a", "b", "c"]);
    let (_, doc) = call(&mut s, "read", "bob", body(&[("room", "r"), ("since", "1")]));
    assert_eq!(texts(&doc), vec!["b", "c"]);
    let (_, doc) = call(&mut s, "read", "bob", body(&[("room", "r")]));
    assert!(texts(&doc).is_empty());
    let (_, doc) = call(&mut s, "read", "bob", body(&[("room", "r")]).with("since", Json::Int(2)));
    assert_eq!(texts(&doc), vec!["c"]);
    assert_eq!(
        text_of(&list(&doc, "messages")[0]),
        "{\"from\":\"alice\",\"seq\":3,\"text\":\"c\",\"ts\":1700000000000}"
    );
}

#[test]
fn numbers_are_not_given_out_again() {
    let mut s = store();
    call(&mut s, "create-room", "alice", body(&[("name", "r")]));
    call(&mut s, "send", "alice", body(&[("room", "r"), ("text", "one")]));
    call(&mut s, "read", "bob", body(&[("room", "r")]));
    call(&mut s, "destroy-room", "alice", body(&[("room", "r")]));
    call(&mut s, "create-room", "alice", body(&[("name", "r")]));
    let (_, doc) = call(&mut s, "send", "alice", body(&[("room", "r"), ("text", "two")]));
    assert_eq!(doc.get_i64("seq"), Some(2));
    let (_, doc) = call(&mut s, "read", "bob", body(&[("room", "r")]));
    assert_eq!(list(&doc, "messages")[0].get_str("text"), Some("two"));
}

#[test]
fn messages_and_events_are_counted_separately() {
    let mut s = store();
    call(&mut s, "create-room", "alice", body(&[("name", "r")]));
    let (_, doc) = call(&mut s, "send", "alice", body(&[("room", "r"), ("text", "x")]));
    assert_eq!(doc.get_i64("seq"), Some(1));
    let (_, doc) = call(&mut s, "event", "alice", body(&[("room", "r"), ("kind", "phase"), ("phase", "p")]));
    assert_eq!(doc.get_i64("seq"), Some(1));
    assert_eq!(
        text_of(&list(&call(&mut s, "events", "bob", object()).1, "events")[0]),
        "{\"agent\":\"alice\",\"kind\":\"phase\",\"note\":null,\"percent\":null,\"phase\":\"p\",\"room\":\"r\",\"seq\":1,\"step_cur\":null,\"step_total\":null,\"target\":null,\"task\":null,\"ts\":1700000000000}"
    );
    let (_, doc) = call(&mut s, "read", "bob", body(&[("room", "r")]));
    assert_eq!(list(&doc, "messages").len(), 1);
}

#[test]
fn a_channel_is_shared_by_its_two_ends() {
    assert_eq!(dm_key("bob", "alice"), "@alice|bob");
    assert_eq!(dm_key("alice", "bob"), "@alice|bob");
    assert_eq!(dm_key("a", "a"), "@a|a");
    let mut s = store();
    op_dm(&mut s, "bob", &body(&[("to", "alice"), ("text", "psst")]), 5).unwrap();
    for end in ["alice", "bob"] {
        let (_, doc) = call(&mut s, "inbox", end, object());
        let entry = &list(&doc, "inbox")[0];
        assert_eq!(entry.get_str("room"), Some("@alice|bob"));
        assert_eq!(entry.get_i64("unread"), Some(1));
    }
    let (_, doc) = call(&mut s, "inbox", "carol", object());
    assert!(list(&doc, "inbox").is_empty());
    // Reading the channel empties the inbox of the one who reads.
    call(&mut s, "read", "alice", body(&[("room", "@alice|bob")]));
    let (_, doc) = call(&mut s, "inbox", "alice", object());
    assert!(list(&doc, "inbox").is_empty());
}

#[test]
fn only_changes_wake_streams() {
    let mut s = store();
    let mut wakes = |action: &str, b: Json| {
        let call = Call { action: action.to_string(), agent: "alice".to_string() };
        answer(&mut s, &call, &b, 1).unwrap().wake
    };
    assert!(wakes("create-room", body(&[("name", "r")])));
    assert!(wakes("send", body(&[("room", "r"), ("text", "x")])));
    assert!(wakes("dm", body(&[("to", "bob"), ("text", "x")])));
    assert!(wakes("status", body(&[("state", "idle")])));
    assert!(!wakes("status", body(&[("state", "odd")])));
    assert!(!wakes("read", body(&[("room", "r")])));
    assert!(!wakes("inbox", object()));
    assert!(!wakes("whoami", object()));
}

#[test]
fn tokens_and_headers() {
    let line = |n: &str, v: &str| HeaderLine { name: n.to_string(), value: v.to_string() };
    let headers = vec![line("host", "x"), line("AUTHORIZATION", "Bearer t"), line("last-event-id", "3:4")];
    assert!(authorized(&headers, "t"));
    assert!(!authorized(&headers, "T"));
    assert!(!authorized(&headers, ""));
    assert_eq!(header(&headers, "Last-Event-ID"), Some("3:4".to_string()));
    assert_eq!(header(&headers, "Cookie"), None);
    assert!(equal_names("Content-Type", "content-type"));
    assert!(!equal_names("a", "ab"));
    assert!(!equal_names("\u{c4}", "\u{e4}"));
}

#[test]
fn bodies_and_calls() {
    assert_eq!(parse_body(" \r\n\t"), object());
    assert_eq!(parse_body("not json"), Json::Null);
    let b = parse_body("{\"agent\":\"a\",\"x\":1.5}");
    let call = read_call("//send/", &b).unwrap();
    assert_eq!(call.action, "send");
    assert_eq!(call.agent, "a");
    assert_eq!(read_call("/x", &Json::Null).unwrap_err().msg, "bad JSON body");
    assert_eq!(read_call("/x", &parse_body("[1]")).unwrap_err().code, 400);
    assert_eq!(
        read_call("/x", &object()).unwrap_err().msg,
        "missing 'agent' (set ORBAL_NET_AGENT)"
    );
    assert_eq!(
        read_call("/x", &body(&[("agent", "")])).unwrap_err().msg,
        "missing 'agent' (set ORBAL_NET_AGENT)"
    );
}

#[test]
fn failing_statements_are_reported() {
    let conn = rusqlite::Connection::open_in_memory().unwrap();
    conn.execute_batch("CREATE TABLE rooms(other TEXT);").unwrap();
    let mut s = Store::init_schema(conn).unwrap();
    match op_create_room(&mut s, "a", &body(&[("name", "r")])) {
        Err(Failure::Store(_)) => {}
        other => panic!("expected a failed statement, got {other:?}"),
    }
}

#[test]
fn json_texts() {
    let j = parse("{\"b\":[1,null,true,\"x\\n\"],\"a\":-2,\"b\":[18446744073709551615,1.5]}").unwrap();
    assert_eq!(text_of(&j), "{\"a\":-2,\"b\":[18446744073709551615,1.5]}");
    assert_eq!(pretty(&object().with("a", Json::Int(1))), "{\n  \"a\": 1\n}");
    assert_eq!(text_of(&text("l1\nl2\r")), "\"l1\\nl2\\r\"");
    assert_eq!(parse("{"), None);
    assert_eq!(j.get_i64("a"), Some(-2));
    assert_eq!(j.get_i64("b"), None);
    let twice = object().with("k", Json::Int(1)).with("k", Json::Int(2));
    assert_eq!(twice.get_i64("k"), Some(2));
    assert_eq!(text_of(&twice), "{\"k\":2}");
    // Text that is nested beyond the parser's limit is refused.
    let deep = |n: usize| format!("{}{}", "[".repeat(n), "]".repeat(n));
    assert!(parse(&deep(127)).is_some());
    assert!(parse(&deep(128)).is_none());
}

#[test]
fn numbers_of_any_kind_pass_through() {
    for t in ["9223372036854775807", "-9223372036854775808", "18446744073709551615", "1.5"] {
        assert_eq!(text_of(&parse(t).unwrap()), t);
    }
    assert_eq!(parse("9223372036854775807"), Some(Json::Int(i64::MAX)));
    let b = parse("{\"since\": 18446744073709551615}").unwrap();
    assert_eq!(b.get_i64("since"), None);
}

#[test]
fn the_time_column_is_added_where_it_is_not_found() {
    assert!(!lacks_ts(&Ok(true)));
    assert!(lacks_ts(&Ok(false)));
    assert!(lacks_ts(&Err(rusqlite::Error::QueryReturnedNoRows)));
}

#[test]
fn without_the_token_nothing_happens() {
    let mut s = store();
    for action in ["create-room", "stream", "nonsense"] {
        let b = body(&[("agent", "eve"), ("name", "r"), ("mode", "monitor")]);
        for headers in [bearer("wrong"), Vec::new()] {
            let url = format!("/{action}");
            let r = respond(&mut s, &headers, "demo-token", &url, &text_of(&b), 5).unwrap();
            match r {
                Reaction::Reply(a) => {
                    assert_eq!((a.code, a.wake), (401, false));
                    assert_eq!(text_of(&a.body), "{\"error\":\"unauthorized\"}");
                }
                Reaction::Stream { .. } => panic!("a stream was opened"),
            }
        }
    }
    assert!(s.agents().unwrap().is_empty(), "nobody became known");
    assert!(s.rooms().unwrap().is_empty());
}

#[test]
fn with_the_token_requests_are_told_apart() {
    let mut s = store();
    let b = || body(&[("agent", "alice"), ("mode", "monitor")]);
    match react(&mut s, "/stream/", b(), 5).unwrap() {
        Reaction::Stream { call, body } => {
            assert_eq!((call.action.as_str(), call.agent.as_str()), ("stream", "alice"));
            assert_eq!(body.get_str("mode"), Some("monitor"));
        }
        Reaction::Reply(a) => panic!("answered with {}", a.code),
    }
    assert!(s.agents().unwrap().is_empty(), "the stream makes its agent known");
    let r = respond(&mut s, &bearer("t"), "t", "/rooms", "not json", 5).unwrap();
    match r {
        Reaction::Reply(a) => {
            assert_eq!((a.code, a.wake), (400, false));
            assert_eq!(text_of(&a.body), "{\"error\":\"bad JSON body\"}");
        }
        Reaction::Stream { .. } => panic!("a stream was opened"),
    }
    match react(&mut s, "/create-room", b().with("name", text("r")), 5).unwrap() {
        Reaction::Reply(a) => assert_eq!((a.code, a.wake), (200, true)),
        Reaction::Stream { .. } => panic!("a stream was opened"),
    }
    match react(&mut s, "/join", b(), 5).unwrap() {
        Reaction::Reply(a) => assert_eq!((a.code, a.wake), (400, false)),
        Reaction::Stream { .. } => panic!("a stream was opened"),
    }
}

#[test]
fn channels_of_many_parts_are_searched() {
    let mut s = store();
    let name = "|".repeat(200_000);
    op_dm(&mut s, "a", &body(&[("to", &name), ("text", "hi")]), 5).unwrap();
    let keys = s.relevant_rooms("a").unwrap();
    assert_eq!(keys, vec![dm_key("a", &name)]);
    assert!(s.relevant_rooms("b").unwrap().is_empty());
}

/// A database that takes no new agents.
fn closed_shop() -> Store {
    let conn = rusqlite::Connection::open_in_memory().unwrap();
    conn.execute_batch(
        "CREATE TABLE agents(id TEXT PRIMARY KEY, status TEXT NOT NULL DEFAULT 'active');
         CREATE TRIGGER shut BEFORE INSERT ON agents BEGIN SELECT RAISE(ABORT, 'shut'); END;",
    )
    .unwrap();
    Store::init_schema(conn).unwrap()
}

#[test]
fn an_agent_that_cannot_be_noted_is_passed_over() {
    let mut s = closed_shop();
    let ask = |s: &mut Store, action: &str, b: Json| {
        let call = Call { action: action.to_string(), agent: "alice".to_string() };
        answer(s, &call, &b, 5)
    };
    let a = ask(&mut s, "create-room", body(&[("name", "r")])).unwrap();
    assert_eq!((a.code, a.wake), (200, true));
    assert!(a.missed_caller.is_some() && a.missed_target.is_none());
    let a = ask(&mut s, "dm", body(&[("to", "bob"), ("text", "hi")])).unwrap();
    assert_eq!((a.code, a.body.get_i64("seq")), (200, Some(1)));
    assert!(a.missed_caller.is_some() && a.missed_target.is_some());
    let a = ask(&mut s, "invite", body(&[("room", "r"), ("target", "bob")])).unwrap();
    assert!(a.code == 200 && a.missed_target.is_some());
    assert!(s.is_member("r", "bob").unwrap());
    let a = ask(&mut s, "join", object()).unwrap();
    assert!(a.code == 400 && a.missed_caller.is_some());
    assert!(s.agents().unwrap().is_empty());
    assert!(matches!(ask(&mut s, "whoami", object()), Err(Failure::Store(_))));
    let a = ask(&mut s, "register", object()).unwrap();
    assert!(a.code == 200 && a.missed_caller.is_some());
    assert_eq!(ask(&mut s, "nonsense", object()).unwrap().code, 404);

    let plan = read_plan(&body(&[("mode", "recv"), ("room", "r")]), &None).unwrap();
    let started = Session::start(&mut s, plan, "alice").unwrap();
    assert!(started.missed_agent.is_some() && started.missed_mark.is_none());
}

#[test]
fn a_stream_starts_without_the_mark_of_events() {
    let name = "file:mark_test?mode=memory&cache=shared";
    let other = rusqlite::Connection::open(name).unwrap();
    let mut s = Store::init_schema(rusqlite::Connection::open(name).unwrap()).unwrap();
    op_create_room(&mut s, "alice", &body(&[("name", "r")])).unwrap();
    let e = body(&[("room", "r"), ("kind", "phase"), ("phase", "p")]);
    op_event(&mut s, "alice", &e, 5).unwrap();
    op_send(&mut s, "alice", &body(&[("room", "r"), ("text", "hi")]), 5).unwrap();
    let plan = || read_plan(&body(&[("mode", "recv"), ("room", "r")]), &None).unwrap();
    let first_id = |s: &mut Store| {
        let mut started = Session::start(s, plan(), "bob").unwrap();
        let out = started.session.round(s).unwrap();
        let bytes = String::from_utf8(out[0].bytes.clone()).unwrap();
        let id = bytes.lines().find(|l| l.starts_with("id: ")).unwrap().to_string();
        (id, started.missed_mark.is_some())
    };
    assert_eq!(first_id(&mut s), ("id: 1:1".to_string(), false));
    other.execute_batch("DROP TABLE events").unwrap();
    assert_eq!(first_id(&mut s), ("id: 1:0".to_string(), true));
}
