use orbal_net::cli::{
    client_command, parse_flag, parse_opt, parse_recv, parse_serve, parse_skill, parse_step,
    recv_patience, signed, split_note, usage, SkillAction,
};
use orbal_net::http::{
    error_detail, head_complete, head_status, post_request, response_body, show_answer,
    status_code, stream_request, target,
};
use orbal_net::json::text_of;
use orbal_net::server::{answer, read_call};
use orbal_net::store::Store;

fn args(v: &[&str]) -> Vec<String> {
    v.iter().map(|s| s.to_string()).collect()
}

/// The action and the body of a command.
fn ok(cmd: &str, rest: &[&str]) -> (String, String) {
    let c = client_command(cmd, &args(rest)).unwrap();
    (c.action, text_of(&c.body))
}

fn err(cmd: &str, rest: &[&str]) -> String {
    client_command(cmd, &args(rest)).unwrap_err()
}

fn pair(a: &str, b: &str) -> (String, String) {
    (a.to_string(), b.to_string())
}

#[test]
fn options_are_pulled_out() {
    assert_eq!(
        parse_opt(&args(&["a", "--x", "1", "b", "--x", "2"]), "--x"),
        Ok((Some("1".to_string()), args(&["a", "b", "--x", "2"])))
    );
    assert_eq!(parse_opt(&args(&["a"]), "--x"), Ok((None, args(&["a"]))));
    assert_eq!(parse_opt(&args(&["a", "--x"]), "--x"), Err("--x needs a value".to_string()));
    assert_eq!(parse_flag(&args(&["a", "--f", "b"]), "--f"), (true, args(&["a", "b"])));
    assert_eq!(parse_flag(&args(&["a"]), "--f"), (false, args(&["a"])));
    assert_eq!(
        split_note(&args(&["a", "--note", "x", "--note", "y"])),
        (args(&["a"]), Some("x --note y".to_string()))
    );
    assert_eq!(split_note(&args(&["--note"])), (args(&[]), Some(String::new())));
    assert_eq!(parse_step("3/8"), Ok((3, 8)));
    assert_eq!(
        parse_step("3"),
        Err("bad --step value \"3\"; want N/M".to_string())
    );
    assert_eq!(
        parse_step("3/x"),
        Err("bad --step value \"3/x\"; want N/M".to_string())
    );
}

#[test]
fn commands_make_bodies() {
    assert_eq!(ok("whoami", &[]), pair("whoami", "{}"));
    assert_eq!(ok("status", &["busy"]), pair("status", "{\"state\":\"busy\"}"));
    assert_eq!(
        ok("create-room", &["r", "--type", "private"]),
        pair("create-room", "{\"name\":\"r\",\"type\":\"private\"}")
    );
    assert_eq!(ok("leave", &["r"]), pair("leave", "{\"room\":\"r\"}"));
    assert_eq!(
        ok("send", &["r", "hello", "there"]),
        pair("send", "{\"room\":\"r\",\"text\":\"hello there\"}")
    );
    assert_eq!(
        ok("dm", &["bob", "psst"]),
        pair("dm", "{\"text\":\"psst\",\"to\":\"bob\"}")
    );
    assert_eq!(
        ok("peek", &["r", "--since", "4"]),
        pair("peek", "{\"peek\":true,\"room\":\"r\",\"since\":\"4\"}")
    );
    assert_eq!(ok("read", &["r"]), pair("read", "{\"room\":\"r\"}"));
    assert_eq!(
        ok("wait", &["r", "--timeout", "9"]),
        pair("wait", "{\"room\":\"r\",\"timeout\":\"9\"}")
    );
    assert_eq!(client_command("wait", &args(&["r"])).unwrap().patience_secs, 600);
    assert_eq!(client_command("read", &args(&["r"])).unwrap().patience_secs, 30);
    assert_eq!(
        ok("kick", &["r", "bob"]),
        pair("kick", "{\"room\":\"r\",\"target\":\"bob\"}")
    );
    assert_eq!(
        ok(
            "event",
            &["r", "step", "--task", "t", "--step", "3/8", "--percent", "37%", "--to", "bob", "--note", "a", "b"]
        ),
        pair(
            "event",
            "{\"kind\":\"step\",\"note\":\"a b\",\"percent\":37,\"room\":\"r\",\"step_cur\":3,\"step_total\":8,\"target\":\"bob\",\"task\":\"t\"}"
        )
    );
    assert_eq!(
        ok("progress", &["r", "50%", "--task", "t"]),
        pair("event", "{\"kind\":\"step\",\"percent\":50,\"room\":\"r\",\"task\":\"t\"}")
    );
    assert_eq!(
        ok("progress", &["r", "1/2"]),
        pair("event", "{\"kind\":\"step\",\"room\":\"r\",\"step_cur\":1,\"step_total\":2}")
    );
    assert_eq!(ok("events", &["r"]), pair("events", "{\"room\":\"r\"}"));
}

#[test]
fn malformed_commands_are_explained() {
    assert_eq!(err("status", &[]), "usage: orbal-net status <active|idle|busy|done>");
    assert_eq!(err("create-room", &[]), "usage: orbal-net create-room <name> [--type public]");
    assert_eq!(err("create-room", &["--type"]), "--type needs a value");
    assert_eq!(err("join", &["a", "b"]), "usage: orbal-net join <room>");
    assert_eq!(err("send", &["r"]), "usage: orbal-net send <room> <message...>");
    assert_eq!(err("dm", &["bob"]), "usage: orbal-net dm <agent> <message...>");
    assert_eq!(err("peek", &[]), "usage: orbal-net peek <room> [--since <seq>]");
    assert_eq!(
        err("wait", &[]),
        "usage: orbal-net wait <room> [--since <seq>] [--timeout <secs>]"
    );
    assert_eq!(err("invite", &["r"]), "usage: orbal-net invite <room> <agent>");
    assert!(err("event", &["r"]).starts_with("usage: orbal-net event <room> <kind>"));
    assert_eq!(
        err("event", &["r", "step", "--percent", "x"]),
        "bad --percent value \"x\""
    );
    assert_eq!(
        err("progress", &["r", "x%"]),
        "bad progress value \"x%\""
    );
    assert_eq!(
        err("progress", &["r"]),
        "usage: orbal-net progress <room> <N/M | P%> [--task T] [--note <text...>]"
    );
    assert_eq!(err("events", &[]), "usage: orbal-net events <room> [--since <seq>]");
    assert_eq!(
        err("fly", &[]),
        "unknown command \"fly\" (see orbal-net with no args)"
    );
    let lines: Vec<String> = usage().split('\n').map(|l| l.to_string()).collect();
    assert_eq!(lines.len(), 18);
    assert_eq!(lines[0], "orbal-net <subcommand> [args]");
    assert_eq!(lines[1], "  serve --token <t> [--port N] [--db <path>]");
    assert_eq!(lines[10], "  wait <room> [--since <seq>] [--timeout <secs>]   # deprecated, see recv");
    assert_eq!(
        lines[14],
        "    kinds: task-start | task-done | task-error | task-abort | step | phase | blocked | handoff"
    );
    assert_eq!(lines[17], "  tui [--interval <secs>]   # live full-screen dashboard (alias: watch)");
}

#[test]
fn recv_arguments() {
    let a = parse_recv(&args(&["--since", "3:4", "r", "--follow", "--timeout", "7"])).unwrap();
    assert_eq!((a.room.as_str(), a.timeout_secs, a.follow), ("r", 7, true));
    assert_eq!(a.since, Some("3:4".to_string()));
    let a = parse_recv(&args(&["r"])).unwrap();
    assert_eq!((a.since, a.timeout_secs, a.follow), (None, 120, false));
    assert_eq!(
        parse_recv(&args(&["r", "--since", "3"])).unwrap_err(),
        "bad --since value \"3\"; want \"<msgSeq>:<evtSeq>\""
    );
    assert_eq!(
        parse_recv(&args(&["r", "--timeout", "-1"])).unwrap_err(),
        "bad --timeout value \"-1\""
    );
    assert_eq!(
        parse_recv(&args(&[])).unwrap_err(),
        "usage: orbal-net recv <room> [--since <id>] [--timeout <secs>] [--follow]"
    );
}

#[test]
fn serve_arguments() {
    let a = parse_serve(&args(&["--token", "t", "--port", "80", "--db", "x.db"])).unwrap();
    assert_eq!((a.token.as_str(), a.port, a.db.as_str()), ("t", 80, "x.db"));
    let a = parse_serve(&args(&["--token", "t"])).unwrap();
    assert_eq!((a.port, a.db.as_str()), (0, ":memory:"));
    let bad = |v: &[&str]| parse_serve(&args(v)).unwrap_err();
    assert_eq!(bad(&[]), "--token is required");
    assert_eq!(bad(&["--token"]), "--token is required");
    assert_eq!(bad(&["--token", "t", "--port"]), "--port needs a number");
    assert_eq!(bad(&["--port", "65536"]), "--port needs a number");
    assert_eq!(bad(&["--db"]), "--db needs a path");
    assert_eq!(bad(&["--what"]), "unknown serve flag \"--what\"");
}

#[test]
fn skill_arguments() {
    assert_eq!(parse_skill(&args(&[])), Ok(SkillAction::Print));
    assert_eq!(
        parse_skill(&args(&["--install", "--dir", "d"])),
        Ok(SkillAction::Install("d".to_string()))
    );
    let usage = Err("usage: orbal-net skill [--install --dir <dir>]".to_string());
    assert_eq!(parse_skill(&args(&["--install"])), usage);
    assert_eq!(parse_skill(&args(&["--dir", "d"])), usage);
    assert_eq!(parse_skill(&args(&["x"])), usage);
    assert_eq!(
        parse_skill(&args(&["--install", "--dir"])),
        Err("--dir needs a value".to_string())
    );
}

#[test]
fn requests_are_written() {
    let t = target("  http://10.0.0.4:54123/base// ").unwrap();
    assert_eq!(t.hostport, "10.0.0.4:54123");
    assert_eq!(t.base_path, "/base");
    assert_eq!(
        post_request(&t, "tok", "send", "{\"t\":\"\u{e9}\"}"),
        "POST /base/send HTTP/1.1\r\nHost: 10.0.0.4:54123\r\nAuthorization: Bearer tok\r\n\
         Content-Type: application/json\r\nContent-Length: 10\r\nConnection: close\r\n\r\n{\"t\":\"\u{e9}\"}"
    );
    let t = target("http://h:1").unwrap();
    assert_eq!(
        stream_request(&t, "tok", "{}", &Some("1:2".to_string())),
        "POST /stream HTTP/1.1\r\nHost: h:1\r\nAuthorization: Bearer tok\r\n\
         Content-Type: application/json\r\nContent-Length: 2\r\nConnection: keep-alive\r\n\
         Last-Event-ID: 1:2\r\n\r\n{}"
    );
    assert!(!stream_request(&t, "tok", "{}", &None).contains("Last-Event-ID"));
    assert!(target("https://h").is_none());
    assert!(target("").is_none());
}

#[test]
fn responses_are_read() {
    let r = "HTTP/1.1 403 Forbidden\r\nA: b\r\n\r\n{\"error\":\"no\"}\r\n\r\nx";
    assert_eq!(status_code(r), Some(403));
    assert_eq!(response_body(r), "{\"error\":\"no\"}\r\n\r\nx");
    assert_eq!(status_code("HTTP/1.1"), None);
    assert_eq!(status_code(""), None);
    assert_eq!(status_code("  a \t 70000 x"), None);
    assert_eq!(response_body("no head"), "");
    assert_eq!(head_status(b"HTTP/1.1 200 OK\r\n\r\n"), Some(200));
    assert!(head_complete(b"x\r\n\r\n"));
    assert!(!head_complete(b"\r\n\r"));
    assert!(!head_complete(b"\r\n\r\nx"));
    assert_eq!(error_detail("{\"error\":\"no\"}"), "no");
    assert_eq!(error_detail("{\"error\":1}"), "(no detail)");
    assert_eq!(error_detail("oops"), "(no detail)");
    assert_eq!(show_answer("send", 200, "{\"ok\":true}"), Ok("{\n  \"ok\": true\n}".to_string()));
    assert_eq!(show_answer("send", 200, "oops"), Ok("{\n  \"raw\": \"oops\"\n}".to_string()));
    assert_eq!(
        show_answer("send", 403, "{\"error\":\"no\"}"),
        Err("send: 403 no".to_string())
    );
    assert_eq!(show_answer("send", 500, "oops"), Err("send: 500 (no detail)".to_string()));
}

#[test]
fn commands_are_what_the_server_does() {
    let commands: [(&str, &[&str]); 19] = [
        ("whoami", &[]),
        ("agents", &[]),
        ("status", &["busy"]),
        ("create-room", &["r"]),
        ("rooms", &[]),
        ("join", &["r"]),
        ("send", &["r", "hi"]),
        ("dm", &["bob", "psst"]),
        ("read", &["r"]),
        ("peek", &["r"]),
        ("inbox", &[]),
        ("invite", &["r", "bob"]),
        ("kick", &["r", "bob"]),
        ("event", &["r", "phase", "--phase", "p"]),
        ("progress", &["r", "1/2"]),
        ("events", &["r"]),
        ("leave", &["r"]),
        ("destroy-room", &["r"]),
        ("wait", &["r"]),
    ];
    let mut store = Store::in_memory().unwrap();
    for (cmd, rest) in commands {
        let c = client_command(cmd, &args(rest)).unwrap();
        let body = signed(c.body, "alice");
        let call = read_call(&format!("/{}", c.action), &body).unwrap();
        let a = answer(&mut store, &call, &body, 5).unwrap();
        assert_eq!(a.code, if cmd == "wait" { 404 } else { 200 }, "{cmd}");
    }
}

#[test]
fn one_shot_calls_outlast_the_server() {
    let patience = |v: &[&str]| recv_patience(&parse_recv(&args(v)).unwrap());
    assert_eq!(patience(&["r"]), Some(150));
    assert_eq!(patience(&["r", "--timeout", "1"]), Some(31));
    assert_eq!(patience(&["r", "--timeout", "18446744073709551615"]), Some(u64::MAX));
    assert_eq!(patience(&["r", "--timeout", "1", "--follow"]), None);
}

#[test]
fn progress_is_a_step_event() {
    assert_eq!(
        ok("progress", &["r", "3/8", "--task", "t", "--note", "a", "b"]),
        ok("event", &["r", "step", "--step", "3/8", "--task", "t", "--note", "a", "b"])
    );
    assert_eq!(
        ok("progress", &["r", "40%"]),
        ok("event", &["r", "step", "--percent", "40%"])
    );
}
