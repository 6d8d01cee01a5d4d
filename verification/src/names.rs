//! The names that requests, replies, commands and frames use, and that no two of them are
//! the same.

use vstd::prelude::*;

verus! {

/// A number by which the names are told apart.
pub closed spec fn mark(s: Seq<char>) -> int {
    s.len() + 100 * (s[0] as int) + 25600 * (s[(s.len() / 2) as int] as int) + 6553600 * (s[s.len()
        - 1] as int)
}

/// No two of the names are the same, as each has its own mark.
pub proof fn lemma_names()
    ensures
        mark("agent"@) == 762812905,
        mark("status"@) == 756645106,
        mark("agents"@) == 756489706,
        mark("rooms"@) == 756517005,
        mark("id"@) == 657930502,
        mark("name"@) == 664715004,
        mark("type"@) == 664792404,
        mark("owner"@) == 749937505,
        mark("members"@) == 756183707,
        mark("ok"@) == 703985502,
        mark("room"@) == 717195404,
        mark("invited"@) == 658058507,
        mark("kicked"@) == 658109906,
        mark("destroyed"@) == 658288409,
        mark("seq"@) == 743153903,
        mark("from"@) == 717194204,
        mark("text"@) == 763301204,
        mark("ts"@) == 756619602,
        mark("messages"@) == 756158108,
        mark("unread"@) == 657957306,
        mark("inbox"@) == 788951305,
        mark("events"@) == 756490106,
        mark("kind"@) == 658186704,
        mark("task"@) == 704190804,
        mark("phase"@) == 664408005,
        mark("step_cur"@) == 749553908,
        mark("step_total"@) == 710769910,
        mark("percent"@) == 762763207,
        mark("target"@) == 762866006,
        mark("note"@) == 664894204,
        mark("since"@) == 664741105,
        mark("peek"@) == 703832004,
        mark("state"@) == 664408305,
        mark("to"@) == 730302802,
        mark("mode"@) == 664484504,
        mark("follow"@) == 782653406,
        mark("once"@) == 664459104,
        mark("timeout"@) == 762814807,
        mark("error"@) == 750038905,
        mark("raw"@) == 782373003,
        mark("register"@) == 750065808,
        mark("whoami"@) == 690623106,
        mark("create-room"@) == 716937911,
        mark("join"@) == 723594604,
        mark("leave"@) == 664407605,
        mark("destroy-room"@) == 717450012,
        mark("send"@) == 658187504,
        mark("dm"@) == 717142802,
        mark("read"@) == 657854604,
        mark("invite"@) == 664612106,
        mark("kick"@) == 703780304,
        mark("event"@) == 762813305,
        mark("stream"@) == 716939506,
        mark("progress"@) == 756593608,
        mark("wait"@) == 762917504,
        mark("active"@) == 664611306,
        mark("idle"@) == 664688904,
        mark("busy"@) == 795939404,
        mark("done"@) == 664739604,
        mark("public"@) == 651582406,
        mark("task-start"@) == 763173210,
        mark("task-done"@) == 663077209,
        mark("task-error"@) == 749707610,
        mark("task-abort"@) == 762712410,
        mark("step"@) == 736600304,
        mark("blocked"@) == 657904207,
        mark("handoff"@) == 671037607,
        mark("recv"@) == 775870604,
        mark("monitor"@) == 749809307,
        mark("message"@) == 664868507,
        mark("roster"@) == 750091406,
        mark("ready"@) == 795480205,
        mark("start"@) == 762712305,
        mark("abort"@) == 763068905,
        mark("running"@) == 677848207,
        mark("--since"@) == 664606107,
        mark("--timeout"@) == 763012509,
        mark("--follow"@) == 782647708,
        mark("--type"@) == 665015706,
        mark("--task"@) == 703722906,
        mark("--phase"@) == 664580507,
        mark("--step"@) == 736977306,
        mark("--percent"@) == 763140509,
        mark("--to"@) == 730423704,
        mark("--note"@) == 664759706,
        mark("--token"@) == 723742107,
        mark("--port"@) == 763063706,
        mark("--db"@) == 644817304,
        mark("--dir"@) == 749674905,
        mark("--install"@) == 710737309,
{
    reveal_strlit("agent");
    reveal_strlit("status");
    reveal_strlit("agents");
    reveal_strlit("rooms");
    reveal_strlit("id");
    reveal_strlit("name");
    reveal_strlit("type");
    reveal_strlit("owner");
    reveal_strlit("members");
    reveal_strlit("ok");
    reveal_strlit("room");
    reveal_strlit("invited");
    reveal_strlit("kicked");
    reveal_strlit("destroyed");
    reveal_strlit("seq");
    reveal_strlit("from");
    reveal_strlit("text");
    reveal_strlit("ts");
    reveal_strlit("messages");
    reveal_strlit("unread");
    reveal_strlit("inbox");
    reveal_strlit("events");
    reveal_strlit("kind");
    reveal_strlit("task");
    reveal_strlit("phase");
    reveal_strlit("step_cur");
    reveal_strlit("step_total");
    reveal_strlit("percent");
    reveal_strlit("target");
    reveal_strlit("note");
    reveal_strlit("since");
    reveal_strlit("peek");
    reveal_strlit("state");
    reveal_strlit("to");
    reveal_strlit("mode");
    reveal_strlit("follow");
    reveal_strlit("once");
    reveal_strlit("timeout");
    reveal_strlit("error");
    reveal_strlit("raw");
    reveal_strlit("register");
    reveal_strlit("whoami");
    reveal_strlit("create-room");
    reveal_strlit("join");
    reveal_strlit("leave");
    reveal_strlit("destroy-room");
    reveal_strlit("send");
    reveal_strlit("dm");
    reveal_strlit("read");
    reveal_strlit("invite");
    reveal_strlit("kick");
    reveal_strlit("event");
    reveal_strlit("stream");
    reveal_strlit("progress");
    reveal_strlit("wait");
    reveal_strlit("active");
    reveal_strlit("idle");
    reveal_strlit("busy");
    reveal_strlit("done");
    reveal_strlit("public");
    reveal_strlit("task-start");
    reveal_strlit("task-done");
    reveal_strlit("task-error");
    reveal_strlit("task-abort");
    reveal_strlit("step");
    reveal_strlit("blocked");
    reveal_strlit("handoff");
    reveal_strlit("recv");
    reveal_strlit("monitor");
    reveal_strlit("message");
    reveal_strlit("roster");
    reveal_strlit("ready");
    reveal_strlit("start");
    reveal_strlit("abort");
    reveal_strlit("running");
    reveal_strlit("--since");
    reveal_strlit("--timeout");
    reveal_strlit("--follow");
    reveal_strlit("--type");
    reveal_strlit("--task");
    reveal_strlit("--phase");
    reveal_strlit("--step");
    reveal_strlit("--percent");
    reveal_strlit("--to");
    reveal_strlit("--note");
    reveal_strlit("--token");
    reveal_strlit("--port");
    reveal_strlit("--db");
    reveal_strlit("--dir");
    reveal_strlit("--install");
    assert("agent"@.len() == 5 && "agent"@[0] == 'a' && "agent"@[2] == 'e' && "agent"@[4] == 't');
    assert("status"@.len() == 6 && "status"@[0] == 's' && "status"@[3] == 't' && "status"@[5] == 's');
    assert("agents"@.len() == 6 && "agents"@[0] == 'a' && "agents"@[3] == 'n' && "agents"@[5] == 's');
    assert("rooms"@.len() == 5 && "rooms"@[0] == 'r' && "rooms"@[2] == 'o' && "rooms"@[4] == 's');
    assert("id"@.len() == 2 && "id"@[0] == 'i' && "id"@[1] == 'd' && "id"@[1] == 'd');
    assert("name"@.len() == 4 && "name"@[0] == 'n' && "name"@[2] == 'm' && "name"@[3] == 'e');
    assert("type"@.len() == 4 && "type"@[0] == 't' && "type"@[2] == 'p' && "type"@[3] == 'e');
    assert("owner"@.len() == 5 && "owner"@[0] == 'o' && "owner"@[2] == 'n' && "owner"@[4] == 'r');
    assert("members"@.len() == 7 && "members"@[0] == 'm' && "members"@[3] == 'b' && "members"@[6] == 's');
    assert("ok"@.len() == 2 && "ok"@[0] == 'o' && "ok"@[1] == 'k' && "ok"@[1] == 'k');
    assert("room"@.len() == 4 && "room"@[0] == 'r' && "room"@[2] == 'o' && "room"@[3] == 'm');
    assert("invited"@.len() == 7 && "invited"@[0] == 'i' && "invited"@[3] == 'i' && "invited"@[6] == 'd');
    assert("kicked"@.len() == 6 && "kicked"@[0] == 'k' && "kicked"@[3] == 'k' && "kicked"@[5] == 'd');
    assert("destroyed"@.len() == 9 && "destroyed"@[0] == 'd' && "destroyed"@[4] == 'r' && "destroyed"@[8] == 'd');
    assert("seq"@.len() == 3 && "seq"@[0] == 's' && "seq"@[1] == 'e' && "seq"@[2] == 'q');
    assert("from"@.len() == 4 && "from"@[0] == 'f' && "from"@[2] == 'o' && "from"@[3] == 'm');
    assert("text"@.len() == 4 && "text"@[0] == 't' && "text"@[2] == 'x' && "text"@[3] == 't');
    assert("ts"@.len() == 2 && "ts"@[0] == 't' && "ts"@[1] == 's' && "ts"@[1] == 's');
    assert("messages"@.len() == 8 && "messages"@[0] == 'm' && "messages"@[4] == 'a' && "messages"@[7] == 's');
    assert("unread"@.len() == 6 && "unread"@[0] == 'u' && "unread"@[3] == 'e' && "unread"@[5] == 'd');
    assert("inbox"@.len() == 5 && "inbox"@[0] == 'i' && "inbox"@[2] == 'b' && "inbox"@[4] == 'x');
    assert("events"@.len() == 6 && "events"@[0] == 'e' && "events"@[3] == 'n' && "events"@[5] == 's');
    assert("kind"@.len() == 4 && "kind"@[0] == 'k' && "kind"@[2] == 'n' && "kind"@[3] == 'd');
    assert("task"@.len() == 4 && "task"@[0] == 't' && "task"@[2] == 's' && "task"@[3] == 'k');
    assert("phase"@.len() == 5 && "phase"@[0] == 'p' && "phase"@[2] == 'a' && "phase"@[4] == 'e');
    assert("step_cur"@.len() == 8 && "step_cur"@[0] == 's' && "step_cur"@[4] == '_' && "step_cur"@[7] == 'r');
    assert("step_total"@.len() == 10 && "step_total"@[0] == 's' && "step_total"@[5] == 't' && "step_total"@[9] == 'l');
    assert("percent"@.len() == 7 && "percent"@[0] == 'p' && "percent"@[3] == 'c' && "percent"@[6] == 't');
    assert("target"@.len() == 6 && "target"@[0] == 't' && "target"@[3] == 'g' && "target"@[5] == 't');
    assert("note"@.len() == 4 && "note"@[0] == 'n' && "note"@[2] == 't' && "note"@[3] == 'e');
    assert("since"@.len() == 5 && "since"@[0] == 's' && "since"@[2] == 'n' && "since"@[4] == 'e');
    assert("peek"@.len() == 4 && "peek"@[0] == 'p' && "peek"@[2] == 'e' && "peek"@[3] == 'k');
    assert("state"@.len() == 5 && "state"@[0] == 's' && "state"@[2] == 'a' && "state"@[4] == 'e');
    assert("to"@.len() == 2 && "to"@[0] == 't' && "to"@[1] == 'o' && "to"@[1] == 'o');
    assert("mode"@.len() == 4 && "mode"@[0] == 'm' && "mode"@[2] == 'd' && "mode"@[3] == 'e');
    assert("follow"@.len() == 6 && "follow"@[0] == 'f' && "follow"@[3] == 'l' && "follow"@[5] == 'w');
    assert("once"@.len() == 4 && "once"@[0] == 'o' && "once"@[2] == 'c' && "once"@[3] == 'e');
    assert("timeout"@.len() == 7 && "timeout"@[0] == 't' && "timeout"@[3] == 'e' && "timeout"@[6] == 't');
    assert("error"@.len() == 5 && "error"@[0] == 'e' && "error"@[2] == 'r' && "error"@[4] == 'r');
    assert("raw"@.len() == 3 && "raw"@[0] == 'r' && "raw"@[1] == 'a' && "raw"@[2] == 'w');
    assert("register"@.len() == 8 && "register"@[0] == 'r' && "register"@[4] == 's' && "register"@[7] == 'r');
    assert("whoami"@.len() == 6 && "whoami"@[0] == 'w' && "whoami"@[3] == 'a' && "whoami"@[5] == 'i');
    assert("create-room"@.len() == 11 && "create-room"@[0] == 'c' && "create-room"@[5] == 'e' && "create-room"@[10] == 'm');
    assert("join"@.len() == 4 && "join"@[0] == 'j' && "join"@[2] == 'i' && "join"@[3] == 'n');
    assert("leave"@.len() == 5 && "leave"@[0] == 'l' && "leave"@[2] == 'a' && "leave"@[4] == 'e');
    assert("destroy-room"@.len() == 12 && "destroy-room"@[0] == 'd' && "destroy-room"@[6] == 'y' && "destroy-room"@[11] == 'm');
    assert("send"@.len() == 4 && "send"@[0] == 's' && "send"@[2] == 'n' && "send"@[3] == 'd');
    assert("dm"@.len() == 2 && "dm"@[0] == 'd' && "dm"@[1] == 'm' && "dm"@[1] == 'm');
    assert("read"@.len() == 4 && "read"@[0] == 'r' && "read"@[2] == 'a' && "read"@[3] == 'd');
    assert("invite"@.len() == 6 && "invite"@[0] == 'i' && "invite"@[3] == 'i' && "invite"@[5] == 'e');
    assert("kick"@.len() == 4 && "kick"@[0] == 'k' && "kick"@[2] == 'c' && "kick"@[3] == 'k');
    assert("event"@.len() == 5 && "event"@[0] == 'e' && "event"@[2] == 'e' && "event"@[4] == 't');
    assert("stream"@.len() == 6 && "stream"@[0] == 's' && "stream"@[3] == 'e' && "stream"@[5] == 'm');
    assert("progress"@.len() == 8 && "progress"@[0] == 'p' && "progress"@[4] == 'r' && "progress"@[7] == 's');
    assert("wait"@.len() == 4 && "wait"@[0] == 'w' && "wait"@[2] == 'i' && "wait"@[3] == 't');
    assert("active"@.len() == 6 && "active"@[0] == 'a' && "active"@[3] == 'i' && "active"@[5] == 'e');
    assert("idle"@.len() == 4 && "idle"@[0] == 'i' && "idle"@[2] == 'l' && "idle"@[3] == 'e');
    assert("busy"@.len() == 4 && "busy"@[0] == 'b' && "busy"@[2] == 's' && "busy"@[3] == 'y');
    assert("done"@.len() == 4 && "done"@[0] == 'd' && "done"@[2] == 'n' && "done"@[3] == 'e');
    assert("public"@.len() == 6 && "public"@[0] == 'p' && "public"@[3] == 'l' && "public"@[5] == 'c');
    assert("task-start"@.len() == 10 && "task-start"@[0] == 't' && "task-start"@[5] == 's' && "task-start"@[9] == 't');
    assert("task-done"@.len() == 9 && "task-done"@[0] == 't' && "task-done"@[4] == '-' && "task-done"@[8] == 'e');
    assert("task-error"@.len() == 10 && "task-error"@[0] == 't' && "task-error"@[5] == 'e' && "task-error"@[9] == 'r');
    assert("task-abort"@.len() == 10 && "task-abort"@[0] == 't' && "task-abort"@[5] == 'a' && "task-abort"@[9] == 't');
    assert("step"@.len() == 4 && "step"@[0] == 's' && "step"@[2] == 'e' && "step"@[3] == 'p');
    assert("blocked"@.len() == 7 && "blocked"@[0] == 'b' && "blocked"@[3] == 'c' && "blocked"@[6] == 'd');
    assert("handoff"@.len() == 7 && "handoff"@[0] == 'h' && "handoff"@[3] == 'd' && "handoff"@[6] == 'f');
    assert("recv"@.len() == 4 && "recv"@[0] == 'r' && "recv"@[2] == 'c' && "recv"@[3] == 'v');
    assert("monitor"@.len() == 7 && "monitor"@[0] == 'm' && "monitor"@[3] == 'i' && "monitor"@[6] == 'r');
    assert("message"@.len() == 7 && "message"@[0] == 'm' && "message"@[3] == 's' && "message"@[6] == 'e');
    assert("roster"@.len() == 6 && "roster"@[0] == 'r' && "roster"@[3] == 't' && "roster"@[5] == 'r');
    assert("ready"@.len() == 5 && "ready"@[0] == 'r' && "ready"@[2] == 'a' && "ready"@[4] == 'y');
    assert("start"@.len() == 5 && "start"@[0] == 's' && "start"@[2] == 'a' && "start"@[4] == 't');
    assert("abort"@.len() == 5 && "abort"@[0] == 'a' && "abort"@[2] == 'o' && "abort"@[4] == 't');
    assert("running"@.len() == 7 && "running"@[0] == 'r' && "running"@[3] == 'n' && "running"@[6] == 'g');
    assert("--since"@.len() == 7 && "--since"@[0] == '-' && "--since"@[3] == 'i' && "--since"@[6] == 'e');
    assert("--timeout"@.len() == 9 && "--timeout"@[0] == '-' && "--timeout"@[4] == 'm' && "--timeout"@[8] == 't');
    assert("--follow"@.len() == 8 && "--follow"@[0] == '-' && "--follow"@[4] == 'l' && "--follow"@[7] == 'w');
    assert("--type"@.len() == 6 && "--type"@[0] == '-' && "--type"@[3] == 'y' && "--type"@[5] == 'e');
    assert("--task"@.len() == 6 && "--task"@[0] == '-' && "--task"@[3] == 'a' && "--task"@[5] == 'k');
    assert("--phase"@.len() == 7 && "--phase"@[0] == '-' && "--phase"@[3] == 'h' && "--phase"@[6] == 'e');
    assert("--step"@.len() == 6 && "--step"@[0] == '-' && "--step"@[3] == 't' && "--step"@[5] == 'p');
    assert("--percent"@.len() == 9 && "--percent"@[0] == '-' && "--percent"@[4] == 'r' && "--percent"@[8] == 't');
    assert("--to"@.len() == 4 && "--to"@[0] == '-' && "--to"@[2] == 't' && "--to"@[3] == 'o');
    assert("--note"@.len() == 6 && "--note"@[0] == '-' && "--note"@[3] == 'o' && "--note"@[5] == 'e');
    assert("--token"@.len() == 7 && "--token"@[0] == '-' && "--token"@[3] == 'o' && "--token"@[6] == 'n');
    assert("--port"@.len() == 6 && "--port"@[0] == '-' && "--port"@[3] == 'o' && "--port"@[5] == 't');
    assert("--db"@.len() == 4 && "--db"@[0] == '-' && "--db"@[2] == 'd' && "--db"@[3] == 'b');
    assert("--dir"@.len() == 5 && "--dir"@[0] == '-' && "--dir"@[2] == 'd' && "--dir"@[4] == 'r');
    assert("--install"@.len() == 9 && "--install"@[0] == '-' && "--install"@[4] == 's' && "--install"@[8] == 'l');
}

} // verus!
