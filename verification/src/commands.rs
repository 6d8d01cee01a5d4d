//! What command lines come to: how their options are read, what they ask the server for, and what
//! the server makes of it.

use crate::cli::{
    command_body, event_options, event_with, patience, percent_of, recv_args, recv_limit,
    recv_timeout,
    serve_args, serve_from, signed_by, skill_action, step_of, take_flag, take_note, take_opt,
    wire_action, EventOptions, RecvArgsData, ServeData,
};
use crate::json::{field, JsonData};
use crate::names::lemma_names;
use crate::number::{
    decimal, lemma_decimal_chars, lemma_decimal_roundtrip, lemma_unsigned_roundtrip, unsigned_value,
};
use crate::ops::{outcome, Outcome};
use crate::requests::{given, holds, keys_of, law_dm, law_send};
use crate::sse::since_value;
use crate::tables::Tables;
use crate::text::{joined, lemma_first_of, quoted, trim_end_set};
use vstd::prelude::*;

verus! {

// ---- options

/// The first option of a name is taken out with the value behind it, wherever it stands; without
/// one the arguments stay as they are, and one that stands last lacks its value.
pub proof fn law_option_is_taken(
    a: Seq<Seq<char>>,
    v: Seq<char>,
    b: Seq<Seq<char>>,
    name: Seq<char>,
)
    requires
        !a.contains(name),
    ensures
        take_opt(a + seq![name, v] + b, name) == Ok::<
            (Option<Seq<char>>, Seq<Seq<char>>),
            Seq<char>,
        >((Some(v), a + b)),
        take_opt(a, name) == Ok::<(Option<Seq<char>>, Seq<Seq<char>>), Seq<char>>((None, a)),
        take_opt(a.push(name), name) == Err::<(Option<Seq<char>>, Seq<Seq<char>>), Seq<char>>(
            name + " needs a value"@,
        ),
{
    let args = a + seq![name, v] + b;
    assert forall|j: int| 0 <= j < a.len() implies a[j] != name by {
        assert(a.contains(a[j]));
    }
    lemma_first_of(args, name, a.len() as int);
    lemma_first_of(a, name, a.len() as int);
    lemma_first_of(a.push(name), name, a.len() as int);
    assert(args[a.len() as int + 1] == v);
    assert(args.take(a.len() as int) =~= a);
    assert(args.skip(a.len() as int + 2) =~= b);
}

/// The first flag of a name is taken out, wherever it stands; without one the arguments stay as
/// they are.
pub proof fn law_flag_is_taken(a: Seq<Seq<char>>, b: Seq<Seq<char>>, name: Seq<char>)
    requires
        !a.contains(name),
    ensures
        take_flag(a + seq![name] + b, name) == (true, a + b),
        take_flag(a, name) == (false, a),
{
    let args = a + seq![name] + b;
    assert forall|j: int| 0 <= j < a.len() implies a[j] != name by {
        assert(a.contains(a[j]));
    }
    lemma_first_of(args, name, a.len() as int);
    lemma_first_of(a, name, a.len() as int);
    assert(args.take(a.len() as int) =~= a);
    assert(args.skip(a.len() as int + 1) =~= b);
}

/// All words behind `--note` make the note; without one the arguments stay as they are.
pub proof fn law_note_is_taken(a: Seq<Seq<char>>, words: Seq<Seq<char>>)
    requires
        !a.contains("--note"@),
    ensures
        take_note(a + seq!["--note"@] + words) == (a, Some(joined(words, " "@))),
        take_note(a) == (a, None::<Seq<char>>),
{
    let args = a + seq!["--note"@] + words;
    assert forall|j: int| 0 <= j < a.len() implies a[j] != "--note"@ by {
        assert(a.contains(a[j]));
    }
    lemma_first_of(args, "--note"@, a.len() as int);
    lemma_first_of(a, "--note"@, a.len() as int);
    assert(args.take(a.len() as int) =~= a);
    assert(args.skip(a.len() as int + 1) =~= words);
}

/// Words are put together with the separator between each two of them, and nothing else.
pub proof fn law_words_are_joined(words: Seq<Seq<char>>, w: Seq<char>, sep: Seq<char>)
    ensures
        joined(Seq::empty(), sep).len() == 0,
        joined(seq![w], sep) == w,
        words.len() > 0 ==> joined(words.push(w), sep) == joined(words, sep) + sep + w,
{
    assert(words.push(w).drop_last() =~= words);
}

/// A number holds no character but digits and a sign.
proof fn lemma_no_char(n: int, c: char)
    requires
        c == '/' || c == '%',
    ensures
        !decimal(n).contains(c),
{
    lemma_decimal_chars(n);
    assert forall|i: int| 0 <= i < decimal(n).len() implies decimal(n)[i] != c by {
        let u = decimal(n)[i] as int;
        assert(48 <= u <= 57 || 97 <= u <= 102 || u == 45);
    }
}

/// A step is two numbers with a slash between them, the current one first; anything without a
/// slash is none. A percentage is a number, with or without its sign.
pub proof fn law_measures_are_read(n: i64, m: i64, s: Seq<char>)
    ensures
        step_of(decimal(n as int) + seq!['/'] + decimal(m as int)) == Ok::<(int, int), Seq<char>>(
            (n as int, m as int),
        ),
        !s.contains('/') ==> step_of(s) is Err,
        percent_of(decimal(n as int)) == Some(n as int),
        percent_of(decimal(n as int).push('%')) == Some(n as int),
{
    let a = decimal(n as int);
    let b = decimal(m as int);
    let all = a + seq!['/'] + b;
    lemma_decimal_roundtrip(n as int);
    lemma_decimal_roundtrip(m as int);
    lemma_no_char(n as int, '/');
    lemma_no_char(n as int, '%');
    lemma_decimal_chars(n as int);
    assert forall|j: int| 0 <= j < a.len() implies all[j] != '/' by {
        assert(a.contains(a[j]));
    }
    lemma_first_of(all, '/', a.len() as int);
    assert(all.take(a.len() as int) =~= a);
    assert(all.skip(a.len() as int + 1) =~= b);
    if !s.contains('/') {
        assert forall|j: int| 0 <= j < s.len() implies s[j] != '/' by {
            assert(s.contains(s[j]));
        }
        lemma_first_of(s, '/', s.len() as int);
    }
    assert(a.contains(a.last())) by {
        assert(a[a.len() - 1] == a.last());
    }
    assert(a.push('%').drop_last() =~= a);
    reveal_with_fuel(trim_end_set, 2);
}

// ---- what commands ask for

/// The commands that take nothing ask for nothing in particular.
pub proof fn law_plain_commands(cmd: Seq<char>, rest: Seq<Seq<char>>)
    requires
        cmd == "whoami"@ || cmd == "agents"@ || cmd == "rooms"@ || cmd == "inbox"@,
    ensures
        command_body(cmd, rest) matches Ok(d) && d is Object && keys_of(d) == Set::<
            Seq<char>,
        >::empty(),
{
    assert(keys_of(command_body(cmd, rest)->Ok_0) =~= Set::<Seq<char>>::empty());
}

/// `status` takes a state and asks for it.
pub proof fn law_status_command(rest: Seq<Seq<char>>)
    ensures
        rest.len() != 1 ==> command_body("status"@, rest) is Err,
        rest.len() == 1 ==> (command_body("status"@, rest) matches Ok(d) && holds(
            d,
            "state"@,
            JsonData::Text(rest[0]),
        ) && keys_of(d) == set!["state"@]),
{
    lemma_names();
    if rest.len() == 1 {
        assert(keys_of(command_body("status"@, rest)->Ok_0) =~= set!["state"@]);
    }
}

/// `create-room` takes a name, and a type as an option.
pub proof fn law_create_room_command(name: Seq<char>, kind: Seq<char>, rest: Seq<Seq<char>>)
    requires
        name != "--type"@,
    ensures
        command_body("create-room"@, seq![name]) matches Ok(d) && holds(
            d,
            "name"@,
            JsonData::Text(name),
        ) && keys_of(d) == set!["name"@],
        command_body("create-room"@, seq![name, "--type"@, kind]) matches Ok(d) && holds(
            d,
            "name"@,
            JsonData::Text(name),
        ) && holds(d, "type"@, JsonData::Text(kind)) && keys_of(d) == set!["name"@, "type"@],
        rest.len() != 1 && !rest.contains("--type"@) ==> command_body("create-room"@, rest) is Err,
{
    lemma_names();
    let a = seq![name];
    assert(!a.contains("--type"@)) by {
        if a.contains("--type"@) {
            let i = choose|i: int| 0 <= i < a.len() && a[i] == "--type"@;
            assert(i == 0);
        }
    }
    law_option_is_taken(a, kind, Seq::empty(), "--type"@);
    assert(a + seq!["--type"@, kind] + Seq::<Seq<char>>::empty() =~= seq![
        name,
        "--type"@,
        kind,
    ]);
    assert(a + Seq::<Seq<char>>::empty() =~= a);
    if !rest.contains("--type"@) {
        law_option_is_taken(rest, kind, Seq::empty(), "--type"@);
    }
    assert(keys_of(command_body("create-room"@, seq![name])->Ok_0) =~= set!["name"@]);
    assert(keys_of(command_body("create-room"@, seq![name, "--type"@, kind])->Ok_0) =~= set![
        "name"@,
        "type"@,
    ]);
}

/// `join`, `leave` and `destroy-room` take a room.
pub proof fn law_room_commands(cmd: Seq<char>, rest: Seq<Seq<char>>)
    requires
        cmd == "join"@ || cmd == "leave"@ || cmd == "destroy-room"@,
    ensures
        rest.len() != 1 ==> command_body(cmd, rest) is Err,
        rest.len() == 1 ==> (command_body(cmd, rest) matches Ok(d) && holds(
            d,
            "room"@,
            JsonData::Text(rest[0]),
        ) && keys_of(d) == set!["room"@]),
{
    lemma_names();
    if rest.len() == 1 {
        assert(keys_of(command_body(cmd, rest)->Ok_0) =~= set!["room"@]);
    }
}

/// `invite` and `kick` take a room and an agent.
pub proof fn law_member_commands(cmd: Seq<char>, rest: Seq<Seq<char>>)
    requires
        cmd == "invite"@ || cmd == "kick"@,
    ensures
        rest.len() != 2 ==> command_body(cmd, rest) is Err,
        rest.len() == 2 ==> (command_body(cmd, rest) matches Ok(d) && holds(
            d,
            "room"@,
            JsonData::Text(rest[0]),
        ) && holds(d, "target"@, JsonData::Text(rest[1])) && keys_of(d) == set![
            "room"@,
            "target"@,
        ]),
{
    lemma_names();
    if rest.len() == 2 {
        assert(keys_of(command_body(cmd, rest)->Ok_0) =~= set!["room"@, "target"@]);
    }
}

/// `send` takes a room and `dm` an agent; all words behind that make the text.
pub proof fn law_message_commands(to: Seq<char>, words: Seq<Seq<char>>)
    requires
        words.len() > 0,
    ensures
        command_body("send"@, seq![to] + words) matches Ok(d) && holds(
            d,
            "room"@,
            JsonData::Text(to),
        ) && holds(d, "text"@, JsonData::Text(joined(words, " "@))) && keys_of(d) == set![
            "room"@,
            "text"@,
        ],
        command_body("dm"@, seq![to] + words) matches Ok(d) && holds(
            d,
            "to"@,
            JsonData::Text(to),
        ) && holds(d, "text"@, JsonData::Text(joined(words, " "@))) && keys_of(d) == set![
            "to"@,
            "text"@,
        ],
        command_body("send"@, seq![to]) is Err,
        command_body("dm"@, seq![to]) is Err,
{
    lemma_names();
    let rest = seq![to] + words;
    assert(rest.skip(1) =~= words);
    assert(keys_of(command_body("send"@, rest)->Ok_0) =~= set!["room"@, "text"@]);
    assert(keys_of(command_body("dm"@, rest)->Ok_0) =~= set!["to"@, "text"@]);
}

/// One argument that is not the name holds it nowhere.
proof fn lemma_single(x: Seq<char>, name: Seq<char>)
    requires
        x != name,
    ensures
        !seq![x].contains(name),
{
    let a = seq![x];
    if a.contains(name) {
        let i = choose|i: int| 0 <= i < a.len() && a[i] == name;
        assert(i == 0);
    }
}

/// `read`, `peek` and `events` take a room, and where to begin as an option. Only `peek` says
/// that the cursor is to stay.
pub proof fn law_read_commands(cmd: Seq<char>, room: Seq<char>, since: Seq<char>)
    requires
        cmd == "read"@ || cmd == "peek"@ || cmd == "events"@,
        room != "--since"@,
    ensures
        ({
            let plain = command_body(cmd, seq![room]);
            let from = command_body(cmd, seq![room, "--since"@, since]);
            &&& plain matches Ok(d) && holds(d, "room"@, JsonData::Text(room)) && field(
                d,
                "since"@,
            ) is None && holds(d, "peek"@, JsonData::Bool(true)) == (cmd == "peek"@) && (field(
                d,
                "peek"@,
            ) is Some) == (cmd == "peek"@)
            &&& from matches Ok(d) && holds(d, "room"@, JsonData::Text(room)) && holds(
                d,
                "since"@,
                JsonData::Text(since),
            ) && holds(d, "peek"@, JsonData::Bool(true)) == (cmd == "peek"@) && (field(
                d,
                "peek"@,
            ) is Some) == (cmd == "peek"@)
            &&& command_body(cmd, seq![room, "--since"@]) is Err
            &&& command_body(cmd, Seq::empty()) is Err
        }),
{
    lemma_names();
    let a = seq![room];
    lemma_single(room, "--since"@);
    law_option_is_taken(a, since, Seq::empty(), "--since"@);
    law_option_is_taken(Seq::empty(), since, Seq::empty(), "--since"@);
    assert(a + seq!["--since"@, since] + Seq::<Seq<char>>::empty() =~= seq![
        room,
        "--since"@,
        since,
    ]);
    assert(a + Seq::<Seq<char>>::empty() =~= a);
    assert(a.push("--since"@) =~= seq![room, "--since"@]);
}

/// `wait` takes a room, where to begin and how long to wait.
pub proof fn law_wait_command(room: Seq<char>, since: Seq<char>, timeout: Seq<char>)
    requires
        room != "--since"@,
        room != "--timeout"@,
    ensures
        command_body("wait"@, seq![room]) matches Ok(d) && holds(
            d,
            "room"@,
            JsonData::Text(room),
        ) && keys_of(d) == set!["room"@],
        command_body(
            "wait"@,
            seq![room, "--since"@, since, "--timeout"@, timeout],
        ) matches Ok(d) && holds(d, "room"@, JsonData::Text(room)) && holds(
            d,
            "since"@,
            JsonData::Text(since),
        ) && holds(d, "timeout"@, JsonData::Text(timeout)) && keys_of(d) == set![
            "room"@,
            "since"@,
            "timeout"@,
        ],
        command_body("wait"@, Seq::empty()) is Err,
{
    lemma_names();
    let none = Seq::<Seq<char>>::empty();
    let a = seq![room];
    let b = seq!["--timeout"@, timeout];
    let all = seq![room, "--since"@, since, "--timeout"@, timeout];
    lemma_single(room, "--since"@);
    lemma_single(room, "--timeout"@);
    law_option_is_taken(a, since, b, "--since"@);
    law_option_is_taken(a, timeout, none, "--timeout"@);
    law_option_is_taken(none, since, none, "--since"@);
    law_option_is_taken(none, since, none, "--timeout"@);
    assert(a + seq!["--since"@, since] + b =~= all);
    assert(a + b =~= a + seq!["--timeout"@, timeout] + none);
    assert(a + none =~= a);
    assert(keys_of(command_body("wait"@, a)->Ok_0) =~= set!["room"@]);
    assert(keys_of(command_body("wait"@, all)->Ok_0) =~= set!["room"@, "since"@, "timeout"@]);
}

/// An argument that is the name of none of the options of `event`.
pub open spec fn is_no_option(s: Seq<char>) -> bool {
    s != "--task"@ && s != "--phase"@ && s != "--step"@ && s != "--percent"@ && s != "--to"@ && s
        != "--note"@
}

/// None of the arguments is the name of an option of `event`.
pub open spec fn no_options(v: Seq<Seq<char>>) -> bool {
    forall|i: int| 0 <= i < v.len() ==> is_no_option(#[trigger] v[i])
}

/// The options of `event` are read each under its own name. Without any, all arguments are left.
#[verifier::spinoff_prover]
#[verifier::rlimit(50)]
pub proof fn law_event_options(
    plain: Seq<Seq<char>>,
    task: Seq<char>,
    phase: Seq<char>,
    step: Seq<char>,
    percent: Seq<char>,
    to: Seq<char>,
)
    requires
        no_options(plain),
        no_options(seq![task, phase, step, percent, to]),
    ensures
        event_options(
            plain + seq![
                "--task"@,
                task,
                "--phase"@,
                phase,
                "--step"@,
                step,
                "--percent"@,
                percent,
                "--to"@,
                to,
            ],
        ) matches Ok(o) && o.task == Some(task) && o.phase == Some(phase) && o.step == Some(step)
            && o.percent == Some(percent) && o.to == Some(to) && o.rest == plain,
        event_options(plain) matches Ok(o) && o.task is None && o.phase is None && o.step is None
            && o.percent is None && o.to is None && o.rest == plain,
{
    lemma_names();
    let none = Seq::<Seq<char>>::empty();
    let b4 = seq!["--to"@, to];
    let b3 = seq!["--percent"@, percent] + b4;
    let b2 = seq!["--step"@, step] + b3;
    let b1 = seq!["--phase"@, phase] + b2;
    let all = plain + seq![
        "--task"@,
        task,
        "--phase"@,
        phase,
        "--step"@,
        step,
        "--percent"@,
        percent,
        "--to"@,
        to,
    ];
    lemma_absent(plain);
    law_option_is_taken(plain, task, b1, "--task"@);
    law_option_is_taken(plain, phase, b2, "--phase"@);
    law_option_is_taken(plain, step, b3, "--step"@);
    law_option_is_taken(plain, percent, b4, "--percent"@);
    law_option_is_taken(plain, to, none, "--to"@);
    assert(all =~= plain + seq!["--task"@, task] + b1);
    assert(plain + b1 =~= plain + seq!["--phase"@, phase] + b2);
    assert(plain + b2 =~= plain + seq!["--step"@, step] + b3);
    assert(plain + b3 =~= plain + seq!["--percent"@, percent] + b4);
    assert(plain + b4 =~= plain + seq!["--to"@, to] + none);
    assert(plain + none =~= plain);
}

proof fn lemma_absent(v: Seq<Seq<char>>)
    requires
        no_options(v),
    ensures
        !v.contains("--task"@),
        !v.contains("--phase"@),
        !v.contains("--step"@),
        !v.contains("--percent"@),
        !v.contains("--to"@),
        !v.contains("--note"@),
{
}

/// The text of an option, if it is given, stands under the key; without it there is no such key.
pub open spec fn passes(d: JsonData, key: Seq<char>, v: Option<Seq<char>>) -> bool {
    match v {
        Some(s) => holds(d, key, JsonData::Text(s)),
        None => field(d, key) is None,
    }
}

/// `event` takes a room and a kind. What its options say is asked for, each under its own key: the
/// one that says whom it is about as the target, the two numbers of a step in their order, and a
/// percentage as a number.
pub proof fn law_event_command(args: Seq<Seq<char>>, o: EventOptions)
    requires
        event_options(take_note(args).0) == Ok::<EventOptions, Seq<char>>(o),
    ensures
        ({
            let r = command_body("event"@, args);
            let note = take_note(args).1;
            let good = o.rest.len() == 2 && (o.step matches Some(s) ==> step_of(s) is Ok) && (
            o.percent matches Some(p) ==> percent_of(p) is Some);
            &&& r is Ok <==> good
            &&& r matches Ok(d) ==> {
                &&& holds(d, "room"@, JsonData::Text(o.rest[0]))
                &&& holds(d, "kind"@, JsonData::Text(o.rest[1]))
                &&& passes(d, "task"@, o.task)
                &&& passes(d, "phase"@, o.phase)
                &&& passes(d, "target"@, o.to)
                &&& passes(d, "note"@, note)
                &&& o.step is None ==> field(d, "step_cur"@) is None && field(
                    d,
                    "step_total"@,
                ) is None
                &&& o.step matches Some(s) ==> {
                    let (cur, total) = step_of(s)->Ok_0;
                    holds(d, "step_cur"@, JsonData::Int(cur)) && holds(
                        d,
                        "step_total"@,
                        JsonData::Int(total),
                    )
                }
                &&& o.percent is None ==> field(d, "percent"@) is None
                &&& o.percent matches Some(p) ==> holds(
                    d,
                    "percent"@,
                    JsonData::Int(percent_of(p)->0),
                )
            }
        }),
{
    lemma_names();
}

/// `progress` takes a room, and a step or a percentage, which ends in its sign. It asks for an
/// event of the kind `step` with that alone, and with the task and the note that are given.
pub proof fn law_progress_command(
    args: Seq<Seq<char>>,
    task: Option<Seq<char>>,
    rest: Seq<Seq<char>>,
)
    requires
        take_opt(take_note(args).0, "--task"@) == Ok::<
            (Option<Seq<char>>, Seq<Seq<char>>),
            Seq<char>,
        >((task, rest)),
    ensures
        ({
            let r = command_body("progress"@, args);
            let note = take_note(args).1;
            let v = rest[1];
            let share = v.len() > 0 && v.last() == '%';
            &&& rest.len() != 2 ==> r is Err
            &&& rest.len() == 2 && share ==> (r is Ok <==> percent_of(v) is Some)
            &&& rest.len() == 2 && !share ==> (r is Ok <==> step_of(v) is Ok)
            &&& r matches Ok(d) ==> {
                &&& holds(d, "room"@, JsonData::Text(rest[0]))
                &&& holds(d, "kind"@, JsonData::Text("step"@))
                &&& passes(d, "task"@, task)
                &&& passes(d, "note"@, note)
                &&& share ==> holds(d, "percent"@, JsonData::Int(percent_of(v)->0)) && field(
                    d,
                    "step_cur"@,
                ) is None && field(d, "step_total"@) is None
                &&& !share ==> {
                    let (cur, total) = step_of(v)->Ok_0;
                    &&& holds(d, "step_cur"@, JsonData::Int(cur))
                    &&& holds(d, "step_total"@, JsonData::Int(total))
                    &&& field(d, "percent"@) is None
                }
            }
        }),
{
    lemma_names();
}

/// A command asks for the action of its own name, but `progress` for an event; only `wait` waits
/// ten minutes for its answer, all others half a minute. Other commands are unknown.
pub proof fn law_commands_keep_their_names(cmd: Seq<char>, rest: Seq<Seq<char>>)
    ensures
        cmd != "progress"@ ==> wire_action(cmd) == cmd,
        wire_action("progress"@) == "event"@,
        cmd != "wait"@ ==> patience(cmd) == 30,
        patience("wait"@) == 600,
        cmd != "whoami"@ && cmd != "agents"@ && cmd != "rooms"@ && cmd != "inbox"@ && cmd
            != "status"@ && cmd != "create-room"@ && cmd != "join"@ && cmd != "leave"@ && cmd
            != "destroy-room"@ && cmd != "send"@ && cmd != "dm"@ && cmd != "read"@ && cmd
            != "peek"@ && cmd != "wait"@ && cmd != "invite"@ && cmd != "kick"@ && cmd != "event"@
            && cmd != "progress"@ && cmd != "events"@ ==> command_body(cmd, rest) is Err,
{
}

// ---- from the command line to the tables

/// A body that is signed names the caller, and asks for all else that it asked for before.
pub proof fn law_signed_body(d: JsonData, agent: Seq<char>, key: Seq<char>)
    requires
        d is Object,
    ensures
        holds(signed_by(d, agent), "agent"@, JsonData::Text(agent)),
        key != "agent"@ ==> field(signed_by(d, agent), key) == field(d, key),
{
}

/// What a member types behind `send` and a room is the text of the message that the room gets, and
/// what anyone types behind `dm` and a name is the text of the one that the channel gets.
pub proof fn law_typed_messages_are_kept(
    t: Tables,
    agent: Seq<char>,
    to: Seq<char>,
    words: Seq<Seq<char>>,
    now: int,
    noted: bool,
)
    requires
        to.len() > 0,
        words.len() > 0,
        joined(words, " "@).len() > 0,
    ensures
        ({
            let send = command_body("send"@, seq![to] + words)->Ok_0;
            let dm = command_body("dm"@, seq![to] + words)->Ok_0;
            &&& t.rooms.contains_key(to) && t.members.contains((to, agent)) ==> (outcome(
                t,
                wire_action("send"@),
                agent,
                signed_by(send, agent),
                now,
                noted,
            ) matches Outcome::Done { tables, .. } && tables.messages.last().text == joined(
                words,
                " "@,
            ) && tables.messages.last().room == to && tables.messages.last().from == agent)
            &&& outcome(
                t,
                wire_action("dm"@),
                agent,
                signed_by(dm, agent),
                now,
                noted,
            ) matches Outcome::Done { tables, .. } && tables.messages.last().text == joined(
                words,
                " "@,
            ) && tables.messages.last().from == agent
        }),
{
    lemma_names();
    law_message_commands(to, words);
    let send = command_body("send"@, seq![to] + words)->Ok_0;
    let dm = command_body("dm"@, seq![to] + words)->Ok_0;
    let text = joined(words, " "@);
    law_send(t, agent, signed_by(send, agent), now, noted, to, text);
    law_dm(t, agent, signed_by(dm, agent), now, noted, to, text);
    assert(given(signed_by(send, agent), "room"@, to));
    assert(given(signed_by(send, agent), "text"@, text));
    assert(given(signed_by(dm, agent), "to"@, to));
    assert(given(signed_by(dm, agent), "text"@, text));
}

/// `peek` consumes nothing: whatever is typed behind it, no table changes.
pub proof fn law_peek_consumes_nothing(
    t: Tables,
    agent: Seq<char>,
    rest: Seq<Seq<char>>,
    now: int,
    noted: bool,
)
    requires
        command_body("peek"@, rest) is Ok,
    ensures
        outcome(
            t,
            wire_action("peek"@),
            agent,
            signed_by(command_body("peek"@, rest)->Ok_0, agent),
            now,
            noted,
        ) matches Outcome::Done { tables, .. } ==> tables == t,
{
    lemma_names();
}

/// An event that is typed is the event that is kept: for each option of `event` the field of the
/// same meaning.
pub proof fn law_typed_events_are_kept(
    t: Tables,
    agent: Seq<char>,
    args: Seq<Seq<char>>,
    o: EventOptions,
    now: int,
    noted: bool,
)
    requires
        event_options(take_note(args).0) == Ok::<EventOptions, Seq<char>>(o),
        command_body("event"@, args) is Ok,
    ensures
        outcome(
            t,
            wire_action("event"@),
            agent,
            signed_by(command_body("event"@, args)->Ok_0, agent),
            now,
            noted,
        ) matches Outcome::Done { tables, .. } ==> {
            let e = tables.events.last();
            &&& e.room == o.rest[0]
            &&& e.kind == o.rest[1]
            &&& e.agent == agent
            &&& e.task == o.task
            &&& e.phase == o.phase
            &&& e.target == o.to
            &&& e.note == take_note(args).1
            &&& o.step matches Some(s) ==> e.step_cur == Some((step_of(s)->Ok_0).0)
                && e.step_total == Some((step_of(s)->Ok_0).1)
            &&& o.step is None ==> e.step_cur is None && e.step_total is None
            &&& o.percent matches Some(p) ==> e.percent == percent_of(p)
            &&& o.percent is None ==> e.percent is None
        },
{
    lemma_names();
    law_event_command(args, o);
}

// ---- recv, serve, skill

/// `recv` takes a room. Without options it waits two minutes, resumes nowhere and follows nothing.
pub proof fn law_recv_command(room: Seq<char>, since: Seq<char>, secs: u64)
    requires
        room != "--since"@,
        room != "--timeout"@,
        room != "--follow"@,
        since_value(since) is Some,
    ensures
        recv_args(seq![room]) == Ok::<RecvArgsData, Seq<char>>(
            (RecvArgsData { room, since: None, timeout_secs: 120, follow: false }),
        ),
        recv_args(
            seq![room, "--since"@, since, "--timeout"@, decimal(secs as int), "--follow"@],
        ) == Ok::<RecvArgsData, Seq<char>>(
            (RecvArgsData {
                room,
                since: Some(since),
                timeout_secs: secs as int,
                follow: true,
            }),
        ),
        recv_args(Seq::empty()) is Err,
{
    lemma_names();
    let none = Seq::<Seq<char>>::empty();
    let a = seq![room];
    let d = decimal(secs as int);
    lemma_single(room, "--since"@);
    lemma_single(room, "--timeout"@);
    lemma_single(room, "--follow"@);
    let c = seq!["--follow"@];
    let b = seq!["--timeout"@, d] + c;
    law_option_is_taken(a, since, b, "--since"@);
    law_option_is_taken(a, d, c, "--timeout"@);
    law_flag_is_taken(a, none, "--follow"@);
    law_option_is_taken(none, since, none, "--since"@);
    law_option_is_taken(none, since, none, "--timeout"@);
    law_flag_is_taken(none, none, "--follow"@);
    assert(a + seq!["--since"@, since] + b =~= seq![
        room,
        "--since"@,
        since,
        "--timeout"@,
        d,
        "--follow"@,
    ]);
    assert(a + b =~= a + seq!["--timeout"@, d] + c);
    assert(a + c =~= a + seq!["--follow"@] + none);
    assert(a + none =~= a);
    assert(a.len() == 1 && a[0] == room);
    assert(none + none =~= none);
    lemma_unsigned_roundtrip(secs as int, u64::MAX as int);
}

/// A `--since` of `recv` that is no composite cursor is refused.
pub proof fn law_recv_refuses_bad_cursor(room: Seq<char>, since: Seq<char>)
    requires
        room != "--since"@,
        room != "--timeout"@,
        room != "--follow"@,
        since_value(since) is None,
    ensures
        recv_args(seq![room, "--since"@, since]) is Err,
{
    lemma_names();
    let none = Seq::<Seq<char>>::empty();
    let a = seq![room];
    lemma_single(room, "--since"@);
    lemma_single(room, "--timeout"@);
    lemma_single(room, "--follow"@);
    law_option_is_taken(a, since, none, "--since"@);
    law_option_is_taken(a, since, none, "--timeout"@);
    law_flag_is_taken(a, none, "--follow"@);
    assert(a + seq!["--since"@, since] + none =~= seq![room, "--since"@, since]);
    assert(a + none =~= a);
}

/// A one-shot call waits half a minute longer than the server does, so that the server's end of
/// the stream comes first; one that follows waits for ever.
pub proof fn law_client_outlasts_server(a: RecvArgsData)
    requires
        0 <= a.timeout_secs <= u64::MAX,
    ensures
        a.follow ==> recv_limit(a) is None,
        !a.follow && a.timeout_secs + 30 <= u64::MAX ==> recv_limit(a) == Some(a.timeout_secs + 30),
        !a.follow ==> recv_limit(a) is Some && a.timeout_secs <= recv_limit(a)->0 <= u64::MAX,
{
}

/// `serve` needs a token, and takes a port and a database. Without them the port is zero and the
/// database is in memory.
pub proof fn law_serve_command(token: Seq<char>, port: u16, db: Seq<char>)
    ensures
        serve_args(seq!["--token"@, token]) == Ok::<ServeData, Seq<char>>(
            (ServeData { token: Some(token), port: 0, db: ":memory:"@ }),
        ),
        serve_args(
            seq!["--token"@, token, "--port"@, decimal(port as int), "--db"@, db],
        ) == Ok::<ServeData, Seq<char>>(
            (ServeData { token: Some(token), port: port as int, db }),
        ),
        serve_args(
            seq!["--db"@, db, "--port"@, decimal(port as int), "--token"@, token],
        ) == Ok::<ServeData, Seq<char>>(
            (ServeData { token: Some(token), port: port as int, db }),
        ),
        serve_args(seq!["--port"@, decimal(port as int), "--db"@, db]) is Err,
        serve_args(Seq::empty()) is Err,
        serve_args(seq!["--token"@]) is Err,
        serve_args(seq!["--token"@, token, "--db"@]) is Err,
{
    lemma_names();
    lemma_unsigned_roundtrip(port as int, u16::MAX as int);
    reveal_with_fuel(serve_from, 5);
    let p = decimal(port as int);
    let a = seq!["--token"@, token, "--port"@, p, "--db"@, db];
    assert(a.skip(2) =~= seq!["--port"@, p, "--db"@, db]);
    assert(a.skip(2).skip(2) =~= seq!["--db"@, db]);
    assert(a.skip(2).skip(2).skip(2) =~= Seq::<Seq<char>>::empty());
    let b = seq!["--db"@, db, "--port"@, p, "--token"@, token];
    assert(b.skip(2) =~= seq!["--port"@, p, "--token"@, token]);
    assert(b.skip(2).skip(2) =~= seq!["--token"@, token]);
    assert(b.skip(2).skip(2).skip(2) =~= Seq::<Seq<char>>::empty());
    let c = seq!["--token"@, token];
    assert(c.skip(2) =~= Seq::<Seq<char>>::empty());
    let d = seq!["--port"@, p, "--db"@, db];
    assert(d.skip(2) =~= seq!["--db"@, db]);
    assert(d.skip(2).skip(2) =~= Seq::<Seq<char>>::empty());
    let e = seq!["--token"@, token, "--db"@];
    assert(e.skip(2) =~= seq!["--db"@]);
}

/// Each flag of `serve` is read with the value behind it, in the order in which they stand, so
/// that the last one of a name counts.
pub proof fn law_serve_flags(v: Seq<char>, port: u16, rest: Seq<Seq<char>>, s: ServeData)
    ensures
        serve_from(seq!["--token"@, v] + rest, s) == serve_from(
            rest,
            ServeData { token: Some(v), ..s },
        ),
        serve_from(seq!["--db"@, v] + rest, s) == serve_from(rest, ServeData { db: v, ..s }),
        serve_from(seq!["--port"@, decimal(port as int)] + rest, s) == serve_from(
            rest,
            ServeData { port: port as int, ..s },
        ),
        serve_from(Seq::empty(), s) == Ok::<ServeData, Seq<char>>(s),
{
    lemma_names();
    lemma_unsigned_roundtrip(port as int, u16::MAX as int);
    let p = decimal(port as int);
    let a = seq!["--token"@, v] + rest;
    let b = seq!["--db"@, v] + rest;
    let c = seq!["--port"@, p] + rest;
    assert(a[0] == "--token"@ && a[1] == v && b[0] == "--db"@ && b[1] == v && c[0] == "--port"@
        && c[1] == p);
    assert(a.skip(2) =~= rest && b.skip(2) =~= rest && c.skip(2) =~= rest);
}

/// Arguments that are no options: `recv` takes exactly one, and `skill` none.
pub proof fn law_plain_arguments(rest: Seq<Seq<char>>)
    requires
        !rest.contains("--since"@),
        !rest.contains("--timeout"@),
        !rest.contains("--follow"@),
        !rest.contains("--dir"@),
        !rest.contains("--install"@),
    ensures
        rest.len() != 1 ==> recv_args(rest) is Err,
        rest.len() == 1 ==> (recv_args(rest) matches Ok(a) && a.room == rest[0]),
        rest.len() != 0 ==> skill_action(rest) is Err,
{
    let none = Seq::<Seq<char>>::empty();
    law_option_is_taken(rest, Seq::empty(), none, "--since"@);
    law_option_is_taken(rest, Seq::empty(), none, "--timeout"@);
    law_option_is_taken(rest, Seq::empty(), none, "--dir"@);
    law_flag_is_taken(rest, none, "--follow"@);
    law_flag_is_taken(rest, none, "--install"@);
}

/// `skill` shows the skill, or installs it in the directory that is given; neither of the two
/// options stands alone.
pub proof fn law_skill_command(dir: Seq<char>)
    ensures
        skill_action(Seq::empty()) == Ok::<Option<Seq<char>>, Seq<char>>(None),
        skill_action(seq!["--install"@, "--dir"@, dir]) == Ok::<Option<Seq<char>>, Seq<char>>(
            Some(dir),
        ),
        skill_action(seq!["--install"@]) is Err,
        skill_action(seq!["--dir"@, dir]) is Err,
{
    lemma_names();
    let none = Seq::<Seq<char>>::empty();
    let a = seq!["--install"@];
    lemma_single("--install"@, "--dir"@);
    law_option_is_taken(a, dir, none, "--dir"@);
    law_option_is_taken(none, dir, none, "--dir"@);
    law_flag_is_taken(none, none, "--install"@);
    assert(a + seq!["--dir"@, dir] + none =~= seq!["--install"@, "--dir"@, dir]);
    assert(none + seq!["--dir"@, dir] + none =~= seq!["--dir"@, dir]);
    assert(a + none =~= a);
    assert(none + none =~= none);
    assert(none + seq!["--install"@] + none =~= a);
}

// ---- what the user is told

/// A command with the wrong number of arguments is answered with how it is used.
pub proof fn law_usage(cmd: Seq<char>, rest: Seq<Seq<char>>)
    requires
        !rest.contains("--type"@),
        !rest.contains("--since"@),
        !rest.contains("--timeout"@),
        !rest.contains("--task"@),
        !rest.contains("--note"@),
    ensures
        ({
            let r = command_body(cmd, rest);
            &&& cmd == "status"@ && rest.len() != 1 ==> r == Err::<JsonData, Seq<char>>(
                "usage: orbal-net status <active|idle|busy|done>"@,
            )
            &&& cmd == "create-room"@ && rest.len() != 1 ==> r == Err::<JsonData, Seq<char>>(
                "usage: orbal-net create-room <name> [--type public]"@,
            )
            &&& (cmd == "join"@ || cmd == "leave"@ || cmd == "destroy-room"@) && rest.len() != 1 ==> r == Err::<
                JsonData,
                Seq<char>,
            >("usage: orbal-net "@ + cmd + " <room>"@)
            &&& cmd == "send"@ && rest.len() < 2 ==> r == Err::<JsonData, Seq<char>>(
                "usage: orbal-net send <room> <message...>"@,
            )
            &&& cmd == "dm"@ && rest.len() < 2 ==> r == Err::<JsonData, Seq<char>>(
                "usage: orbal-net dm <agent> <message...>"@,
            )
            &&& (cmd == "read"@ || cmd == "peek"@) && rest.len() != 1 ==> r == Err::<JsonData, Seq<char>>(
                "usage: orbal-net "@ + cmd + " <room> [--since <seq>]"@,
            )
            &&& cmd == "wait"@ && rest.len() != 1 ==> r == Err::<JsonData, Seq<char>>(
                "usage: orbal-net wait <room> [--since <seq>] [--timeout <secs>]"@,
            )
            &&& (cmd == "invite"@ || cmd == "kick"@) && rest.len() != 2 ==> r == Err::<JsonData, Seq<char>>(
                "usage: orbal-net "@ + cmd + " <room> <agent>"@,
            )
            &&& cmd == "progress"@ && rest.len() != 2 ==> r == Err::<JsonData, Seq<char>>(
                "usage: orbal-net progress <room> <N/M | P%> [--task T] [--note <text...>]"@,
            )
            &&& cmd == "events"@ && rest.len() != 1 ==> r == Err::<JsonData, Seq<char>>(
                "usage: orbal-net events <room> [--since <seq>]"@,
            )
        }),
{
    lemma_names();
    law_option_is_taken(rest, Seq::empty(), Seq::empty(), "--type"@);
    law_option_is_taken(rest, Seq::empty(), Seq::empty(), "--since"@);
    law_option_is_taken(rest, Seq::empty(), Seq::empty(), "--timeout"@);
    law_option_is_taken(rest, Seq::empty(), Seq::empty(), "--task"@);
    law_note_is_taken(rest, Seq::empty());
}

/// A value that cannot be read is named in what the user is told, and so is an unknown command.
pub proof fn law_bad_values_are_named(s: Seq<char>, rest: Seq<Seq<char>>, o: EventOptions)
    ensures
        step_of(s) matches Err(e) ==> e == "bad --step value "@ + quoted(s) + "; want N/M"@,
        recv_timeout(Some(s)) matches Err(e) ==> e == "bad --timeout value "@ + quoted(s),
        recv_timeout(Some(s)) matches Ok(n) ==> unsigned_value(s, 10, u64::MAX as int) == Some(n),
        recv_timeout(None) == Ok::<int, Seq<char>>(120),
        !is_command(s) ==> command_body(s, rest) == Err::<JsonData, Seq<char>>(
            "unknown command "@ + quoted(s) + " (see orbal-net with no args)"@,
        ),
        o.rest.len() == 2 && o.step is None && o.percent == Some(s) && percent_of(s) is None
            ==> event_with(o, None) == Err::<JsonData, Seq<char>>(
            "bad --percent value "@ + quoted(s),
        ),
{
}

/// The names of the commands that are sent to the server.
pub open spec fn is_command(cmd: Seq<char>) -> bool {
    cmd == "whoami"@ || cmd == "agents"@ || cmd == "rooms"@ || cmd == "inbox"@ || cmd == "status"@
        || cmd == "create-room"@ || cmd == "join"@ || cmd == "leave"@ || cmd == "destroy-room"@
        || cmd == "send"@ || cmd == "dm"@ || cmd == "read"@ || cmd == "peek"@ || cmd == "wait"@
        || cmd == "invite"@ || cmd == "kick"@ || cmd == "event"@ || cmd == "progress"@ || cmd
        == "events"@
}

/// What `serve`, `recv` and `skill` tell of arguments that they cannot take.
pub proof fn law_told_of_options(flag: Seq<char>, rest: Seq<Seq<char>>, s: ServeData)
    ensures
        flag != "--token"@ && flag != "--port"@ && flag != "--db"@ ==> serve_from(
            seq![flag] + rest,
            s,
        ) == Err::<ServeData, Seq<char>>("unknown serve flag "@ + quoted(flag)),
        serve_from(seq!["--port"@], s) == Err::<ServeData, Seq<char>>("--port needs a number"@),
        serve_from(seq!["--port"@, flag] + rest, s) matches Err(e) ==> unsigned_value(
            flag,
            10,
            u16::MAX as int,
        ) is None ==> e == "--port needs a number"@,
        serve_from(seq!["--db"@], s) == Err::<ServeData, Seq<char>>("--db needs a path"@),
        serve_args(Seq::empty()) == Err::<ServeData, Seq<char>>("--token is required"@),
        recv_args(Seq::empty()) == Err::<RecvArgsData, Seq<char>>(
            "usage: orbal-net recv <room> [--since <id>] [--timeout <secs>] [--follow]"@,
        ),
        skill_action(seq!["--install"@]) == Err::<Option<Seq<char>>, Seq<char>>(
            "usage: orbal-net skill [--install --dir <dir>]"@,
        ),
        command_body("event"@, Seq::empty()) == Err::<JsonData, Seq<char>>(
            "usage: orbal-net event <room> <kind> [--task T] [--phase P] [--step N/M] [--percent P] \
             [--to AGENT] [--note <text...>]"@,
        ),
{
    lemma_names();
    let none = Seq::<Seq<char>>::empty();
    assert((seq![flag] + rest)[0] == flag);
    assert((seq!["--port"@, flag] + rest)[0] == "--port"@);
    assert((seq!["--port"@, flag] + rest)[1] == flag);
    law_option_is_taken(none, flag, none, "--since"@);
    law_option_is_taken(none, flag, none, "--timeout"@);
    law_flag_is_taken(none, none, "--follow"@);
    lemma_single("--install"@, "--dir"@);
    law_option_is_taken(seq!["--install"@], flag, none, "--dir"@);
    law_flag_is_taken(none, none, "--install"@);
    assert(none + seq!["--install"@] + none =~= seq!["--install"@]);
    law_note_is_taken(none, none);
    law_option_is_taken(none, flag, none, "--task"@);
    law_option_is_taken(none, flag, none, "--phase"@);
    law_option_is_taken(none, flag, none, "--step"@);
    law_option_is_taken(none, flag, none, "--percent"@);
    law_option_is_taken(none, flag, none, "--to"@);
}

} // verus!
