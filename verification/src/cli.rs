//! The command line: what each subcommand takes, and what it asks the server for.

use crate::json::{object, text, Json, JsonData};
use crate::number::{i64_value, parse_i64, parse_unsigned, unsigned_value};
use crate::ops::is_action;
use crate::sse::{parse_since, since_value};
use crate::text::{
    chars_of, concat2, concat3, copy, copy_all, first_of, join, joined, lemma_first_of, opt_text,
    quote, quoted, same, split_once, split_once_char, texts, trim_end_char, without_trailing,
};
use vstd::prelude::*;

verus! {

/// What the program shows when it is called without arguments.
pub const USAGE: &'static str = "orbal-net <subcommand> [args]\n\
     \x20 serve --token <t> [--port N] [--db <path>]\n\
     \x20 whoami | agents | rooms | inbox\n\
     \x20 status <active|idle|busy|done>\n\
     \x20 create-room <name> [--type public]\n\
     \x20 join <room> | leave <room> | destroy-room <room>\n\
     \x20 send <room> <message...>\n\
     \x20 dm <agent> <message...>\n\
     \x20 read <room> [--since <seq>]\n\
     \x20 peek <room> [--since <seq>]   # read without advancing your cursor (monitoring)\n\
     \x20 wait <room> [--since <seq>] [--timeout <secs>]   # deprecated, see recv\n\
     \x20 recv <room> [--since <id>] [--timeout <secs>] [--follow]   # SSE-backed; replaces wait\n\
     \x20 invite <room> <agent> | kick <room> <agent>\n\
     \x20 event <room> <kind> [--task T] [--phase P] [--step N/M] [--percent P] [--to AGENT] [--note <text...>]\n\
     \x20   kinds: task-start | task-done | task-error | task-abort | step | phase | blocked | handoff\n\
     \x20 progress <room> <N/M | P%> [--task T] [--note <text...>]   # sugar for `event step`\n\
     \x20 events <room> [--since <seq>]   # non-consuming event read\n\
     \x20 tui [--interval <secs>]   # live full-screen dashboard (alias: watch)";

/// A copy of the usage text.
pub fn usage() -> (r: String)
    ensures
        r@ == USAGE@,
{
    copy(USAGE)
}

// ---- options

/// The value of the first option `name`, and the arguments without it.
pub open spec fn take_opt(args: Seq<Seq<char>>, name: Seq<char>) -> Result<
    (Option<Seq<char>>, Seq<Seq<char>>),
    Seq<char>,
> {
    let i = first_of(args, name);
    if i >= args.len() {
        Ok((None, args))
    } else if i + 1 >= args.len() {
        Err(name + " needs a value"@)
    } else {
        Ok((Some(args[i + 1]), args.take(i) + args.skip(i + 2)))
    }
}

/// Whether there is a flag `name`, and the arguments without the first of it.
pub open spec fn take_flag(args: Seq<Seq<char>>, name: Seq<char>) -> (bool, Seq<Seq<char>>) {
    let i = first_of(args, name);
    if i >= args.len() {
        (false, args)
    } else {
        (true, args.take(i) + args.skip(i + 1))
    }
}

/// The arguments before `--note`, and all that follows it as one text.
pub open spec fn take_note(args: Seq<Seq<char>>) -> (Seq<Seq<char>>, Option<Seq<char>>) {
    let i = first_of(args, "--note"@);
    if i >= args.len() {
        (args, None)
    } else {
        (args.take(i), Some(joined(args.skip(i + 1), " "@)))
    }
}

/// The position of the first argument `name`.
fn position(args: &[String], name: &str) -> (r: usize)
    ensures
        r == first_of(texts(args@), name@),
        r <= args@.len(),
{
    let mut i: usize = 0;
    while i < args.len()
        invariant
            i <= args@.len(),
            forall|k: int| 0 <= k < i ==> texts(args@)[k] != name@,
        decreases args@.len() - i,
    {
        if same(args[i].as_str(), name) {
            proof {
                assert(texts(args@)[i as int] == name@);
                lemma_first_of(texts(args@), name@, i as int);
            }
            return i;
        }
        proof {
            assert(texts(args@)[i as int] == args@[i as int]@);
        }
        i += 1;
    }
    proof {
        lemma_first_of(texts(args@), name@, i as int);
    }
    i
}

/// The arguments from one position to another.
fn part(args: &[String], from: usize, to: usize) -> (r: Vec<String>)
    requires
        from <= to <= args@.len(),
    ensures
        texts(r@) == texts(args@).subrange(from as int, to as int),
{
    let r = copy_all(vstd::slice::slice_subrange(args, from, to));
    proof {
        assert(texts(args@.subrange(from as int, to as int)) =~= texts(args@).subrange(
            from as int,
            to as int,
        ));
    }
    r
}

/// The arguments without those from one position to another.
fn without(args: &[String], from: usize, to: usize) -> (r: Vec<String>)
    requires
        from <= to <= args@.len(),
    ensures
        texts(r@) == texts(args@).take(from as int) + texts(args@).skip(to as int),
{
    let mut r = part(args, 0, from);
    let mut tail = part(args, to, args.len());
    let ghost a = texts(r@);
    let ghost b = texts(tail@);
    r.append(&mut tail);
    proof {
        assert(texts(r@) =~= a + b);
        assert(a =~= texts(args@).take(from as int));
        assert(b =~= texts(args@).skip(to as int));
    }
    r
}

/// Pulls `name value` out of the arguments.
pub fn parse_opt(args: &[String], name: &str) -> (r: Result<(Option<String>, Vec<String>), String>)
    ensures
        match r {
            Ok((v, rest)) => take_opt(texts(args@), name@) == Ok::<
                (Option<Seq<char>>, Seq<Seq<char>>),
                Seq<char>,
            >((opt_text(v), texts(rest@))),
            Err(e) => take_opt(texts(args@), name@) == Err::<
                (Option<Seq<char>>, Seq<Seq<char>>),
                Seq<char>,
            >(e@),
        },
{
    let i: usize = position(args, name);
    if i >= args.len() {
        return Ok((None, copy_all(args)));
    }
    if i + 1 >= args.len() {
        return Err(concat2(name, " needs a value"));
    }
    Ok((Some(copy(args[i + 1].as_str())), without(args, i, i + 2)))
}

/// Pulls a bare flag out of the arguments.
pub fn parse_flag(args: &[String], name: &str) -> (r: (bool, Vec<String>))
    ensures
        take_flag(texts(args@), name@) == (r.0, texts(r.1@)),
{
    let i: usize = position(args, name);
    if i >= args.len() {
        return (false, copy_all(args));
    }
    (true, without(args, i, i + 1))
}

/// Splits `--note <text...>` off the end of the arguments.
pub fn split_note(args: &[String]) -> (r: (Vec<String>, Option<String>))
    ensures
        take_note(texts(args@)) == (texts(r.0@), opt_text(r.1)),
{
    let i: usize = position(args, "--note");
    if i >= args.len() {
        return (copy_all(args), None);
    }
    let words = part(args, i + 1, args.len());
    let head = part(args, 0, i);
    proof {
        assert(texts(words@) =~= texts(args@).skip(i + 1));
        assert(texts(head@) =~= texts(args@).take(i as int));
    }
    (head, Some(join(words.as_slice(), " ")))
}

/// What is said of a step that is not `N/M`.
pub open spec fn bad_step(s: Seq<char>) -> Seq<char> {
    "bad --step value "@ + quoted(s) + "; want N/M"@
}

/// The two numbers of a step.
pub open spec fn step_of(s: Seq<char>) -> Result<(int, int), Seq<char>> {
    match split_once(s, '/') {
        Some((a, b)) => match (i64_value(a), i64_value(b)) {
            (Some(cur), Some(total)) => Ok((cur, total)),
            _ => Err(bad_step(s)),
        },
        None => Err(bad_step(s)),
    }
}

/// Parses a step `N/M`.
pub fn parse_step(s: &str) -> (r: Result<(i64, i64), String>)
    ensures
        match r {
            Ok((cur, total)) => step_of(s@) == Ok::<(int, int), Seq<char>>(
                (cur as int, total as int),
            ),
            Err(e) => step_of(s@) == Err::<(int, int), Seq<char>>(e@),
        },
{
    if let Some((a, b)) = split_once_char(s, '/') {
        if let (Some(cur), Some(total)) = (parse_i64(a.as_str()), parse_i64(b.as_str())) {
            return Ok((cur, total));
        }
    }
    Err(concat3("bad --step value ", quote(s).as_str(), "; want N/M"))
}

// ---- bodies

/// The fields of a request's body.
pub type Fields = Map<Seq<char>, JsonData>;

/// The body of a command, or what the user is told.
pub type BodyData = Result<JsonData, Seq<char>>;

/// The fields with one more string, if there is one.
pub open spec fn with_text(m: Fields, key: Seq<char>, v: Option<Seq<char>>) -> Fields {
    match v {
        Some(s) => m.insert(key, JsonData::Text(s)),
        None => m,
    }
}

/// The body with one more string, if there is one.
fn set_text(body: Json, key: &str, v: &Option<String>) -> (r: Json)
    requires
        body@ is Object,
    ensures
        r@ == JsonData::Object(with_text(body@->Object_0, key@, opt_text(*v))),
{
    match v {
        Some(s) => body.with(key, text(s.as_str())),
        None => body,
    }
}

/// A result that matches what is specified.
pub open spec fn gives(r: Result<Json, String>, d: BodyData) -> bool {
    match r {
        Ok(j) => d == Ok::<JsonData, Seq<char>>(j@),
        Err(e) => d == Err::<JsonData, Seq<char>>(e@),
    }
}

/// The body of `status`.
pub open spec fn status_body(rest: Seq<Seq<char>>) -> BodyData {
    if rest.len() != 1 {
        Err("usage: orbal-net status <active|idle|busy|done>"@)
    } else {
        Ok(JsonData::Object(map!["state"@ => JsonData::Text(rest[0])]))
    }
}

fn status_fields(rest: &[String]) -> (r: Result<Json, String>)
    ensures
        gives(r, status_body(texts(rest@))),
{
    if rest.len() != 1 {
        return Err(copy("usage: orbal-net status <active|idle|busy|done>"));
    }
    Ok(object().with("state", text(rest[0].as_str())))
}

/// The body of `create-room`.
pub open spec fn create_room_body(rest: Seq<Seq<char>>) -> BodyData {
    match take_opt(rest, "--type"@) {
        Err(e) => Err(e),
        Ok((kind, rest)) => if rest.len() != 1 {
            Err("usage: orbal-net create-room <name> [--type public]"@)
        } else {
            Ok(
                JsonData::Object(
                    with_text(map!["name"@ => JsonData::Text(rest[0])], "type"@, kind),
                ),
            )
        },
    }
}

fn create_room_fields(rest: &[String]) -> (r: Result<Json, String>)
    ensures
        gives(r, create_room_body(texts(rest@))),
{
    let (kind, rest) = parse_opt(rest, "--type")?;
    if rest.len() != 1 {
        return Err(copy("usage: orbal-net create-room <name> [--type public]"));
    }
    Ok(set_text(object().with("name", text(rest[0].as_str())), "type", &kind))
}

/// The body of `join`, `leave` and `destroy-room`.
pub open spec fn room_body(cmd: Seq<char>, rest: Seq<Seq<char>>) -> BodyData {
    if rest.len() != 1 {
        Err("usage: orbal-net "@ + cmd + " <room>"@)
    } else {
        Ok(JsonData::Object(map!["room"@ => JsonData::Text(rest[0])]))
    }
}

fn room_fields(cmd: &str, rest: &[String]) -> (r: Result<Json, String>)
    ensures
        gives(r, room_body(cmd@, texts(rest@))),
{
    if rest.len() != 1 {
        return Err(concat3("usage: orbal-net ", cmd, " <room>"));
    }
    Ok(object().with("room", text(rest[0].as_str())))
}

/// The body of `send` and `dm`: all words behind the first make the message.
pub open spec fn message_body(key: Seq<char>, usage: Seq<char>, rest: Seq<Seq<char>>) -> BodyData {
    if rest.len() < 2 {
        Err(usage)
    } else {
        Ok(
            JsonData::Object(
                map![
                    key => JsonData::Text(rest[0]),
                    "text"@ => JsonData::Text(joined(rest.skip(1), " "@)),
                ],
            ),
        )
    }
}

fn message_fields(key: &str, usage: &str, rest: &[String]) -> (r: Result<Json, String>)
    ensures
        gives(r, message_body(key@, usage@, texts(rest@))),
{
    if rest.len() < 2 {
        return Err(copy(usage));
    }
    let words = part(rest, 1, rest.len());
    proof {
        assert(texts(words@) =~= texts(rest@).skip(1));
    }
    let message = join(words.as_slice(), " ");
    Ok(object().with(key, text(rest[0].as_str())).with("text", text(message.as_str())))
}

/// The body of `read` and `peek`.
pub open spec fn read_body(cmd: Seq<char>, rest: Seq<Seq<char>>) -> BodyData {
    match take_opt(rest, "--since"@) {
        Err(e) => Err(e),
        Ok((since, rest)) => if rest.len() != 1 {
            Err("usage: orbal-net "@ + cmd + " <room> [--since <seq>]"@)
        } else {
            let m = with_text(map!["room"@ => JsonData::Text(rest[0])], "since"@, since);
            if cmd == "peek"@ {
                Ok(JsonData::Object(m.insert("peek"@, JsonData::Bool(true))))
            } else {
                Ok(JsonData::Object(m))
            }
        },
    }
}

fn read_fields(cmd: &str, rest: &[String]) -> (r: Result<Json, String>)
    ensures
        gives(r, read_body(cmd@, texts(rest@))),
{
    let (since, rest) = parse_opt(rest, "--since")?;
    if rest.len() != 1 {
        return Err(concat3("usage: orbal-net ", cmd, " <room> [--since <seq>]"));
    }
    let body = set_text(object().with("room", text(rest[0].as_str())), "since", &since);
    if same(cmd, "peek") {
        Ok(body.with("peek", Json::Bool(true)))
    } else {
        Ok(body)
    }
}

/// The body of `wait`.
pub open spec fn wait_body(rest: Seq<Seq<char>>) -> BodyData {
    match take_opt(rest, "--since"@) {
        Err(e) => Err(e),
        Ok((since, rest)) => match take_opt(rest, "--timeout"@) {
            Err(e) => Err(e),
            Ok((timeout, rest)) => if rest.len() != 1 {
                Err("usage: orbal-net wait <room> [--since <seq>] [--timeout <secs>]"@)
            } else {
                Ok(
                    JsonData::Object(
                        with_text(
                            with_text(map!["room"@ => JsonData::Text(rest[0])], "since"@, since),
                            "timeout"@,
                            timeout,
                        ),
                    ),
                )
            },
        },
    }
}

fn wait_fields(rest: &[String]) -> (r: Result<Json, String>)
    ensures
        gives(r, wait_body(texts(rest@))),
{
    let (since, rest) = parse_opt(rest, "--since")?;
    let (timeout, rest) = parse_opt(rest.as_slice(), "--timeout")?;
    if rest.len() != 1 {
        return Err(copy("usage: orbal-net wait <room> [--since <seq>] [--timeout <secs>]"));
    }
    let body = set_text(object().with("room", text(rest[0].as_str())), "since", &since);
    Ok(set_text(body, "timeout", &timeout))
}

/// The body of `invite` and `kick`.
pub open spec fn target_body(cmd: Seq<char>, rest: Seq<Seq<char>>) -> BodyData {
    if rest.len() != 2 {
        Err("usage: orbal-net "@ + cmd + " <room> <agent>"@)
    } else {
        Ok(
            JsonData::Object(
                map!["room"@ => JsonData::Text(rest[0]), "target"@ => JsonData::Text(rest[1])],
            ),
        )
    }
}

fn target_fields(cmd: &str, rest: &[String]) -> (r: Result<Json, String>)
    ensures
        gives(r, target_body(cmd@, texts(rest@))),
{
    if rest.len() != 2 {
        return Err(concat3("usage: orbal-net ", cmd, " <room> <agent>"));
    }
    Ok(object().with("room", text(rest[0].as_str())).with("target", text(rest[1].as_str())))
}

/// The fields with the two numbers of a step.
pub open spec fn with_step(m: Fields, step: (int, int)) -> Fields {
    m.insert("step_cur"@, JsonData::Int(step.0)).insert("step_total"@, JsonData::Int(step.1))
}

/// The value of a percentage, with or without its sign.
pub open spec fn percent_of(s: Seq<char>) -> Option<int> {
    i64_value(without_trailing(s, '%'))
}

/// The fields with the step and the percentage that were asked for.
pub open spec fn with_measures(
    m: Fields,
    step: Option<Seq<char>>,
    percent: Option<Seq<char>>,
) -> Result<Fields, Seq<char>> {
    let stepped = match step {
        None => Ok::<Fields, Seq<char>>(m),
        Some(s) => match step_of(s) {
            Ok(pair) => Ok(with_step(m, pair)),
            Err(e) => Err(e),
        },
    };
    match (stepped, percent) {
        (Err(e), _) => Err(e),
        (Ok(m), None) => Ok(m),
        (Ok(m), Some(p)) => match percent_of(p) {
            Some(n) => Ok(m.insert("percent"@, JsonData::Int(n))),
            None => Err("bad --percent value "@ + quoted(p)),
        },
    }
}

fn set_measures(body: Json, step: &Option<String>, percent: &Option<String>) -> (r: Result<
    Json,
    String,
>)
    requires
        body@ is Object,
    ensures
        match r {
            Ok(j) => j@ is Object && with_measures(
                body@->Object_0,
                opt_text(*step),
                opt_text(*percent),
            ) == Ok::<Fields, Seq<char>>(j@->Object_0),
            Err(e) => with_measures(body@->Object_0, opt_text(*step), opt_text(*percent)) == Err::<
                Fields,
                Seq<char>,
            >(e@),
        },
{
    let body = match step {
        Some(s) => {
            let (cur, total) = parse_step(s.as_str())?;
            body.with("step_cur", Json::Int(cur)).with("step_total", Json::Int(total))
        },
        None => body,
    };
    match percent {
        Some(p) => match parse_i64(trim_end_char(p.as_str(), '%').as_str()) {
            Some(n) => Ok(body.with("percent", Json::Int(n))),
            None => Err(concat2("bad --percent value ", quote(p.as_str()).as_str())),
        },
        None => Ok(body),
    }
}

/// What is said of a malformed `event` command.
pub open spec fn event_usage() -> Seq<char> {
    "usage: orbal-net event <room> <kind> [--task T] [--phase P] [--step N/M] [--percent P] \
     [--to AGENT] [--note <text...>]"@
}

/// The values of the options of `event`.
pub struct EventOptions {
    pub task: Option<Seq<char>>,
    pub phase: Option<Seq<char>>,
    pub step: Option<Seq<char>>,
    pub percent: Option<Seq<char>>,
    pub to: Option<Seq<char>>,
    pub rest: Seq<Seq<char>>,
}

/// The options of `event`, taken out one after the other.
pub open spec fn event_options(args: Seq<Seq<char>>) -> Result<EventOptions, Seq<char>> {
    match take_opt(args, "--task"@) {
        Err(e) => Err(e),
        Ok((task, args)) => match take_opt(args, "--phase"@) {
            Err(e) => Err(e),
            Ok((phase, args)) => match take_opt(args, "--step"@) {
                Err(e) => Err(e),
                Ok((step, args)) => match take_opt(args, "--percent"@) {
                    Err(e) => Err(e),
                    Ok((percent, args)) => match take_opt(args, "--to"@) {
                        Err(e) => Err(e),
                        Ok((to, rest)) => Ok(
                            EventOptions { task, phase, step, percent, to, rest },
                        ),
                    },
                },
            },
        },
    }
}

/// The body of an `event` with these options and this note.
pub open spec fn event_with(o: EventOptions, note: Option<Seq<char>>) -> BodyData {
    if o.rest.len() != 2 {
        Err(event_usage())
    } else {
        let m = map!["room"@ => JsonData::Text(o.rest[0]), "kind"@ => JsonData::Text(o.rest[1])];
        match with_measures(
            with_text(with_text(m, "task"@, o.task), "phase"@, o.phase),
            o.step,
            o.percent,
        ) {
            Err(e) => Err(e),
            Ok(m) => Ok(
                JsonData::Object(with_text(with_text(m, "target"@, o.to), "note"@, note)),
            ),
        }
    }
}

/// The body of `event`.
pub open spec fn event_body(args: Seq<Seq<char>>) -> BodyData {
    let (args, note) = take_note(args);
    match event_options(args) {
        Err(e) => Err(e),
        Ok(o) => event_with(o, note),
    }
}

fn event_fields(args: &[String]) -> (r: Result<Json, String>)
    ensures
        gives(r, event_body(texts(args@))),
{
    let (args, note) = split_note(args);
    let (task, args) = parse_opt(args.as_slice(), "--task")?;
    let (phase, args) = parse_opt(args.as_slice(), "--phase")?;
    let (step, args) = parse_opt(args.as_slice(), "--step")?;
    let (percent, args) = parse_opt(args.as_slice(), "--percent")?;
    let (to, rest) = parse_opt(args.as_slice(), "--to")?;
    if rest.len() != 2 {
        return Err(
            copy(
                "usage: orbal-net event <room> <kind> [--task T] [--phase P] [--step N/M] [--percent P] \
                 [--to AGENT] [--note <text...>]",
            ),
        );
    }
    let body = object().with("room", text(rest[0].as_str())).with("kind", text(rest[1].as_str()));
    let body = set_text(set_text(body, "task", &task), "phase", &phase);
    let body = set_measures(body, &step, &percent)?;
    Ok(set_text(set_text(body, "target", &to), "note", &note))
}

/// The fields with what `progress` reports: a percentage or a step.
pub open spec fn with_progress(m: Fields, v: Seq<char>) -> Result<Fields, Seq<char>> {
    if v.len() > 0 && v.last() == '%' {
        match percent_of(v) {
            Some(n) => Ok(m.insert("percent"@, JsonData::Int(n))),
            None => Err("bad progress value "@ + quoted(v)),
        }
    } else {
        match step_of(v) {
            Ok(pair) => Ok(with_step(m, pair)),
            Err(e) => Err(e),
        }
    }
}

fn set_progress(body: Json, v: &str) -> (r: Result<Json, String>)
    requires
        body@ is Object,
    ensures
        match r {
            Ok(j) => j@ is Object && with_progress(body@->Object_0, v@) == Ok::<
                Fields,
                Seq<char>,
            >(j@->Object_0),
            Err(e) => with_progress(body@->Object_0, v@) == Err::<Fields, Seq<char>>(e@),
        },
{
    let cs = chars_of(v);
    if cs.len() > 0 && cs[cs.len() - 1] == '%' {
        match parse_i64(trim_end_char(v, '%').as_str()) {
            Some(n) => Ok(body.with("percent", Json::Int(n))),
            None => Err(concat2("bad progress value ", quote(v).as_str())),
        }
    } else {
        let (cur, total) = parse_step(v)?;
        Ok(body.with("step_cur", Json::Int(cur)).with("step_total", Json::Int(total)))
    }
}

/// The body of `progress`, which stands for a `step` event.
pub open spec fn progress_body(args: Seq<Seq<char>>) -> BodyData {
    let (args, note) = take_note(args);
    match take_opt(args, "--task"@) {
        Err(e) => Err(e),
        Ok((task, rest)) => if rest.len() != 2 {
            Err("usage: orbal-net progress <room> <N/M | P%> [--task T] [--note <text...>]"@)
        } else {
            let m = map!["room"@ => JsonData::Text(rest[0]), "kind"@ => JsonData::Text("step"@)];
            match with_progress(m, rest[1]) {
                Err(e) => Err(e),
                Ok(m) => Ok(
                    JsonData::Object(with_text(with_text(m, "task"@, task), "note"@, note)),
                ),
            }
        },
    }
}

fn progress_fields(args: &[String]) -> (r: Result<Json, String>)
    ensures
        gives(r, progress_body(texts(args@))),
{
    let (args, note) = split_note(args);
    let (task, rest) = parse_opt(args.as_slice(), "--task")?;
    if rest.len() != 2 {
        return Err(
            copy("usage: orbal-net progress <room> <N/M | P%> [--task T] [--note <text...>]"),
        );
    }
    let body = object().with("room", text(rest[0].as_str())).with("kind", text("step"));
    let body = set_progress(body, rest[1].as_str())?;
    Ok(set_text(set_text(body, "task", &task), "note", &note))
}

/// The body of `events`.
pub open spec fn events_body(rest: Seq<Seq<char>>) -> BodyData {
    match take_opt(rest, "--since"@) {
        Err(e) => Err(e),
        Ok((since, rest)) => if rest.len() != 1 {
            Err("usage: orbal-net events <room> [--since <seq>]"@)
        } else {
            Ok(
                JsonData::Object(
                    with_text(map!["room"@ => JsonData::Text(rest[0])], "since"@, since),
                ),
            )
        },
    }
}

fn events_fields(rest: &[String]) -> (r: Result<Json, String>)
    ensures
        gives(r, events_body(texts(rest@))),
{
    let (since, rest) = parse_opt(rest, "--since")?;
    if rest.len() != 1 {
        return Err(copy("usage: orbal-net events <room> [--since <seq>]"));
    }
    Ok(set_text(object().with("room", text(rest[0].as_str())), "since", &since))
}

// ---- commands

/// The body of a command with its arguments.
pub open spec fn command_body(cmd: Seq<char>, rest: Seq<Seq<char>>) -> BodyData {
    if cmd == "whoami"@ || cmd == "agents"@ || cmd == "rooms"@ || cmd == "inbox"@ {
        Ok(JsonData::Object(Map::empty()))
    } else if cmd == "status"@ {
        status_body(rest)
    } else if cmd == "create-room"@ {
        create_room_body(rest)
    } else if cmd == "join"@ || cmd == "leave"@ || cmd == "destroy-room"@ {
        room_body(cmd, rest)
    } else if cmd == "send"@ {
        message_body("room"@, "usage: orbal-net send <room> <message...>"@, rest)
    } else if cmd == "dm"@ {
        message_body("to"@, "usage: orbal-net dm <agent> <message...>"@, rest)
    } else if cmd == "read"@ || cmd == "peek"@ {
        read_body(cmd, rest)
    } else if cmd == "wait"@ {
        wait_body(rest)
    } else if cmd == "invite"@ || cmd == "kick"@ {
        target_body(cmd, rest)
    } else if cmd == "event"@ {
        event_body(rest)
    } else if cmd == "progress"@ {
        progress_body(rest)
    } else if cmd == "events"@ {
        events_body(rest)
    } else {
        Err("unknown command "@ + quoted(cmd) + " (see orbal-net with no args)"@)
    }
}

/// What a command asks the server for.
#[derive(Debug, PartialEq, Eq)]
pub struct Command {
    pub action: String,
    pub body: Json,
    /// How long the client waits for the answer, in seconds.
    pub patience_secs: u64,
}

/// The action that a command asks for: `progress` is an `event` to the server.
pub open spec fn wire_action(cmd: Seq<char>) -> Seq<char> {
    if cmd == "progress"@ {
        "event"@
    } else {
        cmd
    }
}

/// How long the client waits for an answer: longer for `wait`, which the server may hold.
pub open spec fn patience(cmd: Seq<char>) -> int {
    if cmd == "wait"@ {
        600
    } else {
        30
    }
}

/// What a command line asks the server for, or what the user is told.
pub fn client_command(cmd: &str, rest: &[String]) -> (r: Result<Command, String>)
    ensures
        match r {
            Ok(c) => command_body(cmd@, texts(rest@)) == Ok::<JsonData, Seq<char>>(c.body@)
                && c.body@ is Object && c.action@ == wire_action(cmd@) && c.patience_secs
                == patience(cmd@),
            Err(e) => command_body(cmd@, texts(rest@)) == Err::<JsonData, Seq<char>>(e@),
        },
{
    let body = if same(cmd, "whoami") || same(cmd, "agents") || same(cmd, "rooms") || same(
        cmd,
        "inbox",
    ) {
        object()
    } else if same(cmd, "status") {
        status_fields(rest)?
    } else if same(cmd, "create-room") {
        create_room_fields(rest)?
    } else if same(cmd, "join") || same(cmd, "leave") || same(cmd, "destroy-room") {
        room_fields(cmd, rest)?
    } else if same(cmd, "send") {
        message_fields("room", "usage: orbal-net send <room> <message...>", rest)?
    } else if same(cmd, "dm") {
        message_fields("to", "usage: orbal-net dm <agent> <message...>", rest)?
    } else if same(cmd, "read") || same(cmd, "peek") {
        read_fields(cmd, rest)?
    } else if same(cmd, "wait") {
        wait_fields(rest)?
    } else if same(cmd, "invite") || same(cmd, "kick") {
        target_fields(cmd, rest)?
    } else if same(cmd, "event") {
        event_fields(rest)?
    } else if same(cmd, "progress") {
        progress_fields(rest)?
    } else if same(cmd, "events") {
        events_fields(rest)?
    } else {
        return Err(
            concat3("unknown command ", quote(cmd).as_str(), " (see orbal-net with no args)"),
        );
    };
    let action = if same(cmd, "progress") {
        copy("event")
    } else {
        copy(cmd)
    };
    let patience_secs: u64 = if same(cmd, "wait") {
        600
    } else {
        30
    };
    Ok(Command { action, body, patience_secs })
}

/// Whatever a command line asks for is something that the server does; `wait` alone is not,
/// which `recv` has replaced.
pub proof fn law_commands_are_actions(cmd: Seq<char>, rest: Seq<Seq<char>>)
    requires
        command_body(cmd, rest) is Ok,
        cmd != "wait"@,
    ensures
        is_action(wire_action(cmd)),
{
}

/// `progress` is short for `event` with the kind `step`: it asks for the same action with the
/// same body, and is accepted for the same values.
pub proof fn law_progress_is_a_step_event(args: Seq<Seq<char>>)
    requires
        take_opt(take_note(args).0, "--task"@) matches Ok((_, rest)) && rest.len() == 2,
    ensures
        ({
            let note = take_note(args).1;
            let (task, rest) = take_opt(take_note(args).0, "--task"@)->Ok_0;
            let v = rest[1];
            let percent = v.len() > 0 && v.last() == '%';
            let step = EventOptions {
                task,
                phase: None,
                step: if percent {
                    None
                } else {
                    Some(v)
                },
                percent: if percent {
                    Some(v)
                } else {
                    None
                },
                to: None,
                rest: seq![rest[0], "step"@],
            };
            &&& wire_action("progress"@) == "event"@
            &&& progress_body(args) is Ok == event_with(step, note) is Ok
            &&& progress_body(args) is Ok ==> progress_body(args) == event_with(step, note)
        }),
{
    reveal_strlit("task");
    reveal_strlit("percent");
    reveal_strlit("step_cur");
    reveal_strlit("step_total");
    assert("task"@.len() == 4 && "percent"@.len() == 7);
    assert("step_cur"@.len() == 8 && "step_total"@.len() == 10);
    let note = take_note(args).1;
    let (task, rest) = take_opt(take_note(args).0, "--task"@)->Ok_0;
    let v = rest[1];
    let m = map!["room"@ => JsonData::Text(rest[0]), "kind"@ => JsonData::Text("step"@)];
    match with_progress(m, v) {
        Ok(_) => {
            match step_of(v) {
                Ok(pair) => {
                    assert(with_text(with_step(m, pair), "task"@, task) =~= with_step(
                        with_text(m, "task"@, task),
                        pair,
                    ));
                },
                Err(_) => {},
            }
            match percent_of(v) {
                Some(n) => {
                    assert(with_text(m.insert("percent"@, JsonData::Int(n)), "task"@, task)
                        =~= with_text(m, "task"@, task).insert("percent"@, JsonData::Int(n)));
                },
                None => {},
            }
        },
        Err(_) => {},
    }
}

// ---- identity

/// Where the server is, the token that it wants, and who the caller is.
#[derive(Debug, PartialEq, Eq)]
pub struct Identity {
    pub url: String,
    pub token: String,
    pub agent: String,
}

/// A value that is set and not empty.
pub open spec fn is_set(v: Option<String>) -> bool {
    v matches Some(s) && s@.len() > 0
}

/// The identity that the environment gives; all three values have to be set.
pub fn identity(url: Option<String>, token: Option<String>, agent: Option<String>) -> (r: Result<
    Identity,
    String,
>)
    ensures
        match r {
            Ok(i) => is_set(url) && is_set(token) && is_set(agent) && i.url == url->0 && i.token
                == token->0 && i.agent == agent->0,
            Err(e) => !(is_set(url) && is_set(token) && is_set(agent)) && e@
                == "ORBAL_NET_URL, ORBAL_NET_TOKEN and ORBAL_NET_AGENT must all be set"@,
        },
{
    if let (Some(url), Some(token), Some(agent)) = (url, token, agent) {
        if !url.as_str().is_empty() && !token.as_str().is_empty() && !agent.as_str().is_empty() {
            return Ok(Identity { url, token, agent });
        }
    }
    Err(copy("ORBAL_NET_URL, ORBAL_NET_TOKEN and ORBAL_NET_AGENT must all be set"))
}

/// A body with the caller's name in it.
pub open spec fn signed_by(d: JsonData, agent: Seq<char>) -> JsonData {
    JsonData::Object(d->Object_0.insert("agent"@, JsonData::Text(agent)))
}

/// The body of a command with the caller's name in it.
pub fn signed(body: Json, agent: &str) -> (r: Json)
    requires
        body@ is Object,
    ensures
        r@ == signed_by(body@, agent@),
{
    body.with("agent", text(agent))
}

// ---- recv

/// The arguments of `recv`.
#[derive(Debug, PartialEq, Eq)]
pub struct RecvArgs {
    pub room: String,
    pub since: Option<String>,
    pub timeout_secs: u64,
    pub follow: bool,
}

/// The arguments of `recv`, as data.
pub struct RecvArgsData {
    pub room: Seq<char>,
    pub since: Option<Seq<char>>,
    pub timeout_secs: int,
    pub follow: bool,
}

impl View for RecvArgs {
    type V = RecvArgsData;

    open spec fn view(&self) -> RecvArgsData {
        RecvArgsData {
            room: self.room@,
            since: opt_text(self.since),
            timeout_secs: self.timeout_secs as int,
            follow: self.follow,
        }
    }
}

/// What is said of a malformed `recv` command.
pub open spec fn recv_usage() -> Seq<char> {
    "usage: orbal-net recv <room> [--since <id>] [--timeout <secs>] [--follow]"@
}

/// The time that `recv` waits, in seconds.
pub open spec fn recv_timeout(timeout: Option<Seq<char>>) -> Result<int, Seq<char>> {
    match timeout {
        None => Ok(120),
        Some(t) => match unsigned_value(t, 10, u64::MAX as int) {
            Some(n) => Ok(n),
            None => Err("bad --timeout value "@ + quoted(t)),
        },
    }
}

/// The arguments of `recv`, or what the user is told.
pub open spec fn recv_args(args: Seq<Seq<char>>) -> Result<RecvArgsData, Seq<char>> {
    match take_opt(args, "--since"@) {
        Err(e) => Err(e),
        Ok((since, args)) => match take_opt(args, "--timeout"@) {
            Err(e) => Err(e),
            Ok((timeout, args)) => {
                let (follow, args) = take_flag(args, "--follow"@);
                if args.len() != 1 {
                    Err(recv_usage())
                } else if since is Some && since_value(since->0) is None {
                    Err(
                        "bad --since value "@ + quoted(since->0)
                            + "; want \"<msgSeq>:<evtSeq>\""@,
                    )
                } else {
                    match recv_timeout(timeout) {
                        Err(e) => Err(e),
                        Ok(timeout_secs) => Ok(
                            RecvArgsData { room: args[0], since, timeout_secs, follow },
                        ),
                    }
                }
            },
        },
    }
}

/// Parses the arguments of `recv`.
pub fn parse_recv(args: &[String]) -> (r: Result<RecvArgs, String>)
    ensures
        match r {
            Ok(a) => recv_args(texts(args@)) == Ok::<RecvArgsData, Seq<char>>(a@),
            Err(e) => recv_args(texts(args@)) == Err::<RecvArgsData, Seq<char>>(e@),
        },
{
    let (since, args) = parse_opt(args, "--since")?;
    let (timeout, args) = parse_opt(args.as_slice(), "--timeout")?;
    let (follow, args) = parse_flag(args.as_slice(), "--follow");
    if args.len() != 1 {
        return Err(
            copy("usage: orbal-net recv <room> [--since <id>] [--timeout <secs>] [--follow]"),
        );
    }
    if let Some(s) = &since {
        if parse_since(s.as_str()).is_none() {
            return Err(
                concat3(
                    "bad --since value ",
                    quote(s.as_str()).as_str(),
                    "; want \"<msgSeq>:<evtSeq>\"",
                ),
            );
        }
    }
    let timeout_secs: u64 = match &timeout {
        None => 120,
        Some(t) => match parse_unsigned(t.as_str(), 10, u64::MAX) {
            Some(n) => n,
            None => {
                return Err(concat2("bad --timeout value ", quote(t.as_str()).as_str()));
            },
        },
    };
    Ok(RecvArgs { room: copy(args[0].as_str()), since, timeout_secs, follow })
}

/// The body of the stream that `recv` opens: a following call consumes nothing and stays
/// open; any other one is ended by the server, after something was delivered or the time is
/// up.
pub open spec fn recv_request(a: RecvArgsData, agent: Seq<char>) -> JsonData {
    let m = map![
        "agent"@ => JsonData::Text(agent),
        "mode"@ => JsonData::Text("recv"@),
        "room"@ => JsonData::Text(a.room),
    ];
    if a.follow {
        JsonData::Object(m.insert("follow"@, JsonData::Bool(true)))
    } else {
        JsonData::Object(
            m.insert("once"@, JsonData::Bool(true)).insert(
                "timeout"@,
                JsonData::Text(crate::number::decimal(a.timeout_secs)),
            ),
        )
    }
}

/// The body of the stream that `recv` opens.
pub fn recv_payload(a: &RecvArgs, agent: &str) -> (r: Json)
    ensures
        r@ == recv_request(a@, agent@),
{
    let body = object().with("agent", text(agent)).with("mode", text("recv")).with(
        "room",
        text(a.room.as_str()),
    );
    if a.follow {
        body.with("follow", Json::Bool(true))
    } else {
        let secs = crate::number::decimal_u64(a.timeout_secs);
        body.with("once", Json::Bool(true)).with("timeout", text(secs.as_str()))
    }
}

/// How much longer than the server a one-shot call waits before it gives up on its own, in
/// seconds: what the server delivers at the last moment still arrives.
pub const RECV_GRACE_SECS: u64 = 30;

/// How long a `recv` call waits at most, in seconds: as long as the server and a little more, or
/// for ever if it follows.
pub open spec fn recv_limit(a: RecvArgsData) -> Option<int> {
    if a.follow {
        None
    } else if a.timeout_secs + RECV_GRACE_SECS > u64::MAX {
        Some(u64::MAX as int)
    } else {
        Some(a.timeout_secs + RECV_GRACE_SECS)
    }
}

/// How long `recv` waits for the server, in seconds; a following call waits without end.
pub fn recv_patience(a: &RecvArgs) -> (r: Option<u64>)
    ensures
        match r {
            Some(secs) => recv_limit(a@) == Some(secs as int),
            None => recv_limit(a@) is None,
        },
{
    if a.follow {
        None
    } else if a.timeout_secs > u64::MAX - RECV_GRACE_SECS {
        Some(u64::MAX)
    } else {
        Some(a.timeout_secs + RECV_GRACE_SECS)
    }
}

// ---- serve

/// The arguments of `serve`.
#[derive(Debug, PartialEq, Eq)]
pub struct ServeArgs {
    pub token: String,
    pub port: u16,
    pub db: String,
}

/// The arguments of `serve` while they are read.
pub struct ServeData {
    pub token: Option<Seq<char>>,
    pub port: int,
    pub db: Seq<char>,
}

/// What the arguments of `serve` add to what was read before them.
pub open spec fn serve_from(args: Seq<Seq<char>>, s: ServeData) -> Result<ServeData, Seq<char>>
    decreases args.len(),
{
    if args.len() == 0 {
        Ok(s)
    } else {
        let value = if args.len() > 1 {
            Some(args[1])
        } else {
            None
        };
        let rest = if args.len() > 1 {
            args.skip(2)
        } else {
            Seq::empty()
        };
        if args[0] == "--token"@ {
            serve_from(rest, ServeData { token: value, ..s })
        } else if args[0] == "--port"@ {
            match value {
                Some(v) => match unsigned_value(v, 10, u16::MAX as int) {
                    Some(port) => serve_from(rest, ServeData { port, ..s }),
                    None => Err("--port needs a number"@),
                },
                None => Err("--port needs a number"@),
            }
        } else if args[0] == "--db"@ {
            match value {
                Some(db) => serve_from(rest, ServeData { db, ..s }),
                None => Err("--db needs a path"@),
            }
        } else {
            Err("unknown serve flag "@ + quoted(args[0]))
        }
    }
}

/// The arguments of `serve`, or what the user is told: a token has to be given.
pub open spec fn serve_args(args: Seq<Seq<char>>) -> Result<ServeData, Seq<char>> {
    match serve_from(args, ServeData { token: None, port: 0, db: ":memory:"@ }) {
        Err(e) => Err(e),
        Ok(s) => if s.token is None {
            Err("--token is required"@)
        } else {
            Ok(s)
        },
    }
}

/// Parses the arguments of `serve`.
pub fn parse_serve(args: &[String]) -> (r: Result<ServeArgs, String>)
    ensures
        match r {
            Ok(a) => serve_args(texts(args@)) == Ok::<ServeData, Seq<char>>(
                (ServeData { token: Some(a.token@), port: a.port as int, db: a.db@ }),
            ),
            Err(e) => serve_args(texts(args@)) == Err::<ServeData, Seq<char>>(e@),
        },
{
    let mut token: Option<String> = None;
    let mut port: u16 = 0;
    let mut db = copy(":memory:");
    let mut i: usize = 0;
    let ghost all = texts(args@);
    proof {
        assert(all.skip(0) =~= all);
    }
    while i < args.len()
        invariant
            i <= args@.len(),
            all == texts(args@),
            serve_from(all, ServeData { token: None, port: 0, db: ":memory:"@ }) == serve_from(
                all.skip(i as int),
                ServeData { token: opt_text(token), port: port as int, db: db@ },
            ),
        decreases args@.len() - i,
    {
        proof {
            let here = all.skip(i as int);
            assert(here[0] == args@[i as int]@);
            if i + 1 < args@.len() {
                assert(here[1] == args@[i + 1]@);
                assert(here.skip(2) =~= all.skip(i + 2));
            } else {
                assert(all.skip(args@.len() as int) =~= Seq::<Seq<char>>::empty());
            }
        }
        if same(args[i].as_str(), "--token") {
            token = if args.len() - i > 1 {
                Some(copy(args[i + 1].as_str()))
            } else {
                None
            };
        } else if same(args[i].as_str(), "--port") {
            if args.len() - i <= 1 {
                return Err(copy("--port needs a number"));
            }
            match parse_unsigned(args[i + 1].as_str(), 10, 65535) {
                Some(n) => {
                    proof {
                        assert(n <= 65535);
                    }
                    port = n as u16;
                },
                None => {
                    return Err(copy("--port needs a number"));
                },
            }
        } else if same(args[i].as_str(), "--db") {
            if args.len() - i <= 1 {
                return Err(copy("--db needs a path"));
            }
            db = copy(args[i + 1].as_str());
        } else {
            return Err(concat2("unknown serve flag ", quote(args[i].as_str()).as_str()));
        }
        if args.len() - i <= 2 {
            i = args.len();
        } else {
            i += 2;
        }
    }
    match token {
        Some(token) => Ok(ServeArgs { token, port, db }),
        None => Err(copy("--token is required")),
    }
}

// ---- skill

/// What `skill` is to do.
#[derive(Debug, PartialEq, Eq)]
pub enum SkillAction {
    Print,
    /// Write the skill below a directory.
    Install(String),
}

/// What is said of a malformed `skill` command.
pub open spec fn skill_usage() -> Seq<char> {
    "usage: orbal-net skill [--install --dir <dir>]"@
}

/// What `skill` is to do: a directory is given exactly where it is to be installed.
pub open spec fn skill_action(args: Seq<Seq<char>>) -> Result<Option<Seq<char>>, Seq<char>> {
    match take_opt(args, "--dir"@) {
        Err(e) => Err(e),
        Ok((dir, args)) => {
            let (install, args) = take_flag(args, "--install"@);
            if args.len() != 0 || install != (dir is Some) {
                Err(skill_usage())
            } else {
                Ok(dir)
            }
        },
    }
}

/// Parses the arguments of `skill`.
pub fn parse_skill(args: &[String]) -> (r: Result<SkillAction, String>)
    ensures
        match r {
            Ok(SkillAction::Print) => skill_action(texts(args@)) == Ok::<
                Option<Seq<char>>,
                Seq<char>,
            >(None),
            Ok(SkillAction::Install(dir)) => skill_action(texts(args@)) == Ok::<
                Option<Seq<char>>,
                Seq<char>,
            >(Some(dir@)),
            Err(e) => skill_action(texts(args@)) == Err::<Option<Seq<char>>, Seq<char>>(e@),
        },
{
    let (dir, args) = parse_opt(args, "--dir")?;
    let (install, args) = parse_flag(args.as_slice(), "--install");
    if args.len() == 0 {
        match (dir, install) {
            (Some(dir), true) => {
                return Ok(SkillAction::Install(dir));
            },
            (None, false) => {
                return Ok(SkillAction::Print);
            },
            _ => {},
        }
    }
    Err(copy("usage: orbal-net skill [--install --dir <dir>]"))
}

} // verus!
