//! What the server does with one request: who may ask, what is asked, what is answered.

use crate::json::{
    json_parse, object, parse, text as json_string, text_field, Json, JsonData,
};
use crate::ops::{dispatch, outcome, refused_early, Outcome};
use crate::store::{Failure, Refusal, RefusalData, Store};
use crate::tables::{made_known, Tables};
use crate::text::{chars_of, concat2, copy, same, trim, trim_char, trimmed, without_both};
use vstd::prelude::*;

verus! {

/// One header line of a request.
#[derive(Debug, PartialEq, Eq)]
pub struct HeaderLine {
    pub name: String,
    pub value: String,
}

/// A character with an ASCII capital made small.
pub open spec fn lowered(c: char) -> char {
    if 'A' <= c <= 'Z' {
        (c as int + 32) as char
    } else {
        c
    }
}

/// Two texts are equal but for the case of ASCII letters.
pub open spec fn same_name(a: Seq<char>, b: Seq<char>) -> bool {
    a.len() == b.len() && forall|i: int|
        0 <= i < a.len() ==> lowered(#[trigger] a[i]) == lowered(b[i])
}

/// The small form of a character.
fn lower(c: char) -> (r: char)
    ensures
        r == lowered(c),
{
    if 'A' <= c && c <= 'Z' {
        (c as u8 + 32) as char
    } else {
        c
    }
}

/// Whether two texts are equal but for the case of ASCII letters.
pub fn equal_names(a: &str, b: &str) -> (r: bool)
    ensures
        r == same_name(a@, b@),
{
    let x = chars_of(a);
    let y = chars_of(b);
    if x.len() != y.len() {
        return false;
    }
    let mut i: usize = 0;
    while i < x.len()
        invariant
            x@ == a@,
            y@ == b@,
            x@.len() == y@.len(),
            i <= x@.len(),
            forall|k: int| 0 <= k < i ==> lowered(#[trigger] a@[k]) == lowered(b@[k]),
        decreases x@.len() - i,
    {
        if lower(x[i]) != lower(y[i]) {
            return false;
        }
        i += 1;
    }
    true
}

/// Some `Authorization` header bears the mission's token.
pub open spec fn bears_token(headers: Seq<HeaderLine>, token: Seq<char>) -> bool {
    exists|i: int|
        0 <= i < headers.len() && same_name((#[trigger] headers[i]).name@, "Authorization"@)
            && headers[i].value@ == "Bearer "@ + token
}

/// Whether a request bears the mission's token.
pub fn authorized(headers: &[HeaderLine], token: &str) -> (r: bool)
    ensures
        r == bears_token(headers@, token@),
{
    let wanted = concat2("Bearer ", token);
    let mut i: usize = 0;
    while i < headers.len()
        invariant
            i <= headers@.len(),
            wanted@ == "Bearer "@ + token@,
            forall|k: int|
                0 <= k < i ==> !(same_name((#[trigger] headers@[k]).name@, "Authorization"@)
                    && headers@[k].value@ == "Bearer "@ + token@),
        decreases headers@.len() - i,
    {
        if equal_names(headers[i].name.as_str(), "Authorization") && same(
            headers[i].value.as_str(),
            wanted.as_str(),
        ) {
            return true;
        }
        i += 1;
    }
    false
}

/// The value of the first header with a name.
pub open spec fn header_value(headers: Seq<HeaderLine>, name: Seq<char>) -> Option<Seq<char>>
    decreases headers.len(),
{
    if headers.len() == 0 {
        None
    } else if same_name(headers[0].name@, name) {
        Some(headers[0].value@)
    } else {
        header_value(headers.skip(1), name)
    }
}

/// The value of the first header with a name.
pub fn header(headers: &[HeaderLine], name: &str) -> (r: Option<String>)
    ensures
        crate::text::opt_text(r) == header_value(headers@, name@),
{
    let mut i: usize = 0;
    proof {
        assert(headers@.skip(0) =~= headers@);
    }
    while i < headers.len()
        invariant
            i <= headers@.len(),
            header_value(headers@, name@) == header_value(headers@.skip(i as int), name@),
        decreases headers@.len() - i,
    {
        if equal_names(headers[i].name.as_str(), name) {
            return Some(copy(headers[i].value.as_str()));
        }
        proof {
            assert(headers@.skip(i as int).skip(1) =~= headers@.skip(i + 1));
        }
        i += 1;
    }
    None
}

/// The data of a request's body: nothing at all counts as an empty object, and what is not
/// JSON as `null`.
pub open spec fn body_data(text: Seq<char>) -> JsonData {
    if trimmed(text).len() == 0 {
        JsonData::Object(Map::empty())
    } else {
        match json_parse(text) {
            Some(d) => d,
            None => JsonData::Null,
        }
    }
}

/// Parses a request's body.
pub fn parse_body(text: &str) -> (r: Json)
    ensures
        r@ == body_data(text@),
{
    if trim(text).as_str().is_empty() {
        object()
    } else {
        match parse(text) {
            Some(j) => j,
            None => Json::Null,
        }
    }
}

/// What a request asks for, and who asks.
#[derive(Debug, PartialEq, Eq)]
pub struct Call {
    pub action: String,
    pub agent: String,
}

/// What a request asks for, as data.
pub struct CallData {
    pub action: Seq<char>,
    pub agent: Seq<char>,
}

impl View for Call {
    type V = CallData;

    open spec fn view(&self) -> CallData {
        CallData { action: self.action@, agent: self.agent@ }
    }
}

/// What a path and a body ask for: the body has to be an object that names the agent.
pub open spec fn call_of(url: Seq<char>, d: JsonData) -> Result<CallData, RefusalData> {
    if !(d is Object) {
        Err(RefusalData { code: 400, msg: "bad JSON body"@ })
    } else {
        match text_field(d, "agent"@) {
            Some(agent) => if agent.len() > 0 {
                Ok(CallData { action: without_both(url, '/'), agent })
            } else {
                Err(RefusalData { code: 400, msg: "missing 'agent' (set ORBAL_NET_AGENT)"@ })
            },
            None => Err(
                RefusalData { code: 400, msg: "missing 'agent' (set ORBAL_NET_AGENT)"@ },
            ),
        }
    }
}

/// Reads off a path and a body what is asked for, and by whom.
pub fn read_call(url: &str, body: &Json) -> (r: Result<Call, Refusal>)
    ensures
        match r {
            Ok(c) => call_of(url@, body@) == Ok::<CallData, RefusalData>(c@),
            Err(e) => call_of(url@, body@) == Err::<CallData, RefusalData>(e@),
        },
{
    if !body.is_object() {
        return Err(Refusal { code: 400, msg: copy("bad JSON body") });
    }
    if let Some(agent) = body.get_text("agent") {
        if !agent.as_str().is_empty() {
            return Ok(Call { action: trim_char(url, '/'), agent });
        }
    }
    Err(Refusal { code: 400, msg: copy("missing 'agent' (set ORBAL_NET_AGENT)") })
}

/// The body of an answer that refuses.
pub open spec fn error_json(msg: Seq<char>) -> JsonData {
    JsonData::Object(map!["error"@ => JsonData::Text(msg)])
}

/// The body of an answer that refuses.
pub fn error_body(msg: &str) -> (r: Json)
    ensures
        r@ == error_json(msg@),
{
    object().with("error", json_string(msg))
}

/// The actions that wake parked streams when they succeed: those that add a message or an
/// event or change the roster.
pub open spec fn is_wakeful(action: Seq<char>) -> bool {
    ||| action == "send"@
    ||| action == "dm"@
    ||| action == "event"@
    ||| action == "status"@
    ||| action == "join"@
    ||| action == "leave"@
    ||| action == "create-room"@
    ||| action == "destroy-room"@
    ||| action == "invite"@
    ||| action == "kick"@
}

/// Whether an action wakes parked streams when it succeeds.
pub fn wakeful(action: &str) -> (r: bool)
    ensures
        r == is_wakeful(action@),
{
    same(action, "send") || same(action, "dm") || same(action, "event") || same(action, "status")
        || same(action, "join") || same(action, "leave") || same(action, "create-room") || same(
        action,
        "destroy-room",
    ) || same(action, "invite") || same(action, "kick")
}

/// The answer to a request.
#[derive(Debug)]
pub struct Answer {
    pub code: u16,
    pub body: Json,
    /// Parked streams have something new to look at.
    pub wake: bool,
    /// Why the caller could not be noted as known; the request was carried out all the same.
    pub missed_caller: Option<rusqlite::Error>,
    /// The same of another agent that the request names.
    pub missed_target: Option<rusqlite::Error>,
}

/// An answer that refuses: it wakes nobody.
pub open spec fn refuses(a: Answer, code: int, msg: Seq<char>) -> bool {
    a.code == code && a.body@ == error_json(msg) && !a.wake
}

/// An answer that refuses.
fn refusal(code: u16, msg: &str, missed_caller: Option<rusqlite::Error>) -> (r: Answer)
    ensures
        refuses(r, code as int, msg@),
        r.missed_caller == missed_caller,
        r.missed_target is None,
{
    Answer { code, body: error_body(msg), wake: false, missed_caller, missed_target: None }
}

/// An answer is what the action's outcome says, and the tables are as that says. Whatever the
/// outcome, the agent that asked is known from then on, unless that could not be noted.
pub open spec fn answers(
    a: Answer,
    before: Tables,
    after: Tables,
    call: CallData,
    b: JsonData,
    now: int,
) -> bool {
    let t = made_known(before, call.agent, a.missed_caller is None);
    match outcome(t, call.action, call.agent, b, now, a.missed_target is None) {
        Outcome::Done { tables, reply } => {
            &&& a.code == 200
            &&& a.body@ == reply
            &&& a.wake == is_wakeful(call.action)
            &&& call.action == "whoami"@ ==> t.agents.contains_key(call.agent)
            &&& call.action != "dm"@ && call.action != "invite"@ ==> a.missed_target is None
            &&& after == tables
        },
        Outcome::Refused(e) => {
            &&& refuses(a, e.code, e.msg)
            &&& a.missed_target is None
            &&& after == t
        },
    }
}

/// Makes the caller known, carries out what it asks for, and puts the answer together.
pub fn answer(store: &mut Store, call: &Call, body: &Json, now: i64) -> (r: Result<
    Answer,
    Failure,
>)
    requires
        old(store).wf(),
    ensures
        match r {
            Ok(a) => final(store).wf() && answers(
                a,
                old(store)@,
                final(store)@,
                call@,
                body@,
                now as int,
            ),
            Err(f) => f is Store,
        },
        call@.action == "register"@ || refused_early(call@.action, body@) ==> r is Ok,
{
    let missed_caller = store.touch(call.agent.as_str());
    match dispatch(store, call.action.as_str(), call.agent.as_str(), body, now) {
        Ok(reply) => Ok(
            Answer {
                code: 200,
                body: reply.body,
                wake: wakeful(call.action.as_str()),
                missed_caller,
                missed_target: reply.missed,
            },
        ),
        Err(Failure::Refused(e)) => Ok(refusal(e.code, e.msg.as_str(), missed_caller)),
        Err(Failure::Store(e)) => Err(Failure::Store(e)),
    }
}

/// What the server does with a request: it answers, or opens a stream.
#[derive(Debug)]
pub enum Reaction {
    Reply(Answer),
    Stream { call: Call, body: Json },
}

/// What comes of a request that bears the token: one that is malformed is refused and changes
/// nothing, one for a stream opens it, and any other one is carried out. A failed statement cuts
/// off only requests that need one.
pub open spec fn reacted(
    r: Result<Reaction, Failure>,
    before: Store,
    after: Store,
    url: Seq<char>,
    d: JsonData,
    now: int,
) -> bool {
    match (call_of(url, d), r) {
        (Err(e), Ok(Reaction::Reply(a))) => after == before && refuses(a, e.code, e.msg)
            && a.missed_caller is None && a.missed_target is None,
        (Ok(c), Ok(Reaction::Stream { call, body })) => c.action == "stream"@ && call@ == c
            && body@ == d && after == before,
        (Ok(c), Ok(Reaction::Reply(a))) => c.action != "stream"@ && after.wf() && answers(
            a,
            before@,
            after@,
            c,
            d,
            now,
        ),
        (Ok(c), Err(f)) => c.action != "stream"@ && f is Store && c.action != "register"@
            && !refused_early(c.action, d),
        _ => false,
    }
}

/// Reacts to a request that bears the token and whose body was parsed.
pub fn react(store: &mut Store, url: &str, body: Json, now: i64) -> (r: Result<Reaction, Failure>)
    requires
        old(store).wf(),
    ensures
        reacted(r, *old(store), *final(store), url@, body@, now as int),
{
    let call = match read_call(url, &body) {
        Ok(call) => call,
        Err(e) => return Ok(Reaction::Reply(refusal(e.code, e.msg.as_str(), None))),
    };
    if same(call.action.as_str(), "stream") {
        return Ok(Reaction::Stream { call, body });
    }
    match answer(store, &call, &body, now) {
        Ok(a) => Ok(Reaction::Reply(a)),
        Err(f) => Err(f),
    }
}

/// What comes of a request: one that does not bear the token is refused, whatever it asks for, and
/// changes nothing.
pub open spec fn responded(
    r: Result<Reaction, Failure>,
    before: Store,
    after: Store,
    borne: bool,
    url: Seq<char>,
    text: Seq<char>,
    now: int,
) -> bool {
    if borne {
        reacted(r, before, after, url, body_data(text), now)
    } else {
        after == before && (r matches Ok(Reaction::Reply(a)) && refuses(a, 401, "unauthorized"@)
            && a.missed_caller is None && a.missed_target is None)
    }
}

/// Reacts to a request. One that does not bear the mission's token is refused, whatever it
/// asks for: it changes nothing, opens no stream and wakes nobody.
pub fn respond(
    store: &mut Store,
    headers: &[HeaderLine],
    token: &str,
    url: &str,
    text: &str,
    now: i64,
) -> (r: Result<Reaction, Failure>)
    requires
        old(store).wf(),
    ensures
        responded(
            r,
            *old(store),
            *final(store),
            bears_token(headers@, token@),
            url@,
            text@,
            now as int,
        ),
{
    if !authorized(headers, token) {
        return Ok(Reaction::Reply(refusal(401, "unauthorized", None)));
    }
    react(store, url, parse_body(text), now)
}

} // verus!
