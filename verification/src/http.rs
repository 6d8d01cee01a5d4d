//! The client's HTTP/1.1: the texts of its requests, and what it reads off a response.

use crate::json::{
    json_parse, json_pretty, object, parse, pretty, text as json_string, text_field, Json, JsonData,
};
use crate::number::{decimal, decimal_u64, parse_unsigned, unsigned_value};
use crate::sse::{lossy, lossy_text};
use crate::text::{
    chars_of, concat3, copy, find_char, first_of, is_white, opt_text, strip, strip_prefix,
    text_range, trim, trim_end_char, trim_start_set, trimmed, white, whites, without_trailing,
};
use vstd::prelude::*;
use vstd::utf8::encode_utf8;

verus! {

/// Where the server is: its host and port, and the path that its actions stand under.
#[derive(Debug, PartialEq, Eq)]
pub struct Target {
    pub hostport: String,
    pub base_path: String,
}

/// Where the server is, as data.
pub struct TargetData {
    pub hostport: Seq<char>,
    pub base_path: Seq<char>,
}

impl View for Target {
    type V = TargetData;

    open spec fn view(&self) -> TargetData {
        TargetData { hostport: self.hostport@, base_path: self.base_path@ }
    }
}

/// Where a base URL points: it has to begin with `http://`.
pub open spec fn target_of(base: Seq<char>) -> Option<TargetData> {
    match strip(without_trailing(trimmed(base), '/'), "http://"@) {
        Some(rest) => {
            let i = first_of(rest, '/');
            Some(TargetData { hostport: rest.take(i), base_path: rest.skip(i) })
        },
        None => None,
    }
}

/// Takes a base URL apart; `None` where it does not begin with `http://`.
pub fn target(base: &str) -> (r: Option<Target>)
    ensures
        match r {
            Some(t) => target_of(base@) == Some(t@),
            None => target_of(base@) is None,
        },
{
    let shown = trim_end_char(trim(base).as_str(), '/');
    match strip_prefix(shown.as_str(), "http://") {
        Some(rest) => {
            let cs = chars_of(rest.as_str());
            let i: usize = find_char(cs.as_slice(), '/');
            let hostport = text_range(cs.as_slice(), 0, i);
            let base_path = text_range(cs.as_slice(), i, cs.len());
            proof {
                assert(hostport@ =~= rest@.take(i as int));
                assert(base_path@ =~= rest@.skip(i as int));
            }
            Some(Target { hostport, base_path })
        },
        None => None,
    }
}

/// The path of an action.
pub open spec fn action_path(t: TargetData, action: Seq<char>) -> Seq<char> {
    without_trailing(t.base_path, '/') + "/"@ + action
}

/// The head of a request up to its `Connection` header.
pub open spec fn request_head(
    t: TargetData,
    token: Seq<char>,
    action: Seq<char>,
    body: Seq<char>,
) -> Seq<char> {
    "POST "@ + action_path(t, action) + " HTTP/1.1\r\nHost: "@ + t.hostport
        + "\r\nAuthorization: Bearer "@ + token
        + "\r\nContent-Type: application/json\r\nContent-Length: "@ + decimal(
        encode_utf8(body).len() as int,
    ) + "\r\nConnection: "@
}

/// The head of a request up to its `Connection` header.
fn head(t: &Target, token: &str, action: &str, body: &str) -> (r: String)
    ensures
        r@ == request_head(t@, token@, action@, body@),
{
    let mut s = copy("POST ");
    let path = concat3(trim_end_char(t.base_path.as_str(), '/').as_str(), "/", action);
    s.append(path.as_str());
    s.append(" HTTP/1.1\r\nHost: ");
    s.append(t.hostport.as_str());
    s.append("\r\nAuthorization: Bearer ");
    s.append(token);
    s.append("\r\nContent-Type: application/json\r\nContent-Length: ");
    s.append(decimal_u64(body.as_bytes().len() as u64).as_str());
    s.append("\r\nConnection: ");
    s
}

/// A request that is answered once.
pub open spec fn post_text(
    t: TargetData,
    token: Seq<char>,
    action: Seq<char>,
    body: Seq<char>,
) -> Seq<char> {
    request_head(t, token, action, body) + "close\r\n\r\n"@ + body
}

/// The text of a request that is answered once.
pub fn post_request(t: &Target, token: &str, action: &str, body: &str) -> (r: String)
    ensures
        r@ == post_text(t@, token@, action@, body@),
{
    let mut s = head(t, token, action, body);
    s.append("close\r\n\r\n");
    s.append(body);
    s
}

/// A request that opens a stream; `since` says where to resume.
pub open spec fn stream_text(
    t: TargetData,
    token: Seq<char>,
    body: Seq<char>,
    since: Option<Seq<char>>,
) -> Seq<char> {
    request_head(t, token, "stream"@, body) + "keep-alive\r\n"@ + (match since {
        Some(id) => "Last-Event-ID: "@ + id + "\r\n"@,
        None => Seq::empty(),
    }) + "\r\n"@ + body
}

/// The text of a request that opens a stream.
pub fn stream_request(t: &Target, token: &str, body: &str, since: &Option<String>) -> (r: String)
    ensures
        r@ == stream_text(t@, token@, body@, opt_text(*since)),
{
    let mut s = head(t, token, "stream", body);
    s.append("keep-alive\r\n");
    match since {
        Some(id) => {
            s.append(concat3("Last-Event-ID: ", id.as_str(), "\r\n").as_str());
        },
        None => {
            proof {
                assert(s@ + Seq::<char>::empty() =~= s@);
            }
        },
    }
    s.append("\r\n");
    s.append(body);
    s
}

/// How many characters stand before the first white space.
pub open spec fn word_len(s: Seq<char>) -> int
    decreases s.len(),
{
    if s.len() == 0 || is_white(s[0]) {
        0
    } else {
        1 + word_len(s.skip(1))
    }
}

/// The second word of a text; empty where there are fewer.
pub open spec fn second_word(s: Seq<char>) -> Seq<char> {
    let a = trim_start_set(s, whites());
    let b = trim_start_set(a.skip(word_len(a)), whites());
    b.take(word_len(b))
}

/// The status code of a response: its second word.
pub open spec fn status_of(response: Seq<char>) -> Option<int> {
    unsigned_value(second_word(response), 10, u16::MAX as int)
}

/// The first position from `from` on that is, or is not, white space.
fn scan(cs: &[char], from: usize, stop_at_white: bool) -> (r: usize)
    requires
        from <= cs@.len(),
    ensures
        from <= r <= cs@.len(),
        stop_at_white ==> r - from == word_len(cs@.skip(from as int)),
        !stop_at_white ==> cs@.skip(r as int) == trim_start_set(cs@.skip(from as int), whites()),
{
    let mut i: usize = from;
    while i < cs.len() && white(cs[i]) != stop_at_white
        invariant
            from <= i <= cs@.len(),
            stop_at_white ==> word_len(cs@.skip(from as int)) == i - from + word_len(
                cs@.skip(i as int),
            ),
            !stop_at_white ==> trim_start_set(cs@.skip(from as int), whites()) == trim_start_set(
                cs@.skip(i as int),
                whites(),
            ),
        decreases cs@.len() - i,
    {
        proof {
            assert(cs@.skip(i as int)[0] == cs@[i as int]);
            assert(cs@.skip(i as int).skip(1) =~= cs@.skip(i + 1));
        }
        i += 1;
    }
    proof {
        if i < cs@.len() {
            assert(cs@.skip(i as int)[0] == cs@[i as int]);
        }
    }
    i
}

/// The status code of a response.
pub fn status_code(response: &str) -> (r: Option<u16>)
    ensures
        match r {
            Some(n) => status_of(response@) == Some(n as int),
            None => status_of(response@) is None,
        },
{
    let cs = chars_of(response);
    proof {
        assert(cs@.skip(0) =~= cs@);
    }
    let a: usize = scan(cs.as_slice(), 0, false);
    let b: usize = scan(cs.as_slice(), a, true);
    let c: usize = scan(cs.as_slice(), b, false);
    let d: usize = scan(cs.as_slice(), c, true);
    let word = text_range(cs.as_slice(), c, d);
    proof {
        assert(cs@.skip(a as int).skip(b - a) =~= cs@.skip(b as int));
        assert(word@ =~= cs@.skip(c as int).take(d - c));
    }
    match parse_unsigned(word.as_str(), 10, 65535) {
        Some(n) => {
            proof {
                assert(unsigned_value(word@, 10, 65535) == Some(n as int));
                assert(n <= 65535);
            }
            Some(n as u16)
        },
        None => None,
    }
}

/// The status code in a response's head.
pub fn head_status(bytes: &[u8]) -> (r: Option<u16>)
    ensures
        match r {
            Some(n) => status_of(lossy(bytes@)) == Some(n as int),
            None => status_of(lossy(bytes@)) is None,
        },
{
    status_code(lossy_text(bytes).as_str())
}

/// Whether the bytes read so far end with the empty line behind a response's head.
pub fn head_complete(bytes: &[u8]) -> (r: bool)
    ensures
        r == (bytes@.len() >= 4 && bytes@.skip(bytes@.len() - 4) == seq![13u8, 10u8, 13u8, 10u8]),
{
    let n: usize = bytes.len();
    if n < 4 {
        return false;
    }
    let r = bytes[n - 4] == 13 && bytes[n - 3] == 10 && bytes[n - 2] == 13 && bytes[n - 1] == 10;
    proof {
        let tail = bytes@.skip(n - 4);
        let want = seq![13u8, 10u8, 13u8, 10u8];
        assert(tail[0] == bytes@[n - 4] && tail[1] == bytes@[n - 3]);
        assert(tail[2] == bytes@[n - 2] && tail[3] == bytes@[n - 1]);
        assert(want[0] == 13u8 && want[1] == 10u8 && want[2] == 13u8 && want[3] == 10u8);
        if r {
            assert(tail =~= want);
        }
    }
    r
}

/// What follows the first empty line.
pub open spec fn after_head(s: Seq<char>) -> Seq<char>
    decreases s.len(),
{
    if s.len() < 4 {
        Seq::empty()
    } else if s[0] == '\r' && s[1] == '\n' && s[2] == '\r' && s[3] == '\n' {
        s.skip(4)
    } else {
        after_head(s.skip(1))
    }
}

/// The body of a response.
pub fn response_body(response: &str) -> (r: String)
    ensures
        r@ == after_head(response@),
{
    let cs = chars_of(response);
    let n: usize = cs.len();
    let mut i: usize = 0;
    proof {
        assert(cs@.skip(0) =~= cs@);
    }
    while n - i >= 4
        invariant
            n == cs@.len(),
            i <= n,
            cs@ == response@,
            after_head(response@) == after_head(cs@.skip(i as int)),
        decreases n - i,
    {
        proof {
            let here = cs@.skip(i as int);
            assert(here[0] == cs@[i as int] && here[1] == cs@[i + 1] && here[2] == cs@[i + 2]
                && here[3] == cs@[i + 3]);
            assert(here.skip(1) =~= cs@.skip(i + 1));
            assert(here.skip(4) =~= cs@.subrange(i + 4, n as int));
        }
        if cs[i] == '\r' && cs[i + 1] == '\n' && cs[i + 2] == '\r' && cs[i + 3] == '\n' {
            return text_range(cs.as_slice(), i + 4, n);
        }
        i += 1;
    }
    String::new()
}

/// Why the server refused, as far as an answer's data says.
pub open spec fn detail_of(d: Option<JsonData>) -> Seq<char> {
    match d {
        Some(d) => match text_field(d, "error"@) {
            Some(e) => e,
            None => "(no detail)"@,
        },
        None => "(no detail)"@,
    }
}

/// Why the server refused, as far as a parsed answer says.
pub fn detail(answer: &Option<Json>) -> (r: String)
    ensures
        r@ == detail_of(match *answer {
            Some(j) => Some(j@),
            None => None,
        }),
{
    if let Some(j) = answer {
        if let Some(e) = j.get_text("error") {
            return e;
        }
    }
    copy("(no detail)")
}

/// Why the server refused, as far as the body of its answer says.
pub fn error_detail(body: &str) -> (r: String)
    ensures
        r@ == detail_of(json_parse(body@)),
{
    detail(&parse(body))
}

/// What a client shows of an answer: the document, or the error that a failed command ends
/// with.
pub open spec fn shown(cmd: Seq<char>, code: int, doc: JsonData) -> Result<Seq<char>, Seq<char>> {
    if code == 200 {
        Ok(json_pretty(doc))
    } else {
        Err(cmd + ": "@ + decimal(code) + " "@ + detail_of(Some(doc)))
    }
}

/// The document of an answer; a body that is not JSON is shown as it is.
pub open spec fn document(body: Seq<char>) -> JsonData {
    match json_parse(body) {
        Some(d) => d,
        None => JsonData::Object(map!["raw"@ => JsonData::Text(body)]),
    }
}

/// What a client shows of a parsed answer.
pub fn show(cmd: &str, code: u16, doc: Json) -> (r: Result<String, String>)
    ensures
        match r {
            Ok(s) => shown(cmd@, code as int, doc@) == Ok::<Seq<char>, Seq<char>>(s@),
            Err(e) => shown(cmd@, code as int, doc@) == Err::<Seq<char>, Seq<char>>(e@),
        },
{
    if code == 200 {
        return Ok(pretty(&doc));
    }
    let mut msg = concat3(cmd, ": ", decimal_u64(code as u64).as_str());
    msg.append(" ");
    msg.append(detail(&Some(doc)).as_str());
    Err(msg)
}

/// What a client shows of an answer.
pub fn show_answer(cmd: &str, code: u16, body: &str) -> (r: Result<String, String>)
    ensures
        match r {
            Ok(s) => shown(cmd@, code as int, document(body@)) == Ok::<Seq<char>, Seq<char>>(s@),
            Err(e) => shown(cmd@, code as int, document(body@)) == Err::<Seq<char>, Seq<char>>(e@),
        },
{
    let doc = match parse(body) {
        Some(j) => j,
        None => object().with("raw", json_string(body)),
    };
    show(cmd, code, doc)
}

} // verus!
