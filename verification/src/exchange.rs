//! What client and server say to each other over HTTP: where a request goes, what its head holds,
//! who may ask, and what comes back to the user.

use crate::http::{
    action_path, after_head, detail_of, document, post_text, shown, status_of, stream_text,
    target_of, word_len, TargetData,
};
use crate::json::{json_parse, json_pretty, text_field, JsonData};
use crate::names::lemma_names;
use crate::number::{decimal, lemma_decimal_chars, lemma_unsigned_roundtrip};
use crate::ops::{outcome, Outcome};
use crate::requests::{given, holds, keys_of, lacks};
use crate::server::{
    answers, bears_token, body_data, call_of, error_json, header_value, lowered, reacted, refuses, responded,
    same_name, Answer, CallData, HeaderLine, Reaction,
};
use crate::store::{Failure, Store};
use crate::tables::{made_known, Tables};
use crate::text::{
    has_prefix, is_white, law_trimmed, lemma_first_of, lemma_trim_end, lemma_trim_start, only, trimmed, whites,
    without_both,
};
use vstd::prelude::*;
use vstd::utf8::encode_utf8;

verus! {

// ---- where a request goes

/// A text that begins and ends with no white space.
pub open spec fn is_trim(s: Seq<char>) -> bool {
    s.len() > 0 && !is_white(s[0]) && !is_white(s[s.len() - 1])
}

proof fn lemma_trim_is_trimmed(s: Seq<char>)
    requires
        is_trim(s),
    ensures
        trimmed(s) == s,
{
    lemma_trim_start(s, whites(), 0);
    assert(s.skip(0) =~= s);
    lemma_trim_end(s, whites(), s.len() as int);
    assert(s.take(s.len() as int) =~= s);
}

/// A base URL is a host, which holds no slash, behind `http://`, and the path behind it, which
/// begins with a slash or is empty. Slashes at its end, and white space around it, do not count.
pub proof fn law_target(host: Seq<char>, path: Seq<char>, before: Seq<char>, behind: Seq<char>)
    requires
        forall|i: int| 0 <= i < before.len() ==> is_white(#[trigger] before[i]),
        forall|i: int| 0 <= i < behind.len() ==> is_white(#[trigger] behind[i]),
        host.len() > 0,
        !host.contains('/'),
        path.len() > 0 ==> path[0] == '/' && path.last() != '/' && !is_white(path.last()),
        path.len() == 0 ==> !is_white(host.last()),
    ensures
        ({
            let base = "http://"@ + host + path;
            &&& target_of(base) matches Some(t) && t.hostport == host && t.base_path == path
            &&& target_of(base.push('/')) matches Some(t) && t.hostport == host && t.base_path
                == path
            &&& target_of(before + base + behind) == target_of(base)
        }),
{
    reveal_strlit("http://");
    let base = "http://"@ + host + path;
    let rest = host + path;
    assert(base.len() > 0 && base[0] == 'h');
    assert(base.last() == (if path.len() > 0 {
        path.last()
    } else {
        host.last()
    }));
    assert(base.last() != '/') by {
        if path.len() == 0 {
            assert(host.contains(host[host.len() - 1]));
        }
    }
    lemma_trim_is_trimmed(base);
    lemma_trim_is_trimmed(base.push('/'));
    law_trimmed(before, base, behind);
    lemma_trim_end(base, only('/'), base.len() as int);
    assert(base.take(base.len() as int) =~= base);
    lemma_trim_end(base.push('/'), only('/'), base.len() as int);
    assert(base.push('/').take(base.len() as int) =~= base);
    assert(base.take("http://"@.len() as int) =~= "http://"@);
    assert(base.skip("http://"@.len() as int) =~= rest);
    assert forall|j: int| 0 <= j < host.len() implies rest[j] != '/' by {
        assert(host.contains(host[j]));
    }
    lemma_first_of(rest, '/', host.len() as int);
    assert(rest.take(host.len() as int) =~= host);
    assert(rest.skip(host.len() as int) =~= path);
}

/// A base URL that begins otherwise than with `http://` points nowhere.
pub proof fn law_only_http(base: Seq<char>)
    requires
        is_trim(base),
        base.last() != '/',
        !has_prefix(base, "http://"@),
    ensures
        target_of(base) is None,
{
    lemma_trim_is_trimmed(base);
    lemma_trim_end(base, only('/'), base.len() as int);
    assert(base.take(base.len() as int) =~= base);
}

/// An action that the client asks for is the action that the server hears, for the agent that the
/// body names.
pub proof fn law_action_is_heard(host: Seq<char>, action: Seq<char>, d: JsonData, agent: Seq<char>)
    requires
        action.len() > 0,
        action[0] != '/',
        action.last() != '/',
        given(d, "agent"@, agent),
    ensures
        call_of(action_path(TargetData { hostport: host, base_path: Seq::empty() }, action), d)
            matches Ok(c) && c.action == action && c.agent == agent,
{
    reveal_strlit("/");
    let none = Seq::<char>::empty();
    lemma_trim_end(none, only('/'), 0);
    assert(none.take(0) =~= none);
    let path = action_path(TargetData { hostport: host, base_path: none }, action);
    assert(path =~= seq!['/'] + action);
    lemma_trim_start(path, only('/'), 1);
    assert(path.skip(1) =~= action);
    lemma_trim_end(action, only('/'), action.len() as int);
    assert(action.take(action.len() as int) =~= action);
}

/// A body that is no object, or names no agent, is refused with 400.
pub proof fn law_agent_is_needed(url: Seq<char>, d: JsonData)
    requires
        lacks(d, "agent"@),
    ensures
        call_of(url, d) matches Err(e) && e.code == 400 && e.msg == (if d is Object {
            "missing 'agent' (set ORBAL_NET_AGENT)"@
        } else {
            "bad JSON body"@
        }),
{
    match text_field(d, "agent"@) {
        Some(s) => {
            if s.len() > 0 {
                assert(given(d, "agent"@, s));
            }
        },
        None => {},
    }
}

/// The body of a request is its JSON; an empty one counts as an empty object, and one that is no
/// JSON as `null`, which no request may be.
pub proof fn law_body(text: Seq<char>)
    ensures
        (forall|i: int| 0 <= i < text.len() ==> is_white(#[trigger] text[i])) ==> body_data(text)
            == JsonData::Object(Map::empty()),
        is_trim(text) ==> {
            &&& json_parse(text) matches Some(d) ==> body_data(text) == d
            &&& json_parse(text) is None ==> body_data(text) == JsonData::Null
        },
{
    if forall|i: int| 0 <= i < text.len() ==> is_white(#[trigger] text[i]) {
        lemma_trim_start(text, whites(), text.len() as int);
        assert(text.skip(text.len() as int) =~= Seq::<char>::empty());
        lemma_trim_end(Seq::empty(), whites(), 0);
    }
    if is_trim(text) {
        lemma_trim_is_trimmed(text);
    }
}

// ---- the text of a request

/// `part` stands somewhere in `s`.
pub open spec fn has_text(s: Seq<char>, part: Seq<char>) -> bool {
    exists|i: int|
        0 <= i && i + part.len() <= s.len() && #[trigger] s.subrange(i, i + part.len()) == part
}

proof fn lemma_has_text(s: Seq<char>, before: Seq<char>, part: Seq<char>, after: Seq<char>)
    requires
        s == before + part + after,
    ensures
        has_text(s, part),
{
    let i = before.len() as int;
    assert(s.subrange(i, i + part.len()) =~= part);
}

/// The two ends of line that end a head.
pub open spec fn blank() -> Seq<char> {
    seq!['\r', '\n', '\r', '\n']
}

/// Two ends of line stand at a position.
pub open spec fn blank_at(s: Seq<char>, i: int) -> bool {
    i + 4 <= s.len() && s.subrange(i, i + 4) == blank()
}

/// What follows the first empty line is the body; without one there is none.
pub proof fn law_body_follows_head(head: Seq<char>, body: Seq<char>)
    requires
        forall|i: int| 0 <= i < head.len() ==> !#[trigger] blank_at(head + blank(), i),
    ensures
        after_head(head + blank() + body) == body,
    decreases head.len(),
{
    let gap = blank();
    let all = head + gap + body;
    if head.len() == 0 {
        assert(all.skip(4) =~= body);
        assert(all[0] == gap[0] && all[1] == gap[1] && all[2] == gap[2] && all[3] == gap[3]);
    } else {
        let tail = head.skip(1);
        let h = head + gap;
        assert(h[0] == all[0] && h[1] == all[1] && h[2] == all[2] && h[3] == all[3]);
        assert(!blank_at(h, 0));
        if all[0] == '\r' && all[1] == '\n' && all[2] == '\r' && all[3] == '\n' {
            assert(h.subrange(0, 4) =~= gap);
        }
        assert(all.skip(1) =~= tail + gap + body);
        assert forall|i: int| 0 <= i < tail.len() implies !#[trigger] blank_at(tail + gap, i) by {
            if blank_at(tail + gap, i) {
                assert((tail + gap).subrange(i, i + 4) =~= h.subrange(i + 1, i + 5));
                assert(blank_at(h, i + 1));
            }
        }
        law_body_follows_head(tail, body);
    }
}

/// What the head of every request holds: it asks for a path by POST, names the host, bears the
/// token, and says how many bytes of JSON follow.
pub open spec fn has_head(s: Seq<char>, path: Seq<char>, t: TargetData, token: Seq<char>, body: Seq<char>) -> bool {
    &&& has_prefix(s, "POST "@ + path + " HTTP/1.1\r\n"@)
    &&& has_text(s, "\r\nHost: "@ + t.hostport + "\r\n"@)
    &&& has_text(s, "\r\nAuthorization: Bearer "@ + token + "\r\n"@)
    &&& has_text(s, "\r\nContent-Type: application/json\r\n"@)
    &&& has_text(s, "\r\nContent-Length: "@ + decimal(encode_utf8(body).len() as int) + "\r\n"@)
}

/// A plain request asks for its action and is to be answered once; behind its head stands the
/// body, and nothing more.
pub proof fn law_plain_request(t: TargetData, token: Seq<char>, action: Seq<char>, body: Seq<char>)
    ensures
        ({
            let s = post_text(t, token, action, body);
            let end = "\r\nConnection: close\r\n\r\n"@ + body;
            &&& has_head(s, action_path(t, action), t, token, body)
            &&& s.len() >= end.len()
            &&& s.skip(s.len() - end.len()) == end
        }),
{
    let s = post_text(t, token, action, body);
    let path = action_path(t, action);
    let size = decimal(encode_utf8(body).len() as int);
    let head = "POST "@ + path + " HTTP/1.1\r\nHost: "@ + t.hostport + "\r\nAuthorization: Bearer "@
        + token + "\r\nContent-Type: application/json\r\nContent-Length: "@ + size;
    let e = "\r\nConnection: "@;
    let x = "close\r\n\r\n"@;
    let tail = e + x + body;
    lemma_ends();
    lemma_regroup2(head, e, x, body);
    lemma_assoc(e, x, body);
    lemma_break_begins(x + body);
    lemma_head_parts(s, path, t.hostport, token, size, tail);
    lemma_end(s, head, tail);
}

/// A request for a stream asks for the action `stream` and keeps the connection. Behind its head
/// stands the body; where to resume, if anywhere, is the last header.
pub proof fn law_stream_request(
    t: TargetData,
    token: Seq<char>,
    body: Seq<char>,
    since: Option<Seq<char>>,
)
    ensures
        ({
            let s = stream_text(t, token, body, since);
            let end = match since {
                Some(id) => "\r\nLast-Event-ID: "@ + id + "\r\n\r\n"@ + body,
                None => "\r\nConnection: keep-alive\r\n\r\n"@ + body,
            };
            &&& has_head(s, action_path(t, "stream"@), t, token, body)
            &&& has_text(s, "\r\nConnection: keep-alive\r\n"@)
            &&& s.len() >= end.len()
            &&& s.skip(s.len() - end.len()) == end
        }),
{
    let s = stream_text(t, token, body, since);
    let path = action_path(t, "stream"@);
    let size = decimal(encode_utf8(body).len() as int);
    let head = "POST "@ + path + " HTTP/1.1\r\nHost: "@ + t.hostport + "\r\nAuthorization: Bearer "@
        + token + "\r\nContent-Type: application/json\r\nContent-Length: "@ + size;
    let e = "\r\nConnection: "@;
    let k = "keep-alive\r\n"@;
    let n = "\r\n"@;
    let l = match since {
        Some(id) => "Last-Event-ID: "@ + id + "\r\n"@,
        None => Seq::empty(),
    };
    let tail = e + k + l + n + body;
    lemma_ends();
    lemma_regroup(head, e, k, l, n, body);
    lemma_regroup(e, k, l, n, body, Seq::empty());
    assert(tail =~= e + (k + l + n + body)) by {
        lemma_assoc(e, k, l);
        lemma_assoc(e, k + l, n);
        lemma_assoc(e, k + l + n, body);
    }
    lemma_break_begins(k + l + n + body);
    lemma_head_parts(s, path, t.hostport, token, size, tail);
    lemma_assoc(head, e, k);
    lemma_regroup2(head + (e + k), l, n, body);
    lemma_has_text(s, head, e + k, l + n + body);
    match since {
        Some(id) => {
            let k1 = "keep-alive"@;
            assert(k =~= k1 + n) by {
                reveal_strlit("keep-alive");
                reveal_strlit("keep-alive\r\n");
                reveal_strlit("\r\n");
            }
            lemma_resume_parts(head + e, k1, n, "Last-Event-ID: "@, id, body);
            lemma_end(
                s,
                head + e + k1,
                "\r\nLast-Event-ID: "@ + id + "\r\n\r\n"@ + body,
            );
        },
        None => {
            assert(e + k + l =~= e + k);
            lemma_assoc(e + k, n, body);
            lemma_end(s, head, tail);
        },
    }
}

/// What stands behind the rest is the end.
proof fn lemma_end(s: Seq<char>, a: Seq<char>, end: Seq<char>)
    requires
        s == a + end,
    ensures
        s.len() >= end.len(),
        s.skip(s.len() - end.len()) == end,
{
    assert(s.skip(s.len() - end.len()) =~= end);
}

proof fn lemma_resume_parts(
    f: Seq<char>,
    k: Seq<char>,
    n: Seq<char>,
    l: Seq<char>,
    v: Seq<char>,
    body: Seq<char>,
)
    ensures
        f + (k + n) + (l + v + n) + n + body == f + k + ((n + l) + v + (n + n) + body),
{
    assert(f + (k + n) + (l + v + n) + n + body =~= f + k + ((n + l) + v + (n + n) + body));
}

/// The last header begins on a line of its own.
proof fn lemma_break_begins(rest: Seq<char>)
    ensures
        has_prefix("\r\nConnection: "@ + rest, "\r\n"@),
{
    lemma_ends();
    lemma_begins("\r\n"@, "Connection: "@, rest);
}

/// How the pieces of a head come apart at the ends of its lines.
proof fn lemma_ends()
    ensures
        " HTTP/1.1\r\nHost: "@ == " HTTP/1.1\r\n"@ + "Host: "@,
        " HTTP/1.1\r\nHost: "@ == " HTTP/1.1"@ + "\r\nHost: "@,
        "\r\nAuthorization: Bearer "@ == "\r\n"@ + "Authorization: Bearer "@,
        "\r\nContent-Type: application/json\r\nContent-Length: "@
            == "\r\nContent-Type: application/json\r\n"@ + "Content-Length: "@,
        "\r\nContent-Type: application/json\r\nContent-Length: "@
            == "\r\nContent-Type: application/json"@ + "\r\nContent-Length: "@,
        "\r\nContent-Type: application/json"@ == "\r\n"@ + "Content-Type: application/json"@,
        "\r\nConnection: "@ == "\r\n"@ + "Connection: "@,
        "\r\nConnection: close\r\n\r\n"@ == "\r\nConnection: "@ + "close\r\n\r\n"@,
        "\r\nConnection: keep-alive\r\n"@ == "\r\nConnection: "@ + "keep-alive\r\n"@,
        "\r\nConnection: keep-alive\r\n"@ == "\r\nConnection: keep-alive"@ + "\r\n"@,
        "\r\nConnection: keep-alive\r\n\r\n"@ == "\r\nConnection: keep-alive\r\n"@ + "\r\n"@,
        "\r\nLast-Event-ID: "@ == "\r\n"@ + "Last-Event-ID: "@,
        "\r\n\r\n"@ == "\r\n"@ + "\r\n"@,
{
    reveal_strlit(" HTTP/1.1\r\nHost: ");
    reveal_strlit(" HTTP/1.1\r\n");
    reveal_strlit(" HTTP/1.1");
    reveal_strlit("Host: ");
    reveal_strlit("\r\nHost: ");
    reveal_strlit("\r\nAuthorization: Bearer ");
    reveal_strlit("\r\n");
    reveal_strlit("Authorization: Bearer ");
    reveal_strlit("\r\nContent-Type: application/json\r\nContent-Length: ");
    reveal_strlit("\r\nContent-Type: application/json\r\n");
    reveal_strlit("\r\nContent-Type: application/json");
    reveal_strlit("Content-Type: application/json");
    reveal_strlit("Content-Length: ");
    reveal_strlit("\r\nContent-Length: ");
    reveal_strlit("\r\nConnection: ");
    reveal_strlit("Connection: ");
    reveal_strlit("\r\nConnection: close\r\n\r\n");
    reveal_strlit("close\r\n\r\n");
    reveal_strlit("\r\nConnection: keep-alive\r\n");
    reveal_strlit("\r\nConnection: keep-alive");
    reveal_strlit("keep-alive\r\n");
    reveal_strlit("\r\nConnection: keep-alive\r\n\r\n");
    reveal_strlit("\r\nLast-Event-ID: ");
    reveal_strlit("Last-Event-ID: ");
    reveal_strlit("\r\n\r\n");
    assert(" HTTP/1.1\r\nHost: "@ =~= " HTTP/1.1\r\n"@ + "Host: "@);
    assert(" HTTP/1.1\r\nHost: "@ =~= " HTTP/1.1"@ + "\r\nHost: "@);
    assert("\r\nAuthorization: Bearer "@ =~= "\r\n"@ + "Authorization: Bearer "@);
    assert("\r\nContent-Type: application/json\r\nContent-Length: "@
        =~= "\r\nContent-Type: application/json\r\n"@ + "Content-Length: "@);
    assert("\r\nContent-Type: application/json\r\nContent-Length: "@
        =~= "\r\nContent-Type: application/json"@ + "\r\nContent-Length: "@);
    assert("\r\nContent-Type: application/json"@ =~= "\r\n"@ + "Content-Type: application/json"@);
    assert("\r\nConnection: "@ =~= "\r\n"@ + "Connection: "@);
    assert("\r\nConnection: close\r\n\r\n"@ =~= "\r\nConnection: "@ + "close\r\n\r\n"@);
    assert("\r\nConnection: keep-alive\r\n"@ =~= "\r\nConnection: "@ + "keep-alive\r\n"@);
    assert("\r\nConnection: keep-alive\r\n"@ =~= "\r\nConnection: keep-alive"@ + "\r\n"@);
    assert("\r\nConnection: keep-alive\r\n\r\n"@ =~= "\r\nConnection: keep-alive\r\n"@
        + "\r\n"@);
    assert("\r\nLast-Event-ID: "@ =~= "\r\n"@ + "Last-Event-ID: "@);
    assert("\r\n\r\n"@ =~= "\r\n"@ + "\r\n"@);
}

/// What every head holds.
proof fn lemma_head_parts(
    s: Seq<char>,
    path: Seq<char>,
    host: Seq<char>,
    token: Seq<char>,
    size: Seq<char>,
    tail: Seq<char>,
)
    requires
        s == "POST "@ + path + " HTTP/1.1\r\nHost: "@ + host + "\r\nAuthorization: Bearer "@ + token
            + "\r\nContent-Type: application/json\r\nContent-Length: "@ + size + tail,
        has_prefix(tail, "\r\n"@),
    ensures
        has_prefix(s, "POST "@ + path + " HTTP/1.1\r\n"@),
        has_text(s, "\r\nHost: "@ + host + "\r\n"@),
        has_text(s, "\r\nAuthorization: Bearer "@ + token + "\r\n"@),
        has_text(s, "\r\nContent-Type: application/json\r\n"@),
        has_text(s, "\r\nContent-Length: "@ + size + "\r\n"@),
{
    lemma_ends();
    let n = "\r\n"@;
    let a = "POST "@ + path;
    let b = " HTTP/1.1\r\nHost: "@;
    let c = "\r\nAuthorization: Bearer "@;
    let d = "\r\nContent-Type: application/json\r\nContent-Length: "@;
    lemma_regroup(a + b + host, c, token, d, size, tail);
    let y = c + token + d + size + tail;
    assert(has_prefix(c, n)) by {
        assert(c.take(n.len() as int) =~= n);
    }
    assert(has_prefix(d, n)) by {
        let k = "\r\nContent-Type: application/json"@;
        assert(k.take(n.len() as int) =~= n);
        lemma_prefix_grows(k, "\r\nContent-Length: "@, n);
    }
    lemma_prefix_grows(c, token, n);
    lemma_prefix_grows(c + token, d, n);
    lemma_prefix_grows(c + token + d, size, n);
    lemma_prefix_grows(c + token + d + size, tail, n);
    lemma_middle(s, a, " HTTP/1.1"@, "\r\nHost: "@, host, y, n);
    assert(s == a + b + (host + y)) by {
        lemma_assoc(a + b, host, y);
    }
    assert(a + b == a + " HTTP/1.1\r\n"@ + "Host: "@) by {
        lemma_assoc(a, " HTTP/1.1\r\n"@, "Host: "@);
    }
    lemma_begins(a + " HTTP/1.1\r\n"@, "Host: "@, host + y);
    let e = a + b + host;
    let z = d + size + tail;
    lemma_prefix_grows(d, size, n);
    lemma_prefix_grows(d + size, tail, n);
    assert(s == e + c + token + z) by {
        lemma_regroup2(e + c + token, d, size, tail);
    }
    let none = Seq::<char>::empty();
    assert(none + c =~= c);
    lemma_middle(s, e, none, c, token, z, n);
    let f = e + c + token;
    lemma_assoc(f + d, size, tail);
    lemma_middle(
        s,
        f,
        "\r\nContent-Type: application/json"@,
        "\r\nContent-Length: "@,
        size,
        tail,
        n,
    );
    let g = "\r\nContent-Type: application/json\r\n"@;
    assert(s == f + g + ("Content-Length: "@ + (size + tail))) by {
        lemma_assoc(f, g, "Content-Length: "@);
        lemma_assoc(f + g, "Content-Length: "@, size + tail);
    }
    lemma_has_text(s, f, g, "Content-Length: "@ + (size + tail));
}

proof fn lemma_assoc(a: Seq<char>, b: Seq<char>, c: Seq<char>)
    ensures
        a + b + c == a + (b + c),
{
    assert(a + b + c =~= a + (b + c));
}

proof fn lemma_regroup2(f: Seq<char>, d: Seq<char>, z: Seq<char>, tail: Seq<char>)
    ensures
        f + d + z + tail == f + (d + z + tail),
{
    lemma_assoc(f, d, z);
    lemma_assoc(f, d + z, tail);
}

proof fn lemma_regroup(
    f: Seq<char>,
    c: Seq<char>,
    t: Seq<char>,
    d: Seq<char>,
    z: Seq<char>,
    tail: Seq<char>,
)
    ensures
        f + c + t + d + z + tail == f + (c + t + d + z + tail),
{
    lemma_assoc(f, c, t);
    lemma_assoc(f, c + t, d);
    lemma_assoc(f, c + t + d, z);
    lemma_assoc(f, c + t + d + z, tail);
}

/// What begins with a text still does with more behind it.
proof fn lemma_prefix_grows(a: Seq<char>, b: Seq<char>, n: Seq<char>)
    requires
        has_prefix(a, n),
    ensures
        has_prefix(a + b, n),
{
    assert((a + b).take(n.len() as int) =~= a.take(n.len() as int));
}

proof fn lemma_begins(a: Seq<char>, b: Seq<char>, c: Seq<char>)
    ensures
        has_prefix(a + b + c, a),
{
    assert((a + b + c).take(a.len() as int) =~= a);
}

/// A piece between two others, with the end of its line.
proof fn lemma_middle(
    s: Seq<char>,
    x: Seq<char>,
    p: Seq<char>,
    q: Seq<char>,
    v: Seq<char>,
    y: Seq<char>,
    n: Seq<char>,
)
    requires
        s == x + (p + q) + v + y,
        has_prefix(y, n),
    ensures
        has_text(s, q + v + n),
{
    let last = y.skip(n.len() as int);
    assert(y =~= n + last);
    assert(s =~= (x + p) + (q + v + n) + last);
    lemma_has_text(s, x + p, q + v + n, last);
}

// ---- who may ask

/// Header names are compared letter by letter, but for the case of ASCII letters.
pub proof fn law_header_names(a: Seq<char>, b: Seq<char>)
    ensures
        same_name(a, b) <==> a.len() == b.len() && forall|i: int|
            0 <= i < a.len() ==> {
                let x = #[trigger] a[i];
                let y = b[i];
                ||| x == y
                ||| 'A' <= x <= 'Z' && y as int == x as int + 32
                ||| 'A' <= y <= 'Z' && x as int == y as int + 32
            },
{
    if a.len() == b.len() {
        assert forall|i: int| 0 <= i < a.len() implies {
            let x = #[trigger] a[i];
            let y = b[i];
            lowered(x) == lowered(y) <==> ({
                ||| x == y
                ||| 'A' <= x <= 'Z' && y as int == x as int + 32
                ||| 'A' <= y <= 'Z' && x as int == y as int + 32
            })
        } by {
            lemma_lowered(a[i], b[i]);
        }
        if same_name(a, b) {
            assert forall|i: int| 0 <= i < a.len() implies {
                let x = #[trigger] a[i];
                let y = b[i];
                ||| x == y
                ||| 'A' <= x <= 'Z' && y as int == x as int + 32
                ||| 'A' <= y <= 'Z' && x as int == y as int + 32
            } by {
                assert(lowered(a[i]) == lowered(b[i]));
            }
        }
    }
}

proof fn lemma_lowered(x: char, y: char)
    ensures
        lowered(x) == lowered(y) <==> ({
            ||| x == y
            ||| 'A' <= x <= 'Z' && y as int == x as int + 32
            ||| 'A' <= y <= 'Z' && x as int == y as int + 32
        }),
{
    if 'A' <= x <= 'Z' {
        assert(lowered(x) as int == x as int + 32);
    }
    if 'A' <= y <= 'Z' {
        assert(lowered(y) as int == y as int + 32);
    }
}

/// A request that bears one token bears no other one, and one without an `Authorization` header
/// bears none. More headers take nothing away from a request that bears it.
pub proof fn law_token_is_needed(
    headers: Seq<HeaderLine>,
    more: HeaderLine,
    token: Seq<char>,
    other: Seq<char>,
)
    ensures
        headers.len() == 1 && bears_token(headers, token) && bears_token(headers, other) ==> token
            == other,
        (forall|i: int|
            0 <= i < headers.len() ==> !same_name((#[trigger] headers[i]).name@, "Authorization"@))
            ==> !bears_token(headers, token),
        bears_token(headers, token) ==> bears_token(headers.push(more), token),
        same_name(more.name@, "Authorization"@) && more.value@ == "Bearer "@ + token ==> bears_token(
            headers.push(more),
            token,
        ),
        !bears_token(headers, token) && more.value@ != "Bearer "@ + token ==> !bears_token(
            headers.push(more),
            token,
        ),
{
    if bears_token(headers, token) {
        let i = choose|i: int|
            0 <= i < headers.len() && same_name((#[trigger] headers[i]).name@, "Authorization"@)
                && headers[i].value@ == "Bearer "@ + token;
        assert(headers.push(more)[i] == headers[i]);
        if headers.len() == 1 && bears_token(headers, other) {
            let n = "Bearer "@.len() as int;
            assert(("Bearer "@ + token).skip(n) =~= token);
            assert(("Bearer "@ + other).skip(n) =~= other);
            assert(headers[0].value@ == "Bearer "@ + token);
            let j = choose|j: int|
                0 <= j < headers.len() && same_name((#[trigger] headers[j]).name@, "Authorization"@)
                    && headers[j].value@ == "Bearer "@ + other;
            assert(j == 0);
        }
    }
    assert(headers.push(more)[headers.len() as int] == more);
    if bears_token(headers.push(more), token) {
        let i = choose|i: int|
            0 <= i < headers.push(more).len() && same_name(
                (#[trigger] headers.push(more)[i]).name@,
                "Authorization"@,
            ) && headers.push(more)[i].value@ == "Bearer "@ + token;
        if i < headers.len() {
            assert(headers[i] == headers.push(more)[i]);
        }
    }
}

/// The value of a header is that of the first line with its name.
pub proof fn law_first_header_counts(headers: Seq<HeaderLine>, name: Seq<char>, i: int)
    requires
        0 <= i <= headers.len(),
        forall|j: int| 0 <= j < i ==> !same_name((#[trigger] headers[j]).name@, name),
    ensures
        i == headers.len() ==> header_value(headers, name) is None,
        i < headers.len() && same_name(headers[i].name@, name) ==> header_value(headers, name)
            == Some(headers[i].value@),
    decreases headers.len(),
{
    if i > 0 {
        let tail = headers.skip(1);
        assert(!same_name(headers[0].name@, name));
        assert forall|j: int| 0 <= j < i - 1 implies !same_name((#[trigger] tail[j]).name@, name) by {
            assert(tail[j] == headers[j + 1]);
        }
        law_first_header_counts(tail, name, i - 1);
    }
}

// ---- what comes back

/// A refusal reaches the user: the reason that the server gave stands in what the client tells,
/// behind the command and the status code. Any other answer than 200 is an error.
pub proof fn law_refusal_reaches_user(
    a: Answer,
    cmd: Seq<char>,
    code: int,
    msg: Seq<char>,
    doc: JsonData,
)
    ensures
        refuses(a, code, msg) ==> a.code == code && !a.wake && holds(
            a.body@,
            "error"@,
            JsonData::Text(msg),
        ) && keys_of(a.body@) == set!["error"@],
        refuses(a, code, msg) && code != 200 ==> shown(cmd, code, a.body@) == Err::<
            Seq<char>,
            Seq<char>,
        >(cmd + ": "@ + decimal(code) + " "@ + msg),
        detail_of(Some(error_json(msg))) == msg,
        detail_of(None) == "(no detail)"@,
        text_field(doc, "error"@) is None ==> detail_of(Some(doc)) == "(no detail)"@,
        shown(cmd, 200, doc) == Ok::<Seq<char>, Seq<char>>(json_pretty(doc)),
        code != 200 ==> shown(cmd, code, doc) is Err,
{
    lemma_names();
    assert(keys_of(error_json(msg)) =~= set!["error"@]);
}

/// The document of an answer is its JSON; a body that is none is shown as it is.
pub proof fn law_document(body: Seq<char>)
    ensures
        json_parse(body) matches Some(d) ==> document(body) == d,
        json_parse(body) is None ==> holds(document(body), "raw"@, JsonData::Text(body))
            && keys_of(document(body)) == set!["raw"@],
{
    lemma_names();
    if json_parse(body) is None {
        assert(keys_of(document(body)) =~= set!["raw"@]);
    }
}

/// What is carried out is answered with 200 and the reply, and what is refused with the code and
/// the reason of the refusal, and changes nothing but that its caller becomes known. Only what
/// changes messages, events, agents, rooms or members wakes streams.
pub proof fn law_answers(
    a: Answer,
    before: Tables,
    after: Tables,
    call: CallData,
    b: JsonData,
    now: int,
)
    requires
        answers(a, before, after, call, b, now),
    ensures
        ({
            let t = made_known(before, call.agent, a.missed_caller is None);
            let o = outcome(t, call.action, call.agent, b, now, a.missed_target is None);
            &&& o matches Outcome::Done { tables, reply } ==> a.code == 200 && a.body@ == reply
                && after == tables
            &&& o matches Outcome::Refused(e) ==> a.code == e.code && holds(
                a.body@,
                "error"@,
                JsonData::Text(e.msg),
            ) && !a.wake && after == (Tables { agents: after.agents, ..before })
            &&& a.missed_caller is None ==> t.agents.contains_key(call.agent) && (
            before.agents.contains_key(call.agent) ==> t == before) && (
            !before.agents.contains_key(call.agent) ==> t.agents[call.agent] == "active"@)
            &&& a.missed_caller is Some ==> t == before
            &&& t == (Tables { agents: t.agents, ..before })
            &&& forall|x: Seq<char>|
                x != call.agent ==> #[trigger] t.agents.contains_key(x)
                    == before.agents.contains_key(x)
            &&& a.wake ==> !(call.action == "register"@ || call.action == "whoami"@ || call.action
                == "agents"@ || call.action == "rooms"@ || call.action == "read"@ || call.action
                == "peek"@ || call.action == "inbox"@ || call.action == "events"@)
        }),
{
    lemma_names();
}

/// A request that names an agent and asks for the action `stream` opens a stream with that body,
/// and changes nothing. One that names none is refused with 400, and changes nothing. Any other
/// one is answered.
pub proof fn law_reacted(
    r: Result<Reaction, Failure>,
    before: Store,
    after: Store,
    url: Seq<char>,
    d: JsonData,
    now: int,
    agent: Seq<char>,
)
    requires
        reacted(r, before, after, url, d, now),
    ensures
        lacks(d, "agent"@) ==> after == before && (r matches Ok(Reaction::Reply(a)) && a.code == 400
            && !a.wake && text_field(a.body@, "error"@) is Some),
        given(d, "agent"@, agent) && without_both(url, '/') == "stream"@ ==> after == before && (
        r matches Ok(Reaction::Stream { call, body }) && call.agent@ == agent && body@ == d),
        given(d, "agent"@, agent) && without_both(url, '/') != "stream"@ ==> !(r matches Ok(
            Reaction::Stream { .. },
        )) && (r matches Ok(Reaction::Reply(a)) ==> answers(
            a,
            before@,
            after@,
            CallData { action: without_both(url, '/'), agent },
            d,
            now,
        )),
{
    lemma_names();
    match text_field(d, "agent"@) {
        Some(s) => {
            if s.len() > 0 {
                assert(given(d, "agent"@, s));
            }
        },
        None => {},
    }
}

/// A status line tells its code: it is the second word, whatever follows it. One word alone tells
/// none.
pub proof fn law_status_line(version: Seq<char>, code: u16, rest: Seq<char>)
    requires
        version.len() > 0,
        forall|i: int| 0 <= i < version.len() ==> !is_white(#[trigger] version[i]),
    ensures
        status_of(version + seq![' '] + decimal(code as int) + seq![' '] + rest) == Some(
            code as int,
        ),
        status_of(version + seq![' '] + decimal(code as int)) == Some(code as int),
        status_of(version) is None,
{
    let d = decimal(code as int);
    let all = version + seq![' '] + d + seq![' '] + rest;
    let tail = seq![' '] + d + seq![' '] + rest;
    let end = seq![' '] + rest;
    lemma_decimal_chars(code as int);
    lemma_unsigned_roundtrip(code as int, u16::MAX as int);
    assert(is_white(' '));
    assert forall|i: int| 0 <= i < d.len() implies !is_white(#[trigger] d[i]) by {
        let u = d[i] as int;
        assert(48 <= u <= 57 || 97 <= u <= 102 || u == 45);
    }
    assert(!is_white(all[0])) by {
        assert(all[0] == version[0]);
    }
    lemma_trim_start(all, whites(), 0);
    assert(all.skip(0) =~= all);
    assert(all =~= version + tail);
    lemma_word_len(version, tail);
    assert(all.skip(version.len() as int) =~= tail);
    assert(tail[1] == d[0]);
    lemma_trim_start(tail, whites(), 1);
    assert(tail.skip(1) =~= d + end);
    lemma_word_len(d, end);
    assert((d + end).take(d.len() as int) =~= d);
    let bare = version + seq![' '] + d;
    assert(bare[0] == version[0] && version[0] == version.skip(0)[0]);
    lemma_trim_start(bare, whites(), 0);
    assert(bare.skip(0) =~= bare);
    assert(bare =~= version + (seq![' '] + d));
    lemma_word_len(version, seq![' '] + d);
    assert(bare.skip(version.len() as int) =~= seq![' '] + d);
    assert((seq![' '] + d)[1] == d[0]);
    lemma_trim_start(seq![' '] + d, whites(), 1);
    assert((seq![' '] + d).skip(1) =~= d);
    lemma_whole_word(d);
    assert(d.take(d.len() as int) =~= d);
    lemma_trim_start(version, whites(), 0);
    assert(version.skip(0) =~= version);
    lemma_whole_word(version);
    let none = Seq::<char>::empty();
    assert(version.skip(version.len() as int) =~= none);
    lemma_trim_start(none, whites(), 0);
    assert(none.skip(0) =~= none);
    assert(none.take(0) =~= none);
}

/// A text without white space is one word.
proof fn lemma_whole_word(w: Seq<char>)
    requires
        forall|i: int| 0 <= i < w.len() ==> !is_white(#[trigger] w[i]),
    ensures
        word_len(w) == w.len(),
    decreases w.len(),
{
    if w.len() > 0 {
        let tail = w.skip(1);
        assert forall|i: int| 0 <= i < tail.len() implies !is_white(#[trigger] tail[i]) by {
            assert(tail[i] == w[i + 1]);
        }
        lemma_whole_word(tail);
    }
}

/// A word ends where white space begins.
proof fn lemma_word_len(w: Seq<char>, s: Seq<char>)
    requires
        forall|i: int| 0 <= i < w.len() ==> !is_white(#[trigger] w[i]),
        s.len() > 0,
        is_white(s[0]),
    ensures
        word_len(w + s) == w.len(),
    decreases w.len(),
{
    if w.len() == 0 {
        assert(w + s =~= s);
    } else {
        assert((w + s)[0] == w[0]);
        let tail = w.skip(1);
        assert((w + s).skip(1) =~= tail + s);
        assert forall|i: int| 0 <= i < tail.len() implies !is_white(#[trigger] tail[i]) by {
            assert(tail[i] == w[i + 1]);
        }
        lemma_word_len(tail, s);
    }
}

/// A request that does not bear the token is answered with 401 and changes nothing, whatever it
/// asks for; one that bears it is never answered so.
pub proof fn law_no_token_no_service(
    r: Result<Reaction, Failure>,
    before: Store,
    after: Store,
    borne: bool,
    url: Seq<char>,
    text: Seq<char>,
    now: int,
)
    requires
        responded(r, before, after, borne, url, text, now),
    ensures
        !borne ==> after == before && (r matches Ok(Reaction::Reply(a)) && a.code == 401 && !a.wake
            && holds(a.body@, "error"@, JsonData::Text("unauthorized"@))),
        borne ==> reacted(r, before, after, url, body_data(text), now),
        borne ==> (r matches Ok(Reaction::Reply(a)) ==> a.code != 401),
{
    lemma_names();
}

} // verus!
