//! JSON values: what request bodies, replies and frame data are made of.

use crate::number::{i64_value, parse_i64};
use crate::text::{copy, same};
use vstd::prelude::*;

verus! {

/// A JSON value as data: an object maps each key to one value.
pub enum JsonData {
    Null,
    Bool(bool),
    Int(int),
    Other(OtherNumber),
    Text(Seq<char>),
    Array(Seq<JsonData>),
    Object(Map<Seq<char>, JsonData>),
}

/// A JSON value. Of two members of an object with one key, the later one counts.
#[derive(Debug, PartialEq, Eq)]
pub enum Json {
    Null,
    Bool(bool),
    /// A number that fits an `i64`.
    Int(i64),
    /// Any other number.
    Other(OtherNumber),
    Text(String),
    Array(Vec<Json>),
    Object(Vec<(String, Json)>),
}

/// A number that does not fit an `i64`, carried along unread. Only `parse` makes one.
#[derive(Debug, PartialEq, Eq)]
pub struct OtherNumber {
    number: serde_json::Number,
}

/// `serde_json::Number`: a JSON number.
#[verifier::external_type_specification]
#[verifier::external_body]
pub struct ExNumber(serde_json::Number);

/// `serde_json::Value`: a parsed JSON value.
#[verifier::external_type_specification]
#[verifier::external_body]
pub struct ExValue(serde_json::Value);

/// `serde_json::Error`: why a text is not JSON.
#[verifier::external_type_specification]
#[verifier::external_body]
pub struct ExError(serde_json::Error);

impl View for Json {
    type V = JsonData;

    open spec fn view(&self) -> JsonData {
        json_data(*self)
    }
}

/// The data of a value.
pub open spec fn json_data(j: Json) -> JsonData
    decreases j,
{
    match j {
        Json::Null => JsonData::Null,
        Json::Bool(b) => JsonData::Bool(b),
        Json::Int(n) => JsonData::Int(n as int),
        Json::Other(n) => JsonData::Other(n),
        Json::Text(s) => JsonData::Text(s@),
        Json::Array(v) => JsonData::Array(
            Seq::new(
                v@.len(),
                |i: int|
                    if 0 <= i < v@.len() {
                        json_data(v@[i])
                    } else {
                        JsonData::Null
                    },
            ),
        ),
        Json::Object(v) => JsonData::Object(object_data(v@)),
    }
}

/// The data of an object's members.
pub open spec fn object_data(v: Seq<(String, Json)>) -> Map<Seq<char>, JsonData>
    decreases v,
{
    if v.len() == 0 {
        Map::empty()
    } else {
        object_data(v.drop_last()).insert(v.last().0@, json_data(v.last().1))
    }
}

/// The data of a list of values.
pub open spec fn all_data(v: Seq<Json>) -> Seq<JsonData> {
    Seq::new(v.len(), |i: int| v[i]@)
}

/// A string or, where there is none, `null`.
pub open spec fn text_or_null(s: Option<Seq<char>>) -> JsonData {
    match s {
        Some(s) => JsonData::Text(s),
        None => JsonData::Null,
    }
}

/// An integer or, where there is none, `null`.
pub open spec fn int_or_null(n: Option<int>) -> JsonData {
    match n {
        Some(n) => JsonData::Int(n),
        None => JsonData::Null,
    }
}

/// The member of an object under a key; nothing of any other value.
pub open spec fn field(d: JsonData, key: Seq<char>) -> Option<JsonData> {
    match d {
        JsonData::Object(m) => if m.contains_key(key) {
            Some(m[key])
        } else {
            None
        },
        _ => None,
    }
}

/// The string under a key.
pub open spec fn text_field(d: JsonData, key: Seq<char>) -> Option<Seq<char>> {
    match field(d, key) {
        Some(JsonData::Text(s)) => Some(s),
        _ => None,
    }
}

/// The integer under a key.
pub open spec fn int_field(d: JsonData, key: Seq<char>) -> Option<int> {
    match field(d, key) {
        Some(JsonData::Int(n)) => Some(n),
        _ => None,
    }
}

/// The truth value under a key.
pub open spec fn bool_field(d: JsonData, key: Seq<char>) -> Option<bool> {
    match field(d, key) {
        Some(JsonData::Bool(b)) => Some(b),
        _ => None,
    }
}

/// The elements of the array under a key; none where there is no array.
pub open spec fn array_field(d: JsonData, key: Seq<char>) -> Seq<JsonData> {
    match field(d, key) {
        Some(JsonData::Array(s)) => s,
        _ => Seq::empty(),
    }
}

/// The integer under a key that may arrive as a number or as a numeric string.
pub open spec fn number_field(d: JsonData, key: Seq<char>) -> Option<int> {
    match field(d, key) {
        Some(JsonData::Int(n)) => Some(n),
        Some(JsonData::Text(s)) => i64_value(s),
        _ => None,
    }
}

/// A value nested at most `depth` deep whose numbers all are integers that fit an `i64`.
pub open spec fn within(d: JsonData, depth: nat) -> bool
    decreases depth,
{
    match d {
        JsonData::Null | JsonData::Bool(_) | JsonData::Text(_) => true,
        JsonData::Int(n) => i64::MIN <= n <= i64::MAX,
        JsonData::Other(_) => false,
        JsonData::Array(s) => depth > 0 && forall|i: int|
            0 <= i < s.len() ==> within(#[trigger] s[i], (depth - 1) as nat),
        JsonData::Object(m) => depth > 0 && forall|k: Seq<char>|
            m.contains_key(k) ==> within(#[trigger] m[k], (depth - 1) as nat),
    }
}

/// What a parsed value holds.
pub uninterp spec fn value_data(v: serde_json::Value) -> JsonData;

/// What a text parses to; nothing where it is not JSON.
pub uninterp spec fn json_parse(text: Seq<char>) -> Option<JsonData>;

/// The text of a value on one line.
pub uninterp spec fn json_text(d: JsonData) -> Seq<char>;

/// The text of a value on indented lines.
pub uninterp spec fn json_pretty(d: JsonData) -> Seq<char>;

/// `serde_json::from_str`, to a value of any kind: the result depends on the text alone.
#[verifier::external_body]
fn value_from_str(text: &str) -> (r: Result<serde_json::Value, serde_json::Error>)
    ensures
        match r {
            Ok(v) => json_parse(text@) == Some(value_data(v)),
            Err(_) => json_parse(text@) is None,
        },
{
    serde_json::from_str(text)
}

/// `serde_json::Value`, taken apart: each variant becomes the variant of the same kind,
/// with the same contents. A number is an integer where `Number::as_i64` says so.
#[verifier::external_body]
fn json_of_value(v: serde_json::Value) -> (r: Json)
    ensures
        r@ == value_data(v),
{
    match v {
        serde_json::Value::Null => Json::Null,
        serde_json::Value::Bool(b) => Json::Bool(b),
        serde_json::Value::Number(n) => match n.as_i64() {
            Some(i) => Json::Int(i),
            None => Json::Other(OtherNumber { number: n }),
        },
        serde_json::Value::String(s) => Json::Text(s),
        serde_json::Value::Array(a) => Json::Array(a.into_iter().map(json_of_value).collect()),
        serde_json::Value::Object(m) => {
            Json::Object(m.into_iter().map(|(k, v)| (k, json_of_value(v))).collect())
        },
    }
}

/// `serde_json::Value`, put together: each variant becomes the variant of the same kind,
/// with the same contents. A `serde_json::Map` keeps the later of two members with one key.
#[verifier::external_body]
fn value_of_json(j: &Json) -> (r: serde_json::Value)
    ensures
        value_data(r) == j@,
{
    match j {
        Json::Null => serde_json::Value::Null,
        Json::Bool(b) => serde_json::Value::Bool(*b),
        Json::Int(n) => serde_json::Value::from(*n),
        Json::Other(n) => serde_json::Value::Number(n.number.clone()),
        Json::Text(s) => serde_json::Value::String(s.clone()),
        Json::Array(a) => serde_json::Value::Array(a.iter().map(value_of_json).collect()),
        Json::Object(m) => {
            serde_json::Value::Object(m.iter().map(|(k, v)| (k.clone(), value_of_json(v))).collect())
        },
    }
}

/// `serde_json::Value::to_string`: the text depends on the value alone, and holds no
/// control character, as those are escaped in strings. Text of a value that nests no
/// deeper than the parser's limit parses back to the value. Not claimed of numbers that are
/// no `i64`: a floating-point number may come back changed in its last place.
#[verifier::external_body]
fn value_text(v: &serde_json::Value) -> (r: String)
    ensures
        r@ == json_text(value_data(*v)),
        forall|i: int| 0 <= i < r@.len() ==> #[trigger] r@[i] != '\n' && r@[i] != '\r',
        within(value_data(*v), 127) ==> json_parse(r@) == Some(value_data(*v)),
{
    v.to_string()
}

/// `serde_json::to_string_pretty`: the text depends on the value alone. Writing a value to
/// memory does not fail: its keys are strings, and no number in it is out of range.
#[verifier::external_body]
fn value_pretty(v: &serde_json::Value) -> (r: Result<String, serde_json::Error>)
    ensures
        r is Ok,
        r->Ok_0@ == json_pretty(value_data(*v)),
{
    serde_json::to_string_pretty(v)
}

/// Parses a text; `None` where it is not JSON.
pub fn parse(text: &str) -> (r: Option<Json>)
    ensures
        match r {
            Some(j) => json_parse(text@) == Some(j@),
            None => json_parse(text@) is None,
        },
{
    match value_from_str(text) {
        Ok(v) => Some(json_of_value(v)),
        Err(_) => None,
    }
}

/// The text of a value, on one line.
pub fn text_of(j: &Json) -> (r: String)
    ensures
        r@ == json_text(j@),
        forall|i: int| 0 <= i < r@.len() ==> #[trigger] r@[i] != '\n' && r@[i] != '\r',
        within(j@, 127) ==> json_parse(r@) == Some(j@),
{
    value_text(&value_of_json(j))
}

/// The text of a value on indented lines, as it is shown to a user.
pub fn pretty(j: &Json) -> (r: String)
    ensures
        r@ == json_pretty(j@),
{
    match value_pretty(&value_of_json(j)) {
        Ok(s) => s,
        Err(_) => String::new(),
    }
}

/// An empty object.
pub fn object() -> (r: Json)
    ensures
        r@ == JsonData::Object(Map::empty()),
{
    let members: Vec<(String, Json)> = Vec::new();
    proof {
        assert(object_data(members@) == Map::<Seq<char>, JsonData>::empty());
    }
    Json::Object(members)
}

/// A JSON string.
pub fn text(s: &str) -> (r: Json)
    ensures
        r@ == JsonData::Text(s@),
{
    Json::Text(copy(s))
}

/// A JSON string, or `null`.
pub fn opt_text(s: &Option<String>) -> (r: Json)
    ensures
        r@ == text_or_null(crate::text::opt_text(*s)),
{
    match s {
        Some(s) => text(s.as_str()),
        None => Json::Null,
    }
}

/// A JSON integer, or `null`.
pub fn opt_int(n: Option<i64>) -> (r: Json)
    ensures
        r@ == int_or_null(match n {
            Some(n) => Some(n as int),
            None => None,
        }),
{
    match n {
        Some(n) => Json::Int(n),
        None => Json::Null,
    }
}

/// A JSON array.
pub fn array(items: Vec<Json>) -> (r: Json)
    ensures
        r@ == JsonData::Array(all_data(items@)),
{
    let r = Json::Array(items);
    proof {
        assert(r@->Array_0 =~= all_data(items@));
    }
    r
}

/// A JSON array of strings.
pub fn text_array(items: &[String]) -> (r: Json)
    ensures
        r@ == JsonData::Array(Seq::new(items@.len(), |i: int| JsonData::Text(items@[i]@))),
{
    let mut out: Vec<Json> = Vec::new();
    let mut i: usize = 0;
    while i < items.len()
        invariant
            i <= items@.len(),
            out@.len() == i,
            forall|k: int| 0 <= k < i ==> (#[trigger] out@[k])@ == JsonData::Text(items@[k]@),
        decreases items@.len() - i,
    {
        out.push(text(items[i].as_str()));
        i += 1;
    }
    proof {
        assert(all_data(out@) =~= Seq::new(items@.len(), |i: int| JsonData::Text(items@[i]@)));
    }
    array(out)
}

impl Json {
    /// The object with `key` set to `value`; any other value becomes an object with that one
    /// member.
    pub fn with(self, key: &str, value: Json) -> (r: Json)
        ensures
            r@ == JsonData::Object(
                (match self@ {
                    JsonData::Object(m) => m,
                    _ => Map::empty(),
                }).insert(key@, value@),
            ),
    {
        let mut members = match self {
            Json::Object(members) => members,
            _ => Vec::new(),
        };
        let ghost before = members@;
        members.push((copy(key), value));
        proof {
            assert(members@.drop_last() =~= before);
            assert(object_data(before) == (match self@ {
                JsonData::Object(m) => m,
                _ => Map::empty(),
            }));
            assert(object_data(members@) == object_data(before).insert(key@, value@));
        }
        Json::Object(members)
    }

    /// Whether the value is an object.
    pub fn is_object(&self) -> (r: bool)
        ensures
            r == (self@ is Object),
    {
        match self {
            Json::Object(_) => true,
            _ => false,
        }
    }

    /// The member under `key`, if the value is an object that has one.
    pub fn get(&self, key: &str) -> (r: Option<&Json>)
        ensures
            match r {
                Some(j) => field(self@, key@) == Some(j@),
                None => field(self@, key@) is None,
            },
    {
        match self {
            Json::Object(members) => {
                let mut i: usize = members.len();
                proof {
                    assert(members@.take(i as int) =~= members@);
                }
                while i > 0
                    invariant
                        i <= members@.len(),
                        self@ == JsonData::Object(object_data(members@)),
                        field(self@, key@) == field(
                            JsonData::Object(object_data(members@.take(i as int))),
                            key@,
                        ),
                    decreases i,
                {
                    let ghost front = members@.take(i as int);
                    proof {
                        assert(front.drop_last() =~= members@.take(i - 1));
                        assert(front.last() == members@[i - 1]);
                    }
                    i -= 1;
                    if same(members[i].0.as_str(), key) {
                        return Some(&members[i].1);
                    }
                }
                None
            },
            _ => None,
        }
    }

    /// The characters of a string.
    pub fn as_str(&self) -> (r: Option<&str>)
        ensures
            match r {
                Some(s) => self@ == JsonData::Text(s@),
                None => !(self@ is Text),
            },
    {
        match self {
            Json::Text(s) => Some(s.as_str()),
            _ => None,
        }
    }

    /// An integer.
    pub fn as_i64(&self) -> (r: Option<i64>)
        ensures
            match r {
                Some(n) => self@ == JsonData::Int(n as int),
                None => !(self@ is Int),
            },
    {
        match self {
            Json::Int(n) => Some(*n),
            _ => None,
        }
    }

    /// The string under `key`.
    pub fn get_str(&self, key: &str) -> (r: Option<&str>)
        ensures
            match r {
                Some(s) => text_field(self@, key@) == Some(s@),
                None => text_field(self@, key@) is None,
            },
    {
        match self.get(key) {
            Some(j) => j.as_str(),
            None => None,
        }
    }

    /// A copy of the string under `key`.
    pub fn get_text(&self, key: &str) -> (r: Option<String>)
        ensures
            crate::text::opt_text(r) == text_field(self@, key@),
    {
        match self.get_str(key) {
            Some(s) => Some(copy(s)),
            None => None,
        }
    }

    /// A copy of the string under `key`, or the empty string.
    pub fn get_text_or_empty(&self, key: &str) -> (r: String)
        ensures
            r@ == (match text_field(self@, key@) {
                Some(s) => s,
                None => Seq::empty(),
            }),
    {
        match self.get_str(key) {
            Some(s) => copy(s),
            None => String::new(),
        }
    }

    /// The integer under `key`.
    pub fn get_i64(&self, key: &str) -> (r: Option<i64>)
        ensures
            match r {
                Some(n) => int_field(self@, key@) == Some(n as int),
                None => int_field(self@, key@) is None,
            },
    {
        match self.get(key) {
            Some(j) => j.as_i64(),
            None => None,
        }
    }

    /// The truth value under `key`.
    pub fn get_bool(&self, key: &str) -> (r: Option<bool>)
        ensures
            r == bool_field(self@, key@),
    {
        match self.get(key) {
            Some(Json::Bool(b)) => Some(*b),
            _ => None,
        }
    }

    /// The elements of the array under `key`.
    pub fn get_array(&self, key: &str) -> (r: Option<&Vec<Json>>)
        ensures
            match r {
                Some(v) => field(self@, key@) == Some(JsonData::Array(all_data(v@))),
                None => !(field(self@, key@) matches Some(JsonData::Array(_))),
            },
    {
        match self.get(key) {
            Some(Json::Array(v)) => {
                proof {
                    let d = field(self@, key@)->0;
                    assert(d->Array_0 =~= all_data(v@));
                }
                Some(v)
            },
            _ => None,
        }
    }
}

/// A field that may arrive as a number or as a numeric string; `None` where it is absent,
/// empty or neither.
pub fn opt_i64(body: &Json, field: &str) -> (r: Option<i64>)
    ensures
        match r {
            Some(n) => number_field(body@, field@) == Some(n as int),
            None => number_field(body@, field@) is None,
        },
{
    match body.get(field) {
        Some(Json::Int(n)) => Some(*n),
        Some(Json::Text(s)) => parse_i64(s.as_str()),
        _ => None,
    }
}

} // verus!
