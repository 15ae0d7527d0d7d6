//! JSON documents, as the library reads them.
use vstd::prelude::*;

verus! {

/// A JSON number, by what the library reads of it: its value when it is an integer that fits
/// in `i64`.
#[derive(Clone, Copy, Debug, PartialEq, Eq)]
pub struct JsonNumber {
    pub as_i64: Option<i64>,
}

/// A JSON value. An object keeps its members in order, each key once.
#[derive(Debug)]
pub enum JsonValue {
    Null,
    Bool(bool),
    Number(JsonNumber),
    String(String),
    Array(Vec<JsonValue>),
    Object(Vec<(String, JsonValue)>),
}

/// The member of an object's entries with the given key.
pub open spec fn member_spec(entries: Seq<(String, JsonValue)>, key: Seq<char>) -> Option<JsonValue>
    decreases entries.len(),
{
    if entries.len() == 0 {
        None
    } else if entries[0].0@ == key {
        Some(entries[0].1)
    } else {
        member_spec(entries.drop_first(), key)
    }
}

/// `Value::get` with a string key: the member of an object, nothing for any other value.
pub open spec fn get_spec(v: JsonValue, key: Seq<char>) -> Option<JsonValue> {
    match v {
        JsonValue::Object(entries) => member_spec(entries@, key),
        _ => None,
    }
}

/// `Value::as_str`.
pub open spec fn as_str_spec(v: JsonValue) -> Option<Seq<char>> {
    match v {
        JsonValue::String(s) => Some(s@),
        _ => None,
    }
}

/// `Value::as_i64`.
pub open spec fn as_i64_spec(v: JsonValue) -> Option<i64> {
    match v {
        JsonValue::Number(n) => n.as_i64,
        _ => None,
    }
}

/// The text of the member `key` of `v`, when `v` is an object and that member is a string.
pub open spec fn str_field(v: JsonValue, key: Seq<char>) -> Option<Seq<char>> {
    match get_spec(v, key) {
        Some(m) => as_str_spec(m),
        None => None,
    }
}

/// The integer value of the member `key` of `v`, when it is an integer number.
pub open spec fn i64_field(v: JsonValue, key: Seq<char>) -> Option<i64> {
    match get_spec(v, key) {
        Some(m) => as_i64_spec(m),
        None => None,
    }
}

/// The elements of the member `key` of `v`, when it is an array.
pub open spec fn array_field(v: JsonValue, key: Seq<char>) -> Option<Seq<JsonValue>> {
    match get_spec(v, key) {
        Some(JsonValue::Array(items)) => Some(items@),
        _ => None,
    }
}

/// `Value::get` with a string key.
pub fn get<'a>(v: &'a JsonValue, key: &str) -> (r: Option<&'a JsonValue>)
    ensures
        r matches Some(m) ==> get_spec(*v, key@) == Some(*m),
        r is None ==> get_spec(*v, key@) is None,
{
    match v {
        JsonValue::Object(entries) => {
            let wanted = String::from_str(key);
            let mut i: usize = 0;
            assert(entries@.skip(0) =~= entries@);
            while i < entries.len()
                invariant
                    i <= entries.len(),
                    get_spec(*v, key@) == member_spec(entries@, key@),
                    wanted@ == key@,
                    member_spec(entries@, key@) == member_spec(entries@.skip(i as int), key@),
                decreases entries.len() - i,
            {
                assert(entries@.skip(i as int).drop_first() =~= entries@.skip(i + 1));
                assert(entries@.skip(i as int)[0] == entries@[i as int]);
                if entries[i].0 == wanted {
                    return Some(&entries[i].1);
                }
                i = i + 1;
            }
            None
        },
        _ => None,
    }
}

/// The text of a member that is a string.
pub fn get_str<'a>(v: &'a JsonValue, key: &str) -> (r: Option<&'a String>)
    ensures
        r matches Some(s) ==> str_field(*v, key@) == Some(s@),
        r is None ==> str_field(*v, key@) is None,
{
    match get(v, key) {
        Some(JsonValue::String(s)) => Some(s),
        _ => None,
    }
}

/// The integer value of a member that is an integer number.
pub fn get_i64(v: &JsonValue, key: &str) -> (r: Option<i64>)
    ensures
        r == i64_field(*v, key@),
{
    match get(v, key) {
        Some(JsonValue::Number(n)) => n.as_i64,
        _ => None,
    }
}

/// The elements of a member that is an array.
pub fn get_array<'a>(v: &'a JsonValue, key: &str) -> (r: Option<&'a Vec<JsonValue>>)
    ensures
        r matches Some(a) ==> array_field(*v, key@) == Some(a@),
        r is None ==> array_field(*v, key@) is None,
{
    match get(v, key) {
        Some(JsonValue::Array(items)) => Some(items),
        _ => None,
    }
}

/// `serde_json::Value`, which `parse_json` converts into a [`JsonValue`].
#[verifier::external_type_specification]
#[verifier::external_body]
pub struct ExSerdeJsonValue(serde_json::Value);

/// What `serde_json` parses a byte string into, as a [`JsonValue`]: `None` where the bytes are
/// not one JSON document.
pub uninterp spec fn parsed_json(bytes: Seq<u8>) -> Option<JsonValue>;

/// `serde_json::from_slice::<serde_json::Value>`, the document converted member for member into
/// a [`JsonValue`]. Its result is named, not described: it depends on the bytes alone.
#[verifier::external_body]
pub(crate) fn parse_json(bytes: &[u8]) -> (r: Option<JsonValue>)
    ensures
        r == parsed_json(bytes@),
{
    serde_json::from_slice::<serde_json::Value>(bytes).ok().map(|v| from_serde(&v))
}

/// One `serde_json::Value` as a [`JsonValue`], variant for variant; a number keeps what
/// `Number::as_i64` gives, an object its members in the map's order.
#[verifier::external_body]
fn from_serde(v: &serde_json::Value) -> JsonValue {
    match v {
        serde_json::Value::Null => JsonValue::Null,
        serde_json::Value::Bool(b) => JsonValue::Bool(*b),
        serde_json::Value::Number(n) => JsonValue::Number(JsonNumber { as_i64: n.as_i64() }),
        serde_json::Value::String(s) => JsonValue::String(s.clone()),
        serde_json::Value::Array(a) => JsonValue::Array(a.iter().map(from_serde).collect()),
        serde_json::Value::Object(m) => JsonValue::Object(
            m.iter().map(|(k, v)| (k.clone(), from_serde(v))).collect(),
        ),
    }
}

} // verus!
