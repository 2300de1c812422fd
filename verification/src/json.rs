//! A JSON value as the library reads it, with the lookups its rules use.
use vstd::prelude::*;
use crate::text::{chars_of, parse_i64, parsed_i64, same_text};

verus! {

/// A JSON value.
#[derive(Debug, PartialEq, Eq)]
pub enum JsonValue {
    Null,
    Bool(bool),
    /// A number, kept as its text.
    Number(String),
    String(String),
    Array(Vec<JsonValue>),
    /// Members in document order; keys are unique.
    Object(Vec<(String, JsonValue)>),
}

/// The value of the first member named `key`.
pub open spec fn member(pairs: Seq<(String, JsonValue)>, key: Seq<char>) -> Option<JsonValue>
    decreases pairs.len(),
{
    if pairs.len() == 0 {
        None
    } else if pairs[0].0@ == key {
        Some(pairs[0].1)
    } else {
        member(pairs.drop_first(), key)
    }
}

/// `Value::get(key)`: the member `key` of an object, nothing otherwise.
pub open spec fn json_get(v: JsonValue, key: Seq<char>) -> Option<JsonValue> {
    match v {
        JsonValue::Object(pairs) => member(pairs@, key),
        _ => None,
    }
}

/// `get(key).and_then(as_str)`.
pub open spec fn get_str(v: JsonValue, key: Seq<char>) -> Option<Seq<char>> {
    match json_get(v, key) {
        Some(JsonValue::String(s)) => Some(s@),
        _ => None,
    }
}

/// `get(key).and_then(as_bool) == Some(true)`.
pub open spec fn flagged(v: JsonValue, key: Seq<char>) -> bool {
    json_get(v, key) == Some(JsonValue::Bool(true))
}

/// `get(key).and_then(as_bool)`.
pub open spec fn get_bool(v: JsonValue, key: Seq<char>) -> Option<bool> {
    match json_get(v, key) {
        Some(JsonValue::Bool(b)) => Some(b),
        _ => None,
    }
}

/// `get(key).and_then(as_i64)`: a number member whose text is an integer
/// that fits in `i64`.
pub open spec fn get_i64(v: JsonValue, key: Seq<char>) -> Option<i64> {
    match json_get(v, key) {
        Some(JsonValue::Number(t)) => parsed_i64(t@),
        _ => None,
    }
}

/// The member `key` of an object.
pub fn get<'a>(v: &'a JsonValue, key: &str) -> (r: Option<&'a JsonValue>)
    ensures
        match r {
            Some(x) => json_get(*v, key@) == Some(*x),
            None => json_get(*v, key@) is None,
        },
{
    match v {
        JsonValue::Object(pairs) => {
            let k = chars_of(key);
            assert(pairs@.skip(0) == pairs@);
            let mut i: usize = 0;
            while i < pairs.len()
                invariant
                    i <= pairs@.len(),
                    k@ == key@,
                    json_get(*v, key@) == member(pairs@, key@),
                    member(pairs@, key@) == member(pairs@.skip(i as int), key@),
                decreases pairs.len() - i,
            {
                let ghost rest = pairs@.skip(i as int);
                assert(rest[0] == pairs@[i as int]);
                assert(rest.drop_first() == pairs@.skip(i + 1));
                let name = chars_of(pairs[i].0.as_str());
                if same_text(&name, &k) {
                    assert(rest[0].0@ == key@);
                    assert(member(rest, key@) == Some(rest[0].1));
                    assert(member(pairs@, key@) == Some(pairs@[i as int].1));
                    return Some(&pairs[i].1);
                }
                i += 1;
            }
            None
        },
        _ => None,
    }
}

/// The string member `key`, if it is a string.
pub fn get_string<'a>(v: &'a JsonValue, key: &str) -> (r: Option<&'a String>)
    ensures
        match r {
            Some(s) => get_str(*v, key@) == Some(s@),
            None => get_str(*v, key@) is None,
        },
{
    match get(v, key) {
        Some(JsonValue::String(s)) => Some(s),
        _ => None,
    }
}

/// The boolean member `key`, if it is a boolean.
pub fn get_boolean(v: &JsonValue, key: &str) -> (r: Option<bool>)
    ensures
        r == get_bool(*v, key@),
{
    match get(v, key) {
        Some(JsonValue::Bool(b)) => Some(*b),
        _ => None,
    }
}

/// The integer member `key`, if it is a number that reads as an `i64`.
pub fn get_integer(v: &JsonValue, key: &str) -> (r: Option<i64>)
    ensures
        r == get_i64(*v, key@),
{
    match get(v, key) {
        Some(JsonValue::Number(t)) => parse_i64(&chars_of(t.as_str())),
        _ => None,
    }
}

/// Whether the member `key` is `true`.
pub fn is_flagged(v: &JsonValue, key: &str) -> (r: bool)
    ensures
        r == flagged(*v, key@),
{
    match get(v, key) {
        Some(JsonValue::Bool(b)) => *b,
        _ => false,
    }
}

} // verus!
