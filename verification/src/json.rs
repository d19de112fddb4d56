//! A JSON value as the runtime's tool inputs and payloads carry it.
//!
//! Numbers keep the integer they hold; a number that is neither a `u64` nor
//! an `i64` is kept as `Float` without its value, which no rule reads.
use vstd::prelude::*;

use crate::text::str_eq;

verus! {

#[derive(Debug)]
pub enum JsonValue {
    Null,
    Bool(bool),
    UInt(u64),
    Int(i64),
    Float,
    Str(String),
    Array(Vec<JsonValue>),
    Object(Vec<(String, JsonValue)>),
}

/// The value of the first field named `key` at or after position `i`.
pub open spec fn field_from(fields: Seq<(String, JsonValue)>, key: Seq<char>, i: int) -> Option<
    JsonValue,
>
    decreases fields.len() - i,
{
    if i < 0 || i >= fields.len() {
        None
    } else if fields[i].0@ == key {
        Some(fields[i].1)
    } else {
        field_from(fields, key, i + 1)
    }
}

/// `Value::get(key)`: the field of an object, `None` for any other value.
pub open spec fn json_get(v: JsonValue, key: Seq<char>) -> Option<JsonValue> {
    match v {
        JsonValue::Object(fields) => field_from(fields@, key, 0),
        _ => None,
    }
}

/// `Value::as_str`.
pub open spec fn json_str(v: Option<JsonValue>) -> Option<Seq<char>> {
    match v {
        Some(JsonValue::Str(s)) => Some(s@),
        _ => None,
    }
}

/// `input.get(key).and_then(Value::as_str)`.
pub open spec fn str_field(v: JsonValue, key: Seq<char>) -> Option<Seq<char>> {
    json_str(json_get(v, key))
}

pub open spec fn ref_view(r: Option<&JsonValue>) -> Option<JsonValue> {
    match r {
        Some(x) => Some(*x),
        None => None,
    }
}

pub open spec fn str_ref_view(r: Option<&String>) -> Option<Seq<char>> {
    match r {
        Some(x) => Some(x@),
        None => None,
    }
}

/// A field that is absent or JSON `null`.
pub open spec fn absent_or_null(v: Option<JsonValue>) -> bool {
    match v {
        None => true,
        Some(JsonValue::Null) => true,
        _ => false,
    }
}

impl JsonValue {
    /// `Value::get(key)`.
    pub fn get(&self, key: &str) -> (r: Option<&JsonValue>)
        ensures
            ref_view(r) == json_get(*self, key@),
    {
        match self {
            JsonValue::Object(fields) => {
                let mut i: usize = 0;
                while i < fields.len()
                    invariant
                        i <= fields.len(),
                        field_from(fields@, key@, i as int) == field_from(fields@, key@, 0),
                        json_get(*self, key@) == field_from(fields@, key@, 0),
                    decreases fields.len() - i,
                {
                    let entry = &fields[i];
                    if str_eq(entry.0.as_str(), key) {
                        assert(field_from(fields@, key@, i as int) == Some(entry.1));
                        return Some(&entry.1);
                    }
                    i += 1;
                }
                None
            },
            _ => None,
        }
    }

    /// `Value::as_str`.
    pub fn as_text(&self) -> (r: Option<&String>)
        ensures
            str_ref_view(r) == json_str(Some(*self)),
    {
        match self {
            JsonValue::Str(s) => Some(s),
            _ => None,
        }
    }
}

/// `input.get(key).and_then(Value::as_str)`.
pub fn get_str<'a>(input: &'a JsonValue, key: &str) -> (r: Option<&'a String>)
    ensures
        str_ref_view(r) == str_field(*input, key@),
{
    match input.get(key) {
        Some(v) => v.as_text(),
        None => None,
    }
}

/// `Value::as_u64`.
pub open spec fn json_u64(v: Option<JsonValue>) -> Option<u64> {
    match v {
        Some(JsonValue::UInt(n)) => Some(n),
        Some(JsonValue::Int(n)) => if n >= 0 {
            Some(n as u64)
        } else {
            None
        },
        _ => None,
    }
}

/// `Value::as_i64`.
pub open spec fn json_i64(v: Option<JsonValue>) -> Option<i64> {
    match v {
        Some(JsonValue::UInt(n)) => if n <= i64::MAX {
            Some(n as i64)
        } else {
            None
        },
        Some(JsonValue::Int(n)) => Some(n),
        _ => None,
    }
}

/// `Value::as_bool`.
pub open spec fn json_bool(v: Option<JsonValue>) -> Option<bool> {
    match v {
        Some(JsonValue::Bool(b)) => Some(b),
        _ => None,
    }
}

/// `input.get(key).and_then(Value::as_u64)`.
pub fn get_u64(input: &JsonValue, key: &str) -> (r: Option<u64>)
    ensures
        r == json_u64(json_get(*input, key@)),
{
    match input.get(key) {
        Some(JsonValue::UInt(n)) => Some(*n),
        Some(JsonValue::Int(n)) => if *n >= 0 {
            Some(*n as u64)
        } else {
            None
        },
        _ => None,
    }
}

/// `input.get(key).and_then(Value::as_i64)`.
pub fn get_i64(input: &JsonValue, key: &str) -> (r: Option<i64>)
    ensures
        r == json_i64(json_get(*input, key@)),
{
    match input.get(key) {
        Some(JsonValue::UInt(n)) => if *n <= i64::MAX as u64 {
            Some(*n as i64)
        } else {
            None
        },
        Some(JsonValue::Int(n)) => Some(*n),
        _ => None,
    }
}

/// `input.get(key).and_then(Value::as_bool)`.
pub fn get_bool(input: &JsonValue, key: &str) -> (r: Option<bool>)
    ensures
        r == json_bool(json_get(*input, key@)),
{
    match input.get(key) {
        Some(JsonValue::Bool(b)) => Some(*b),
        _ => None,
    }
}

/// `input.get(key).and_then(Value::as_str).map(str::to_string)`.
pub fn get_string(input: &JsonValue, key: &str) -> (r: Option<String>)
    ensures
        crate::text::opt_string_view(r) == str_field(*input, key@),
{
    match get_str(input, key) {
        Some(s) => Some(crate::text::copy_string(s.as_str())),
        None => None,
    }
}

} // verus!
