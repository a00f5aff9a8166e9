use vstd::prelude::*;

use serde_json::Value;

use crate::json::{JsonEntry, JsonNumber, JsonValue};

verus! {

#[verifier::external_type_specification]
#[verifier::external_body]
pub struct ExSerdeJsonValue(Value);

/// The JSON value that `serde_json::from_slice` reads from `bytes`, `None` when the bytes
/// are not one JSON document.
pub uninterp spec fn json_parse_of(bytes: Seq<u8>) -> Option<JsonValue>;

/// The bytes that `serde_json::to_vec` writes for `v` (object members in key order), `None`
/// when it refuses the value.
pub uninterp spec fn json_bytes_of(v: JsonValue) -> Option<Seq<u8>>;

#[verifier::external_type_specification]
#[verifier::external_body]
pub struct ExSerdeJsonNumber(serde_json::Number);

/// Converts a serde_json number: one that fits `u64` or `i64` keeps its integer, another
/// keeps its decimal text.
#[verifier::external_body]
fn number_from_serde(n: &serde_json::Number) -> JsonNumber {
    match (n.as_u64(), n.as_i64()) {
        (Some(u), _) => JsonNumber::Unsigned(u),
        (None, Some(i)) => JsonNumber::Negative(i),
        _ => JsonNumber::Decimal(n.to_string()),
    }
}

/// Converts serde_json's value tree into the library's, member by member.
#[verifier::external_body]
fn json_from_serde(v: &Value) -> JsonValue {
    match v {
        Value::Null => JsonValue::Null,
        Value::Bool(b) => JsonValue::Bool(*b),
        Value::Number(n) => JsonValue::Number(number_from_serde(n)),
        Value::String(s) => JsonValue::String(s.clone()),
        Value::Array(items) => JsonValue::Array(items.iter().map(json_from_serde).collect()),
        Value::Object(map) => JsonValue::Object(
            map.iter().map(|(k, x)| JsonEntry { key: k.clone(), value: json_from_serde(x) }).collect(),
        ),
    }
}

/// Converts the library's value tree into serde_json's, member by member.
#[verifier::external_body]
fn json_to_serde(v: &JsonValue) -> Value {
    match v {
        JsonValue::Null => Value::Null,
        JsonValue::Bool(b) => Value::Bool(*b),
        JsonValue::Number(JsonNumber::Unsigned(u)) => Value::from(*u),
        JsonValue::Number(JsonNumber::Negative(i)) => Value::from(*i),
        // A decimal text that serde_json does not read back as a number becomes `null`.
        JsonValue::Number(JsonNumber::Decimal(t)) => serde_json::from_str(t).unwrap_or(Value::Null),
        JsonValue::String(s) => Value::String(s.clone()),
        JsonValue::Array(items) => Value::Array(items.iter().map(json_to_serde).collect()),
        JsonValue::Object(es) => Value::Object(
            es.iter().map(|e| (e.key.clone(), json_to_serde(&e.value))).collect(),
        ),
    }
}

/// Reads `bytes` with `serde_json::from_slice` into a `serde_json::Value` and converts it.
/// The result depends on the bytes alone.
#[verifier::external_body]
pub(crate) fn parse_json(bytes: &[u8]) -> (r: Option<JsonValue>)
    ensures
        r == json_parse_of(bytes@),
{
    match serde_json::from_slice::<Value>(bytes) {
        Ok(v) => Some(json_from_serde(&v)),
        Err(_) => None,
    }
}

/// Converts `v` and writes it with `serde_json::to_vec`. The result depends on `v` alone.
#[verifier::external_body]
pub(crate) fn json_to_vec(v: &JsonValue) -> (r: Option<Vec<u8>>)
    ensures
        match r {
            Some(b) => json_bytes_of(*v) == Some(b@),
            None => json_bytes_of(*v) is None,
        },
{
    match serde_json::to_vec(&json_to_serde(v)) {
        Ok(b) => Some(b),
        Err(_) => None,
    }
}

} // verus!
