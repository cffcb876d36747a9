//! JSON values as the library reads them, and the calls into `serde_json`
//! that parse and print them.
use vstd::prelude::*;

verus! {

/// A JSON value. Numbers are kept as the text `serde_json` prints for them;
/// object members keep the order in which `serde_json` iterates them.
#[derive(Debug, PartialEq)]
pub enum JsonValue {
    Null,
    Bool(bool),
    Number(String),
    Str(String),
    Array(Vec<JsonValue>),
    Object(Vec<(String, JsonValue)>),
}

#[verifier::external_type_specification]
#[verifier::external_body]
pub struct ExSerdeJsonValue(serde_json::Value);

/// What `serde_json::from_str::<serde_json::Value>(text)` parses `text` to
/// (`None` when it is not JSON).
pub uninterp spec fn json_parse(text: Seq<char>) -> Option<JsonValue>;

/// The compact text `serde_json::Value::to_string` prints for `v`, `None`
/// when a number's text in `v` does not read back as a JSON number.
pub uninterp spec fn json_compact(v: JsonValue) -> Option<Seq<char>>;

/// Trusted: `serde_json::from_str::<serde_json::Value>(text)`, the value
/// converted one for one; named result.
#[verifier::external_body]
pub(crate) fn parse_json(text: &str) -> (r: Option<JsonValue>)
    ensures
        r == json_parse(text@),
{
    serde_json::from_str::<serde_json::Value>(text).ok().map(from_serde)
}

/// Trusted: `serde_json::Value::to_string` of `v` converted back one for
/// one (`None` when a number's text fails to parse); named result.
#[verifier::external_body]
pub(crate) fn to_json_text(v: &JsonValue) -> (r: Option<String>)
    ensures
        r.deep_view() == json_compact(*v),
{
    to_serde(v).map(|x| x.to_string())
}

/// Converts a `serde_json::Value` variant by variant (numbers to their text).
#[verifier::external_body]
fn from_serde(v: serde_json::Value) -> JsonValue {
    match v {
        serde_json::Value::Null => JsonValue::Null,
        serde_json::Value::Bool(b) => JsonValue::Bool(b),
        serde_json::Value::Number(n) => JsonValue::Number(n.to_string()),
        serde_json::Value::String(s) => JsonValue::Str(s),
        serde_json::Value::Array(a) => JsonValue::Array(a.into_iter().map(from_serde).collect()),
        serde_json::Value::Object(m) => JsonValue::Object(
            m.into_iter().map(|(k, v)| (k, from_serde(v))).collect(),
        ),
    }
}

/// Converts back to a `serde_json::Value` variant by variant (number text
/// read back as a number, `None` when that fails).
#[verifier::external_body]
fn to_serde(v: &JsonValue) -> Option<serde_json::Value> {
    Some(match v {
        JsonValue::Null => serde_json::Value::Null,
        JsonValue::Bool(b) => serde_json::Value::Bool(*b),
        JsonValue::Number(t) => serde_json::Value::Number(t.parse().ok()?),
        JsonValue::Str(s) => serde_json::Value::String(s.clone()),
        JsonValue::Array(a) => serde_json::Value::Array(
            a.iter().map(to_serde).collect::<Option<Vec<_>>>()?,
        ),
        JsonValue::Object(m) => serde_json::Value::Object(
            m.iter().map(|(k, v)| Some((k.clone(), to_serde(v)?))).collect::<Option<_>>()?,
        ),
    })
}

} // verus!
