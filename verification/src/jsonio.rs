//! Trusted boundary to serde_json: parsing a document and reading a
//! `serde_json::Value` tree.
//!
//! The tree itself is opaque here; what a parse yields and what a value
//! holds are named (`json_doc`, `json_view`) over the mathematical shape
//! `JsonV`, and each accessor's contract says which projection of that
//! shape it returns. Parsing is a function of the text alone.

use vstd::prelude::*;

verus! {

/// Mathematical shape of a parsed JSON value. Numbers stored as integers
/// carry their exact value; numbers stored in floating point carry no value
/// here (none of the accessors below reads one).
pub enum JsonV {
    Null,
    Truth(bool),
    IntNum(int),
    OtherNum,
    Text(Seq<char>),
    Arr(Seq<JsonV>),
    Obj(Map<Seq<char>, JsonV>),
}

/// The shape a JSON document parses to — a function of the text alone; no
/// shape for malformed text.
pub uninterp spec fn json_doc(s: Seq<char>) -> Option<JsonV>;

/// The shape a parsed `serde_json::Value` holds.
pub uninterp spec fn json_view(v: serde_json::Value) -> JsonV;

#[verifier::external_type_specification]
#[verifier::external_body]
pub struct ExValue(serde_json::Value);

#[verifier::external_type_specification]
#[verifier::external_body]
pub struct ExJsonError(serde_json::Error);

/// Relies on serde_json::from_str: parses a JSON document, `Err` exactly on
/// input that does not parse; the parsed value holds the document's shape.
#[verifier::external_body]
pub fn parse_json(s: &str) -> (r: Result<serde_json::Value, serde_json::Error>)
    ensures
        match r {
            Result::Ok(v) => json_doc(s@) == Option::Some(json_view(v)),
            Result::Err(_) => json_doc(s@) is None,
        },
{
    serde_json::from_str(s)
}

/// Relies on serde_json::Value::get: member lookup by key on an object,
/// `None` when the value is not an object or lacks the key.
#[verifier::external_body]
pub fn json_get<'a>(v: &'a serde_json::Value, key: &str) -> (r: Option<&'a serde_json::Value>)
    ensures
        match json_view(*v) {
            JsonV::Obj(m) => match r {
                Option::Some(w) => m.contains_key(key@) && json_view(*w) == m[key@],
                Option::None => !m.contains_key(key@),
            },
            _ => r is None,
        },
{
    v.get(key)
}

/// Relies on serde_json::Value::as_array: the elements of an array value.
#[verifier::external_body]
pub fn json_as_array<'a>(v: &'a serde_json::Value) -> (r: Option<&'a Vec<serde_json::Value>>)
    ensures
        match r {
            Option::Some(a) => json_view(*v) is Arr && a@.len() == json_view(*v)->Arr_0.len()
                && forall|i: int|
                0 <= i < a@.len() ==> json_view(#[trigger] a@[i]) == json_view(*v)->Arr_0[i],
            Option::None => !(json_view(*v) is Arr),
        },
{
    v.as_array()
}

/// Relies on serde_json::Value::as_str: the text of a string value.
#[verifier::external_body]
pub fn json_as_str<'a>(v: &'a serde_json::Value) -> (r: Option<&'a str>)
    ensures
        match r {
            Option::Some(s) => json_view(*v) == JsonV::Text(s@),
            Option::None => !(json_view(*v) is Text),
        },
{
    v.as_str()
}

/// Relies on serde_json::Value::as_i64: the value of an integer-stored
/// number that fits a signed 64-bit word; `None` for floats, out-of-range
/// integers and non-numbers.
#[verifier::external_body]
pub fn json_as_i64(v: &serde_json::Value) -> (r: Option<i64>)
    ensures
        match r {
            Option::Some(x) => json_view(*v) == JsonV::IntNum(x as int),
            Option::None => !(json_view(*v) is IntNum && i64::MIN <= json_view(*v)->IntNum_0
                <= i64::MAX),
        },
{
    v.as_i64()
}

} // verus!
