//! Reading JSON documents through the `serde_json` crate, by JSON pointers.
use serde_json::Value;
use crate::text::opt_str;
use vstd::prelude::*;
use vstd::string::*;

verus! {

/// What stands at a place of a JSON document.
#[derive(Debug, PartialEq, Eq)]
pub enum JsonShape {
    /// Nothing: the document is no JSON, or has no such place.
    Absent,
    Null,
    Boolean(bool),
    /// A number, by the bits of its double.
    Number(u64),
    Text(String),
    /// An array, by its length.
    List(usize),
    Object,
}

/// What stands at a place of a JSON document, as text and numbers.
pub enum JsonAt {
    Absent,
    Null,
    Boolean(bool),
    Number(u64),
    Text(Seq<char>),
    List(nat),
    Object,
}

impl View for JsonShape {
    type V = JsonAt;

    open spec fn view(&self) -> JsonAt {
        match self {
            JsonShape::Absent => JsonAt::Absent,
            JsonShape::Null => JsonAt::Null,
            JsonShape::Boolean(b) => JsonAt::Boolean(*b),
            JsonShape::Number(n) => JsonAt::Number(*n),
            JsonShape::Text(s) => JsonAt::Text(s@),
            JsonShape::List(n) => JsonAt::List(*n as nat),
            JsonShape::Object => JsonAt::Object,
        }
    }
}

/// What `serde_json` finds in the document `doc` at the JSON pointer `pointer`.
pub uninterp spec fn json_at(doc: Seq<char>, pointer: Seq<char>) -> JsonAt;

/// Calls `serde_json::from_str` and `Value::pointer` and tells what is there.
/// The result is named [`json_at`]; nothing more is said of it.
#[verifier::external_body]
pub(crate) fn look_up(doc: &str, pointer: &str) -> (r: JsonShape)
    ensures
        r@ == json_at(doc@, pointer@),
{
    let value: Option<Value> = serde_json::from_str(doc).ok();
    match value.as_ref().and_then(|v| v.pointer(pointer)) {
        None => JsonShape::Absent,
        Some(Value::Null) => JsonShape::Null,
        Some(Value::Bool(b)) => JsonShape::Boolean(*b),
        Some(Value::Number(n)) => {
            JsonShape::Number(n.as_f64().unwrap_or_default().to_bits())
        },
        Some(Value::String(s)) => JsonShape::Text(s.clone()),
        Some(Value::Array(a)) => JsonShape::List(a.len()),
        Some(Value::Object(_)) => JsonShape::Object,
    }
}

/// The string at a place of a document.
pub open spec fn text_of(at: JsonAt) -> Option<Seq<char>> {
    match at {
        JsonAt::Text(s) => Some(s),
        _ => None,
    }
}

/// The string at a place, where there is one.
pub fn text_at(doc: &str, pointer: &str) -> (r: Option<String>)
    ensures
        opt_str(r) == text_of(json_at(doc@, pointer@)),
{
    match look_up(doc, pointer) {
        JsonShape::Text(s) => Some(s),
        _ => None,
    }
}

} // verus!
