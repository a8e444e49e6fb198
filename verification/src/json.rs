//! Access to `serde_json`'s parser and its JSON Pointer lookup.
//!
//! A parsed document is held opaque, tagged with the text it was parsed
//! from; what a lookup finds is named as a function of that text and the
//! pointer (RFC 6901), and handed back as the plain `JsonNode`.

use vstd::prelude::*;

verus! {

#[verifier::external_type_specification]
#[verifier::external_body]
pub struct ExJsonValue(serde_json::Value);

/// A parsed JSON document, with the text it was parsed from.
pub struct JsonDoc {
    value: serde_json::Value,
    text: Ghost<Seq<char>>,
}

impl JsonDoc {
    /// The text the document was parsed from.
    pub closed spec fn source(&self) -> Seq<char> {
        self.text@
    }
}

/// The kind of a JSON value, with the text of a string.
#[derive(Debug)]
pub enum JsonNode {
    Null,
    Bool(bool),
    Number,
    Str(String),
    Array,
    Object,
}

/// A JSON value's kind, with the text of a string, as plain values.
pub enum JsonNodeModel {
    Null,
    Bool(bool),
    Number,
    Str(Seq<char>),
    Array,
    Object,
}

pub open spec fn node_view(n: JsonNode) -> JsonNodeModel {
    match n {
        JsonNode::Null => JsonNodeModel::Null,
        JsonNode::Bool(b) => JsonNodeModel::Bool(b),
        JsonNode::Number => JsonNodeModel::Number,
        JsonNode::Str(s) => JsonNodeModel::Str(s@),
        JsonNode::Array => JsonNodeModel::Array,
        JsonNode::Object => JsonNodeModel::Object,
    }
}

/// Whether `serde_json` accepts `text` as one JSON document.
pub uninterp spec fn json_valid(text: Seq<char>) -> bool;

/// What `serde_json::Value::pointer` finds at `pointer` in the document
/// `serde_json` parses from `text`.
pub uninterp spec fn json_pointer(text: Seq<char>, pointer: Seq<char>) -> Option<JsonNodeModel>;

/// `serde_json::from_str` into a `Value`. Claimed: whether it succeeds is a
/// function of the text alone (`json_valid`), and the document is tagged
/// with that text.
#[verifier::external_body]
pub(crate) fn json_parse(text: &str) -> (r: Option<JsonDoc>)
    ensures
        r is Some <==> json_valid(text@),
        r matches Some(d) ==> d.source() == text@,
{
    match serde_json::from_str::<serde_json::Value>(text) {
        Ok(value) => Some(JsonDoc { value, text: Ghost(text@) }),
        Err(_) => None,
    }
}

/// `serde_json::Value::pointer`, the value's kind (and a string's text)
/// copied out. Claimed: the result is a function of the document's text and
/// the pointer (`json_pointer`).
#[verifier::external_body]
pub(crate) fn json_at(doc: &JsonDoc, pointer: &str) -> (r: Option<JsonNode>)
    ensures
        match json_pointer(doc.source(), pointer@) {
            None => r is None,
            Some(m) => r matches Some(n) && node_view(n) == m,
        },
{
    match doc.value.pointer(pointer) {
        None => None,
        Some(serde_json::Value::Null) => Some(JsonNode::Null),
        Some(serde_json::Value::Bool(b)) => Some(JsonNode::Bool(*b)),
        Some(serde_json::Value::Number(_)) => Some(JsonNode::Number),
        Some(serde_json::Value::String(s)) => Some(JsonNode::Str(s.clone())),
        Some(serde_json::Value::Array(_)) => Some(JsonNode::Array),
        Some(serde_json::Value::Object(_)) => Some(JsonNode::Object),
    }
}

} // verus!
