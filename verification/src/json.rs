//! One level of a JSON document, read with `serde_json`.

use vstd::prelude::*;
use serde_json::Value;

verus! {

/// The top level of a JSON value. Nested values are carried as their compact
/// JSON text (`Value`'s `Display`), to be read again when needed.
pub enum JsonNode {
    Null,
    Bool(bool),
    Number(String),
    Str(String),
    Array(Vec<String>),
    Object(Vec<(String, String)>),
}

/// A JSON node by its contents.
pub enum JsonNodeView {
    Null,
    Bool(bool),
    Number(Seq<char>),
    Str(Seq<char>),
    Array(Seq<Seq<char>>),
    Object(Seq<(Seq<char>, Seq<char>)>),
}

impl View for JsonNode {
    type V = JsonNodeView;

    open spec fn view(&self) -> JsonNodeView {
        match self {
            JsonNode::Null => JsonNodeView::Null,
            JsonNode::Bool(b) => JsonNodeView::Bool(*b),
            JsonNode::Number(n) => JsonNodeView::Number(n@),
            JsonNode::Str(s) => JsonNodeView::Str(s@),
            JsonNode::Array(a) => JsonNodeView::Array(a@.map_values(|t: String| t@)),
            JsonNode::Object(o) => JsonNodeView::Object(
                o@.map_values(|e: (String, String)| (e.0@, e.1@)),
            ),
        }
    }
}

/// What `serde_json::from_str::<serde_json::Value>` makes of `text`: the
/// top-level node with its children as compact JSON text, or the error's
/// message.
pub uninterp spec fn json_node(text: Seq<char>) -> Result<JsonNodeView, Seq<char>>;

/// `serde_json::from_str` into a `Value`, one level converted: a variant for
/// each variant, numbers and children written back with `to_string`, object
/// members in the map's iteration order, the error by its message. JSON
/// parsing itself is not restated: the contract names its outcome.
#[verifier::external_body]
pub(crate) fn parse_json(text: &str) -> (r: Result<JsonNode, String>)
    ensures
        match r {
            Ok(n) => json_node(text@) == Ok::<JsonNodeView, Seq<char>>(n@),
            Err(e) => json_node(text@) == Err::<JsonNodeView, Seq<char>>(e@),
        },
{
    match serde_json::from_str::<Value>(text) {
        Ok(Value::Null) => Ok(JsonNode::Null),
        Ok(Value::Bool(b)) => Ok(JsonNode::Bool(b)),
        Ok(Value::Number(n)) => Ok(JsonNode::Number(n.to_string())),
        Ok(Value::String(s)) => Ok(JsonNode::Str(s)),
        Ok(Value::Array(a)) => Ok(JsonNode::Array(a.iter().map(|v| v.to_string()).collect())),
        Ok(Value::Object(m)) => Ok(JsonNode::Object(m.iter().map(|(k, v)| (k.clone(), v.to_string())).collect())),
        Err(e) => Err(e.to_string()),
    }
}

} // verus!
