//! The structured-data boundary: parsing an embedded JSON-shaped block is
//! taken from the JSON engine and named, so that every lookup over the
//! parsed tree can be verified as a function of the block text alone.
use vstd::prelude::*;

use crate::tree::{JsonNode, JsonVal};

verus! {

#[verifier::external_type_specification]
#[verifier::external_body]
pub struct ExSerdeValue(serde_json::Value);

/// The tree that the block text parses to, if it is well-formed JSON.
/// Names the result of `serde_json::from_str::<serde_json::Value>`, which
/// depends on the text alone; object entries come out in the parser's
/// key-sorted order, so the same text always gives the same tree.
pub uninterp spec fn json_parse(text: Seq<char>) -> Option<JsonVal>;

/// Relies on serde_json::Value variant inspection: rebuilds the parsed
/// value as the library's own nodes, one arm per variant, moving only the
/// payloads. Numbers keep serde_json's exact text rendering.
#[verifier::external_body]
fn node_of_value(v: &serde_json::Value) -> JsonNode {
    match v {
        serde_json::Value::Null => JsonNode::Null,
        serde_json::Value::Bool(b) => JsonNode::Bool(*b),
        serde_json::Value::Number(n) => JsonNode::Num(n.to_string()),
        serde_json::Value::String(s) => JsonNode::Str(s.clone()),
        serde_json::Value::Array(a) => JsonNode::Arr(a.iter().map(node_of_value).collect()),
        serde_json::Value::Object(m) => JsonNode::Obj(
            m.iter().map(|(k, x)| (k.clone(), node_of_value(x))).collect(),
        ),
    }
}

/// Relies on serde_json::from_str: parses one JSON document from the text,
/// or fails; which of the two happens, and the tree produced, depend on the
/// text alone.
#[verifier::external_body]
pub fn parse_structured(text: &str) -> (r: Option<JsonNode>)
    ensures
        r is Some <==> json_parse(text@) is Some,
        r matches Some(t) ==> json_parse(text@) == Some(t@),
{
    match serde_json::from_str::<serde_json::Value>(text) {
        Ok(v) => Some(node_of_value(&v)),
        Err(_) => None,
    }
}

} // verus!
