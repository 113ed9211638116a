//! A plain model of a YAML document, as `serde_yaml` reads it.
use vstd::prelude::*;
use crate::schema_error::SchemaLocation;
use serde_yaml::Value;

verus! {

/// A YAML value. Integers keep their exact value; a floating-point number is only marked.
#[derive(Debug)]
pub enum YamlNode {
    Null,
    Bool(bool),
    Int(i128),
    Float,
    Str(String),
    Sequence(Vec<YamlNode>),
    Mapping(Vec<YamlEntry>),
    Tagged,
}

/// One key/value pair of a YAML mapping.
#[derive(Debug)]
pub struct YamlEntry {
    pub key: YamlNode,
    pub value: YamlNode,
}

/// Why a YAML text could not be read: the parser's message and, when known, its position.
#[derive(Debug)]
pub struct YamlFailure {
    pub message: String,
    pub location: Option<SchemaLocation>,
}

/// `serde_yaml::Value`, a parsed YAML value; carried through unread.
#[verifier::external_type_specification]
#[verifier::external_body]
pub struct ExYamlValue(Value);

/// What `serde_yaml` reads from the text `text`.
pub uninterp spec fn yaml_document(text: Seq<char>) -> Result<YamlNode, YamlFailure>;

/// `serde_yaml::from_str::<serde_yaml::Value>`, with the value carried over into a
/// [`YamlNode`] and the error into a [`YamlFailure`]. Claims only that the result is
/// what `serde_yaml` reads from the text, named `yaml_document`.
#[verifier::external_body]
pub(crate) fn read_yaml_document(text: &str) -> (r: Result<YamlNode, YamlFailure>)
    ensures
        r == yaml_document(text@),
{
    match serde_yaml::from_str::<Value>(text) {
        Ok(value) => Ok(node_from_value(&value)),
        Err(err) => Err(YamlFailure {
            message: err.to_string(),
            location: err.location().map(|l| SchemaLocation { line: l.line(), column: l.column() }),
        }),
    }
}

/// Carries a `serde_yaml::Value` over into a [`YamlNode`], variant by variant.
#[verifier::external_body]
fn node_from_value(value: &Value) -> YamlNode {
    match value {
        Value::Null => YamlNode::Null,
        Value::Bool(b) => YamlNode::Bool(*b),
        Value::Number(n) => match (n.as_i64(), n.as_u64()) {
            (Some(i), _) => YamlNode::Int(i as i128),
            (None, Some(u)) => YamlNode::Int(u as i128),
            _ => YamlNode::Float,
        },
        Value::String(s) => YamlNode::Str(s.clone()),
        Value::Sequence(items) => YamlNode::Sequence(items.iter().map(node_from_value).collect()),
        Value::Mapping(map) => YamlNode::Mapping(map.iter()
            .map(|(k, v)| YamlEntry { key: node_from_value(k), value: node_from_value(v) }).collect()),
        Value::Tagged(_) => YamlNode::Tagged,
    }
}

} // verus!
