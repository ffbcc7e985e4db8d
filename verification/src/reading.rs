//! Reading YAML and JSON text into the library's document tree, and writing a
//! tree in the JSON form that `serde_json` gives it, through `serde_yaml` and
//! `serde_json`.
use vstd::prelude::*;
use crate::yaml::{well_formed, Yaml, YamlValue};
use serde_json::Value as JsonNode;
use serde_yaml::value::{Tag, TaggedValue};
use serde_yaml::Value as YamlNode;

verus! {

#[verifier::external_type_specification]
#[verifier::external_body]
pub struct ExSerdeYamlValue(serde_yaml::Value);

#[verifier::external_type_specification]
#[verifier::external_body]
pub struct ExJsonValue(serde_json::Value);

/// The tree is what JSON can hold: no tags, and only string keys.
pub open spec fn json_shaped(y: Yaml) -> bool
    decreases y,
{
    match y {
        Yaml::Sequence(items) => forall|i: int| 0 <= i < items.len() ==> json_shaped(#[trigger] items[i]),
        Yaml::Mapping(pairs) => forall|i: int|
            0 <= i < pairs.len() ==> (#[trigger] pairs[i]).0 is Str && json_shaped(pairs[i].1),
        Yaml::Tagged(_, _) => false,
        _ => true,
    }
}

/// One-for-one conversion of a serde_yaml node into the library's tree: a tag
/// is kept as serde_yaml writes it, a number as its text.
#[verifier::external_body]
pub(crate) fn tree_of_yaml(v: &YamlNode) -> (r: YamlValue) {
    match v {
        YamlNode::Null => YamlValue::Null,
        YamlNode::Bool(b) => YamlValue::Bool(*b),
        YamlNode::Number(n) => YamlValue::Number(n.to_string()),
        YamlNode::String(s) => YamlValue::String(s.clone()),
        YamlNode::Sequence(s) => YamlValue::Sequence(s.iter().map(tree_of_yaml).collect()),
        YamlNode::Mapping(m) => YamlValue::Mapping(m.iter().map(|(k, v)| (tree_of_yaml(k), tree_of_yaml(v))).collect()),
        YamlNode::Tagged(t) => YamlValue::Tagged(t.tag.to_string(), Box::new(tree_of_yaml(&t.value))),
    }
}

/// One-for-one conversion of the library's tree into a serde_yaml node (a
/// number text that serde_yaml does not read, or an empty tag, which the
/// library's reading never gives, is kept as a string, or as the tag `!`).
#[verifier::external_body]
pub(crate) fn yaml_of_tree(v: &YamlValue) -> (r: YamlNode) {
    match v {
        YamlValue::Null => YamlNode::Null,
        YamlValue::Bool(b) => YamlNode::Bool(*b),
        YamlValue::Number(n) => n.parse().map_or(YamlNode::String(n.clone()), YamlNode::Number),
        YamlValue::String(s) => YamlNode::String(s.clone()),
        YamlValue::Sequence(s) => YamlNode::Sequence(s.iter().map(yaml_of_tree).collect()),
        YamlValue::Mapping(m) => YamlNode::Mapping(m.iter().map(|(k, v)| (yaml_of_tree(k), yaml_of_tree(v))).collect()),
        YamlValue::Tagged(t, i) => YamlNode::Tagged(Box::new(TaggedValue { tag: Tag::new(if t.is_empty() { "!" } else { t.as_str() }), value: yaml_of_tree(i) })),
    }
}

/// One-for-one conversion of a JSON value into the library's tree: an object
/// becomes a mapping with string keys, a number keeps its text.
#[verifier::external_body]
pub(crate) fn tree_of_json(v: &JsonNode) -> (r: YamlValue)
    ensures
        json_shaped(r@),
{
    match v {
        JsonNode::Null => YamlValue::Null,
        JsonNode::Bool(b) => YamlValue::Bool(*b),
        JsonNode::Number(n) => YamlValue::Number(n.to_string()),
        JsonNode::String(s) => YamlValue::String(s.clone()),
        JsonNode::Array(a) => YamlValue::Sequence(a.iter().map(tree_of_json).collect()),
        JsonNode::Object(m) => YamlValue::Mapping(m.iter().map(|(k, v)| (YamlValue::String(k.clone()), tree_of_json(v))).collect()),
    }
}

/// The document that `serde_yaml::from_str` reads from a text, when it reads one.
pub uninterp spec fn yaml_document(text: Seq<char>) -> Option<Yaml>;

/// What `serde_yaml::from_str` reports for a text it does not read.
pub uninterp spec fn yaml_syntax_error(text: Seq<char>) -> Option<Seq<char>>;

/// Reads YAML text with `serde_yaml::from_str` into a document tree. The
/// contract claims that the outcome is a function of the text: the document
/// `yaml_document` names, or the message `yaml_syntax_error` names.
#[verifier::external_body]
pub(crate) fn read_yaml(text: &str) -> (r: Result<YamlValue, String>)
    ensures
        match r {
            Ok(v) => yaml_document(text@) == Some(v@) && yaml_syntax_error(text@) is None,
            Err(m) => yaml_document(text@) is None && yaml_syntax_error(text@) == Some(m@),
        },
{
    match serde_yaml::from_str::<YamlNode>(text) {
        Ok(v) => Ok(tree_of_yaml(&v)),
        Err(e) => Err(e.to_string()),
    }
}

/// The JSON form that `serde_json::to_value` gives a document, when it gives one.
pub uninterp spec fn json_form(doc: Yaml) -> Option<Yaml>;

/// What `serde_json::to_value` reports for a document without a JSON form.
pub uninterp spec fn json_form_error(doc: Yaml) -> Option<Seq<char>>;

/// Writes a document in JSON form with `serde_json::to_value` (a tag becomes a
/// one-entry object, keys become strings where they can). The contract claims
/// that the outcome is a function of the document, and that the form is
/// JSON-shaped.
#[verifier::external_body]
pub(crate) fn to_json_form(doc: &YamlValue) -> (r: Result<YamlValue, String>)
    ensures
        match r {
            Ok(v) => json_form(doc@) == Some(v@) && json_form_error(doc@) is None && json_shaped(v@),
            Err(m) => json_form(doc@) is None && json_form_error(doc@) == Some(m@),
        },
{
    match serde_json::to_value(yaml_of_tree(doc)) {
        Ok(v) => Ok(tree_of_json(&v)),
        Err(e) => Err(e.to_string()),
    }
}

/// The value that `serde_json::from_str` reads from a JSON text, when it reads one.
pub uninterp spec fn json_document(text: Seq<char>) -> Option<Yaml>;

/// What `serde_json::from_str` reports for text that is not JSON.
pub uninterp spec fn json_syntax_error(text: Seq<char>) -> Option<Seq<char>>;

/// Reads JSON text with `serde_json::from_str`. The contract claims that the
/// outcome is a function of the text, and that the value is JSON-shaped with
/// distinct keys in every object (a `serde_json` map holds each key once).
#[verifier::external_body]
pub(crate) fn read_json(text: &str) -> (r: Result<YamlValue, String>)
    ensures
        match r {
            Ok(v) => json_document(text@) == Some(v@) && json_syntax_error(text@) is None && json_shaped(v@) && well_formed(v@),
            Err(m) => json_document(text@) is None && json_syntax_error(text@) == Some(m@),
        },
{
    match serde_json::from_str::<JsonNode>(text) {
        Ok(v) => Ok(tree_of_json(&v)),
        Err(e) => Err(e.to_string()),
    }
}

/// The JSON value that `serde_yaml::from_str` reads from a YAML text, when it
/// reads one.
pub uninterp spec fn yaml_json_document(text: Seq<char>) -> Option<Yaml>;

/// What `serde_yaml::from_str` reports for text that is not a YAML document
/// with a JSON counterpart.
pub uninterp spec fn yaml_to_json_error(text: Seq<char>) -> Option<Seq<char>>;

/// Reads YAML text into a JSON value with `serde_yaml::from_str`. The contract
/// claims that the outcome is a function of the text, and that the value is
/// JSON-shaped.
#[verifier::external_body]
pub(crate) fn read_yaml_as_json(text: &str) -> (r: Result<YamlValue, String>)
    ensures
        match r {
            Ok(v) => yaml_json_document(text@) == Some(v@) && yaml_to_json_error(text@) is None && json_shaped(v@),
            Err(m) => yaml_json_document(text@) is None && yaml_to_json_error(text@) == Some(m@),
        },
{
    match serde_yaml::from_str::<JsonNode>(text) {
        Ok(v) => Ok(tree_of_json(&v)),
        Err(e) => Err(e.to_string()),
    }
}

/// The YAML text that `serde_yaml::to_string` writes for a document, when it
/// writes one.
pub uninterp spec fn yaml_text(doc: Yaml) -> Option<Seq<char>>;

/// Writes a document as YAML text with `serde_yaml::to_string`. The contract
/// claims that the outcome is a function of the document.
#[verifier::external_body]
pub(crate) fn write_yaml(doc: &YamlValue) -> (r: Option<String>)
    ensures
        match r {
            Some(t) => yaml_text(doc@) == Some(t@),
            None => yaml_text(doc@) is None,
        },
{
    serde_yaml::to_string(&yaml_of_tree(doc)).ok()
}

/// The text without leading and trailing white space, as `str::trim` gives it.
pub uninterp spec fn trimmed(text: Seq<char>) -> Seq<char>;

/// `str::trim`, as an owned string. The contract claims that the result is a
/// function of the text, named by `trimmed`.
#[verifier::external_body]
pub(crate) fn trim_text(text: &str) -> (r: String)
    ensures
        r@ == trimmed(text@),
{
    text.trim().to_string()
}

} // verus!
