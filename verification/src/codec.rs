//! The text formats. Reading and writing them is the work of `yaml_rust2`
//! and `serde_json`, and checking a document against a schema that of
//! `jsonschema`. Nothing here is proved: each function says which outside
//! function it calls and states what this crate relies on. What a parser or
//! a printer returns is a function of what it is given, and has a name by
//! which the contracts of this crate speak of it.

use vstd::prelude::*;
use serde_json::Value;
use yaml_rust2::Yaml;
use crate::document::Document;
use crate::document::Tree;
use crate::schema::Violation;
use crate::schema::violations_view;
use crate::yaml::YamlNode;
use crate::yaml::YamlTree;
use crate::yaml::nodes_view;

verus! {

/// A node of `yaml_rust2`. Nothing is known of what it holds.
#[verifier::external_type_specification]
#[verifier::external_body]
pub struct ExYaml(yaml_rust2::Yaml);

/// A value of `serde_json`. Nothing is known of what it holds.
#[verifier::external_type_specification]
#[verifier::external_body]
pub struct ExValue(serde_json::Value);

/// A node of `yaml_rust2` as a node of this crate, variant for variant.
#[verifier::external_body]
fn node_of_yaml(yaml: &yaml_rust2::Yaml) -> YamlNode {
    match yaml {
        Yaml::Real(text) => YamlNode::Real(text.clone()),
        Yaml::Integer(i) => YamlNode::Integer(*i),
        Yaml::String(text) => YamlNode::String(text.clone()),
        Yaml::Boolean(b) => YamlNode::Boolean(*b),
        Yaml::Array(items) => YamlNode::Array(items.iter().map(node_of_yaml).collect()),
        Yaml::Hash(pairs) => YamlNode::Hash(
            pairs.iter().map(|(k, v)| (node_of_yaml(k), node_of_yaml(v))).collect(),
        ),
        Yaml::Alias(id) => YamlNode::Alias(*id),
        Yaml::Null => YamlNode::Null,
        Yaml::BadValue => YamlNode::BadValue,
    }
}

/// A node of this crate as a node of `yaml_rust2`, variant for variant. The
/// pairs of a hash are put into the hash of `yaml_rust2` in their order.
#[verifier::external_body]
fn yaml_of_node(node: &YamlNode) -> yaml_rust2::Yaml {
    match node {
        YamlNode::Real(text) => Yaml::Real(text.clone()),
        YamlNode::Integer(i) => Yaml::Integer(*i),
        YamlNode::String(text) => Yaml::String(text.clone()),
        YamlNode::Boolean(b) => Yaml::Boolean(*b),
        YamlNode::Array(items) => Yaml::Array(items.iter().map(yaml_of_node).collect()),
        YamlNode::Hash(pairs) => Yaml::Hash(
            pairs.iter().map(|(k, v)| (yaml_of_node(k), yaml_of_node(v))).collect(),
        ),
        YamlNode::Alias(id) => Yaml::Alias(*id),
        YamlNode::Null => Yaml::Null,
        YamlNode::BadValue => Yaml::BadValue,
    }
}

/// What `yaml_rust2::YamlLoader::load_from_str` makes of a text: the
/// documents that it holds, or the reason why it is no markup.
pub uninterp spec fn yaml_text_documents(text: Seq<char>) -> Result<Seq<YamlTree>, Seq<char>>;

/// `yaml_rust2::YamlLoader::load_from_str`: the documents of a markup text,
/// or the scanner's message where the text is malformed.
#[verifier::external_body]
pub(crate) fn load_yaml(text: &str) -> (loaded: Result<Vec<YamlNode>, String>)
    ensures
        match loaded {
            Ok(nodes) => yaml_text_documents(text@) == Ok::<Seq<YamlTree>, Seq<char>>(
                nodes_view(nodes@),
            ),
            Err(why) => yaml_text_documents(text@) == Err::<Seq<YamlTree>, Seq<char>>(why@),
        },
{
    match yaml_rust2::YamlLoader::load_from_str(text) {
        Ok(documents) => Ok(documents.iter().map(node_of_yaml).collect()),
        Err(fault) => Err(fault.to_string()),
    }
}

/// The text that `yaml_rust2::YamlEmitter::dump` writes for a node.
pub uninterp spec fn yaml_document_text(node: YamlTree) -> Seq<char>;

/// `yaml_rust2::YamlEmitter::dump` into a new string.
#[verifier::external_body]
pub(crate) fn emit_yaml(node: &YamlNode) -> (text: String)
    ensures
        text@ == yaml_document_text(node@),
{
    let mut text = String::new();
    let _ = yaml_rust2::YamlEmitter::new(&mut text).dump(&yaml_of_node(node));
    text
}

/// The text that `serde_json` prints for the number that a decimal text
/// denotes, and nothing where the text denotes no finite number.
pub uninterp spec fn real_number_text(text: Seq<char>) -> Option<Seq<char>>;

/// The text of a real as `serde_json` prints it. `str::parse` of the
/// standard library reads the text as a binary number of 64 bits,
/// `serde_json::Number::from_f64` takes that number where it is finite, and
/// `serde_json::Number::to_string` prints it. The result is nothing where
/// the text does not parse or the number is not finite.
#[verifier::external_body]
pub(crate) fn number_text(text: &str) -> (number: Option<String>)
    ensures
        match number {
            Some(printed) => real_number_text(text@) == Some(printed@),
            None => real_number_text(text@) is None,
        },
{
    text.parse().ok().and_then(serde_json::Number::from_f64).map(|number| number.to_string())
}

/// A value of `serde_json` as a document. A number that `as_i64` gives is an
/// integer, and any other number is held as the text that prints it.
#[verifier::external_body]
fn document_of_value(value: &serde_json::Value) -> Document {
    match value {
        Value::Null => Document::Null,
        Value::Bool(b) => Document::Bool(*b),
        Value::Number(number) => match number.as_i64() {
            Some(i) => Document::Integer(i),
            None => Document::Float(number.to_string()),
        },
        Value::String(text) => Document::String(text.clone()),
        Value::Array(items) => Document::Array(items.iter().map(document_of_value).collect()),
        Value::Object(map) => Document::Object(
            map.iter().map(|(k, v)| (k.clone(), document_of_value(v))).collect(),
        ),
    }
}

/// A document as a value of `serde_json`. The text of a float is read back
/// as a number by `serde_json::from_str`, and stands for null where it is
/// none. The entries of an object are put into the map in their order.
#[verifier::external_body]
fn value_of_document(document: &Document) -> serde_json::Value {
    match document {
        Document::Null => Value::Null,
        Document::Bool(b) => Value::Bool(*b),
        Document::Integer(i) => Value::Number((*i).into()),
        Document::Float(text) => serde_json::from_str(text).map_or(Value::Null, Value::Number),
        Document::String(text) => Value::String(text.clone()),
        Document::Array(items) => Value::Array(items.iter().map(value_of_document).collect()),
        Document::Object(entries) => Value::Object(
            entries.iter().map(|(k, v)| (k.clone(), value_of_document(v))).collect(),
        ),
    }
}

/// What `serde_json::from_str` makes of a text: the document that it
/// spells, or the reason why it is no flat text.
pub uninterp spec fn json_text_document(text: Seq<char>) -> Result<Tree, Seq<char>>;

/// `serde_json::from_str`: the document of a flat text, or the parser's
/// message where the text is malformed. No object of the document has a key
/// twice: a `serde_json::Map` holds each key once.
#[verifier::external_body]
pub(crate) fn parse_json(text: &str) -> (parsed: Result<Document, String>)
    ensures
        match parsed {
            Ok(document) => json_text_document(text@) == Ok::<Tree, Seq<char>>(document@)
                && document@.wf(),
            Err(why) => json_text_document(text@) == Err::<Tree, Seq<char>>(why@),
        },
{
    match serde_json::from_str::<Value>(text) {
        Ok(value) => Ok(document_of_value(&value)),
        Err(fault) => Err(fault.to_string()),
    }
}

/// The compact text that `serde_json` prints for a document.
pub uninterp spec fn json_document_text(document: Tree) -> Seq<char>;

/// `serde_json::Value::to_string`: the compact flat text of a document.
#[verifier::external_body]
pub(crate) fn print_json(document: &Document) -> (text: String)
    ensures
        text@ == json_document_text(document@),
{
    value_of_document(document).to_string()
}

/// What `jsonschema` finds wrong with an instance under a schema: the
/// message and the location of every error that `Validator::iter_errors`
/// yields for the validator that `jsonschema::validator_for` makes of the
/// schema, in the order in which they are yielded. Where the schema is
/// itself unusable, it is the one error that `validator_for` returns.
pub uninterp spec fn schema_findings(schema: Tree, instance: Tree) -> Seq<(Seq<char>, Seq<char>)>;

/// `jsonschema::validator_for` and `Validator::iter_errors`: every way in
/// which `instance` does not conform to `schema`, in the order in which the
/// validator reports them. A schema that is itself unusable gives one
/// finding, whose location points into the schema. With the default
/// features of `jsonschema` off nothing is fetched, and its hashed maps are
/// only looked up, so what is found depends on the two documents alone.
#[verifier::external_body]
pub(crate) fn findings(schema: &Document, instance: &Document) -> (found: Vec<Violation>)
    ensures
        violations_view(found@) == schema_findings(schema@, instance@),
{
    let instance = value_of_document(instance);
    match jsonschema::validator_for(&value_of_document(schema)) {
        Ok(validator) => validator.iter_errors(&instance).map(
            |fault| Violation {
                message: fault.to_string(),
                location: fault.instance_path().to_string(),
            },
        ).collect(),
        Err(fault) => vec![
            Violation { message: fault.to_string(), location: fault.instance_path().to_string() },
        ],
    }
}

} // verus!
