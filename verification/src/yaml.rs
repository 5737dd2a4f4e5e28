//! Parsed configuration documents.
//!
//! The loader inspects configuration text through [`Yaml`], a plain document
//! tree. Producing the tree from text is the one piece of outside work here:
//! [`parse_yaml_text`] delegates it to `serde_yaml` and is trusted, while
//! everything that reads the tree is verified against [`yaml_doc`].

use vstd::prelude::*;

verus! {

/// A parsed configuration document: the subset of a YAML tree that the
/// loader inspects. Scalars other than strings keep only a textual
/// rendering, and tagged nodes keep only the inner value; the schema
/// rejects both wherever they appear.
#[derive(Debug)]
pub enum Yaml {
    Null,
    Bool(bool),
    Number(String),
    Str(String),
    Sequence(Vec<Yaml>),
    Mapping(Vec<(Yaml, Yaml)>),
    Tagged(Box<Yaml>),
}

#[verifier::external_type_specification]
#[verifier::external_body]
pub struct ExYamlValue(serde_yaml::Value);

/// What parsing a text as YAML yields: `Some` with the document tree when
/// the text is a well-formed document, `None` otherwise. The outcome is a
/// function of the text alone.
pub uninterp spec fn yaml_doc(s: Seq<char>) -> Option<Yaml>;

/// Rebuilds a `serde_yaml` tree as a [`Yaml`] tree, one variant at a time:
/// numbers keep their textual rendering and tagged nodes keep only the
/// inner value.
#[verifier::external_body]
fn yaml_of_value(v: serde_yaml::Value) -> Yaml {
    match v {
        serde_yaml::Value::Null => Yaml::Null,
        serde_yaml::Value::Bool(b) => Yaml::Bool(b),
        serde_yaml::Value::Number(n) => Yaml::Number(n.to_string()),
        serde_yaml::Value::String(s) => Yaml::Str(s),
        serde_yaml::Value::Sequence(items) => Yaml::Sequence(
            items.into_iter().map(yaml_of_value).collect(),
        ),
        serde_yaml::Value::Mapping(entries) => Yaml::Mapping(
            entries.into_iter().map(|(k, w)| (yaml_of_value(k), yaml_of_value(w))).collect(),
        ),
        serde_yaml::Value::Tagged(t) => Yaml::Tagged(Box::new(yaml_of_value(t.value))),
    }
}

/// Relies on `serde_yaml::from_str`: parses a text into a YAML document
/// tree, or reports a syntax error; the result depends on the text alone.
/// The error message is the parser's diagnostic.
#[verifier::external_body]
pub(crate) fn parse_yaml_text(s: &str) -> (r: Result<Yaml, String>)
    ensures
        r is Ok <==> yaml_doc(s@) is Some,
        r matches Ok(y) ==> yaml_doc(s@) == Some(y),
{
    match serde_yaml::from_str::<serde_yaml::Value>(s) {
        Ok(v) => Ok(yaml_of_value(v)),
        Err(e) => Err(e.to_string()),
    }
}

} // verus!
