//! The YAML parser.
use crate::parser::Parser;
use crate::parser::reads_as;
use crate::value::from_outside;
use crate::value::outside_tree;
use crate::value::Tree;
use crate::value::Value;
use vstd::prelude::*;

verus! {

/// Parses YAML documents.
#[derive(Debug, Clone, Copy)]
pub struct Yaml;

/// What `serde_yaml` reads from the bytes of a YAML document: the value, or
/// the text of its error.
pub uninterp spec fn yaml_document(bytes: Seq<u8>) -> Result<Tree, Seq<char>>;

/// Whether `serde_yaml` reads the bytes as a YAML value of any kind.
pub uninterp spec fn yaml_well_formed(bytes: Seq<u8>) -> bool;

/// `serde_yaml::from_slice` for a configuration value: the value that the document
/// holds, or the text of the error.
#[verifier::external_body]
fn read_yaml(bytes: &[u8]) -> (document: Result<plugx_input::Input, String>)
    ensures
        match document {
            Ok(outside) => yaml_document(bytes@) == Ok::<Tree, Seq<char>>(outside_tree(outside)),
            Err(error) => yaml_document(bytes@) == Err::<Tree, Seq<char>>(error@),
        },
{
    serde_yaml::from_slice::<plugx_input::Input>(bytes).map_err(|error| error.to_string())
}

/// `serde_yaml::from_slice` for any YAML value: whether it succeeds.
#[verifier::external_body]
fn is_yaml(bytes: &[u8]) -> (yes: bool)
    ensures
        yes == yaml_well_formed(bytes@),
{
    serde_yaml::from_slice::<serde_yaml::Value>(bytes).is_ok()
}

impl Yaml {
    /// The YAML parser.
    pub fn new() -> (parser: Self)
        ensures
            parser == Yaml,
    {
        Yaml
    }
}

impl Parser for Yaml {
    fn name(&self) -> (name: String)
        ensures
            name@ == "YAML"@,
    {
        "YAML".to_owned()
    }

    fn supported_format_list(&self) -> (list: Vec<String>)
        ensures
            list.deep_view() == seq!["yml"@, "yaml"@],
    {
        let mut list: Vec<String> = Vec::new();
        list.push("yml".to_owned());
        list.push("yaml".to_owned());
        proof {
            assert(list.deep_view() =~= seq!["yml"@, "yaml"@]);
        }
        list
    }

    fn try_parse(&self, bytes: &[u8]) -> (document: Result<Value, String>)
        ensures
            reads_as(document, yaml_document(bytes@)),
    {
        match read_yaml(bytes) {
            Ok(outside) => Ok(from_outside(&outside)),
            Err(error) => Err(error),
        }
    }

    fn is_format_supported(&self, bytes: &[u8]) -> (supported: Option<bool>)
        ensures
            supported == Some(yaml_well_formed(bytes@)),
    {
        Some(is_yaml(bytes))
    }
}

} // verus!
