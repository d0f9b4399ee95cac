//! The JSON parser.
use crate::parser::Parser;
use crate::parser::reads_as;
use crate::value::from_outside;
use crate::value::outside_tree;
use crate::value::Tree;
use crate::value::Value;
use vstd::prelude::*;

verus! {

/// Parses JSON documents.
#[derive(Debug, Clone, Copy)]
pub struct Json;

/// What `serde_json` reads from the bytes of a JSON document: the value, or
/// the text of its error.
pub uninterp spec fn json_document(bytes: Seq<u8>) -> Result<Tree, Seq<char>>;

/// Whether `serde_json` reads the bytes as a JSON value of any kind.
pub uninterp spec fn json_well_formed(bytes: Seq<u8>) -> bool;

/// `serde_json::from_slice` for a configuration value: the value that the document
/// holds, or the text of the error.
#[verifier::external_body]
fn read_json(bytes: &[u8]) -> (document: Result<plugx_input::Input, String>)
    ensures
        match document {
            Ok(outside) => json_document(bytes@) == Ok::<Tree, Seq<char>>(outside_tree(outside)),
            Err(error) => json_document(bytes@) == Err::<Tree, Seq<char>>(error@),
        },
{
    serde_json::from_slice::<plugx_input::Input>(bytes).map_err(|error| error.to_string())
}

/// `serde_json::from_slice` for any JSON value: whether it succeeds.
#[verifier::external_body]
fn is_json(bytes: &[u8]) -> (yes: bool)
    ensures
        yes == json_well_formed(bytes@),
{
    serde_json::from_slice::<serde_json::Value>(bytes).is_ok()
}

impl Json {
    /// The JSON parser.
    pub fn new() -> (parser: Self)
        ensures
            parser == Json,
    {
        Json
    }
}

impl Parser for Json {
    fn name(&self) -> (name: String)
        ensures
            name@ == "JSON"@,
    {
        "JSON".to_owned()
    }

    fn supported_format_list(&self) -> (list: Vec<String>)
        ensures
            list.deep_view() == seq!["json"@],
    {
        let mut list: Vec<String> = Vec::new();
        list.push("json".to_owned());
        proof {
            assert(list.deep_view() =~= seq!["json"@]);
        }
        list
    }

    fn try_parse(&self, bytes: &[u8]) -> (document: Result<Value, String>)
        ensures
            reads_as(document, json_document(bytes@)),
    {
        match read_json(bytes) {
            Ok(outside) => Ok(from_outside(&outside)),
            Err(error) => Err(error),
        }
    }

    fn is_format_supported(&self, bytes: &[u8]) -> (supported: Option<bool>)
        ensures
            supported == Some(json_well_formed(bytes@)),
    {
        Some(is_json(bytes))
    }
}

} // verus!
