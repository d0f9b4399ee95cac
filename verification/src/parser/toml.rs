//! The TOML parser.
use crate::parser::Parser;
use crate::parser::reads_as;
use crate::text::text_of_bytes;
use crate::value::from_outside;
use crate::value::outside_tree;
use crate::value::Tree;
use crate::value::Value;
use vstd::prelude::*;

verus! {

/// Parses TOML documents.
#[derive(Debug, Clone, Copy)]
pub struct Toml;

/// What the `toml` crate reads from the text of a TOML document: the value,
/// or the text of its error.
pub uninterp spec fn toml_document(text: Seq<char>) -> Result<Tree, Seq<char>>;

/// Whether the `toml` crate reads the text as a TOML document of any kind.
pub uninterp spec fn toml_well_formed(text: Seq<char>) -> bool;

/// `toml::from_str` for a configuration value: the value that the document
/// holds, or the text of the error.
#[verifier::external_body]
fn read_toml(text: &str) -> (document: Result<plugx_input::Input, String>)
    ensures
        match document {
            Ok(outside) => toml_document(text@) == Ok::<Tree, Seq<char>>(outside_tree(outside)),
            Err(error) => toml_document(text@) == Err::<Tree, Seq<char>>(error@),
        },
{
    toml::from_str::<plugx_input::Input>(text).map_err(|error| error.to_string())
}

/// `toml::from_str` for any TOML value: whether it succeeds.
#[verifier::external_body]
fn is_toml(text: &str) -> (yes: bool)
    ensures
        yes == toml_well_formed(text@),
{
    toml::from_str::<toml::Value>(text).is_ok()
}

/// What the TOML parser gives for the bytes of a document: bytes that are no
/// UTF-8 are refused, the text of the others is read as TOML.
pub open spec fn toml_reading(bytes: Seq<u8>) -> Result<Tree, Seq<char>> {
    if vstd::utf8::valid_utf8(bytes) {
        toml_document(vstd::utf8::decode_utf8(bytes))
    } else {
        Err("Could not decode contents to UTF-8"@)
    }
}

impl Toml {
    /// The TOML parser.
    pub fn new() -> (parser: Self)
        ensures
            parser == Toml,
    {
        Toml
    }
}

impl Parser for Toml {
    fn name(&self) -> (name: String)
        ensures
            name@ == "TOML"@,
    {
        "TOML".to_owned()
    }

    fn supported_format_list(&self) -> (list: Vec<String>)
        ensures
            list.deep_view() == seq!["toml"@],
    {
        let mut list: Vec<String> = Vec::new();
        list.push("toml".to_owned());
        proof {
            assert(list.deep_view() =~= seq!["toml"@]);
        }
        list
    }

    fn try_parse(&self, bytes: &[u8]) -> (document: Result<Value, String>)
        ensures
            reads_as(document, toml_reading(bytes@)),
    {
        match text_of_bytes(bytes) {
            Some(text) => match read_toml(text.as_str()) {
                Ok(outside) => Ok(from_outside(&outside)),
                Err(error) => Err(error),
            },
            None => Err("Could not decode contents to UTF-8".to_owned()),
        }
    }

    fn is_format_supported(&self, bytes: &[u8]) -> (supported: Option<bool>)
        ensures
            supported == Some(
                vstd::utf8::valid_utf8(bytes@) && toml_well_formed(
                    vstd::utf8::decode_utf8(bytes@),
                ),
            ),
    {
        match text_of_bytes(bytes) {
            Some(text) => Some(is_toml(text.as_str())),
            None => Some(false),
        }
    }
}

} // verus!
