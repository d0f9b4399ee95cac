//! Parsing: the parser interface and the error that parsing gives.
use crate::text::lossy_text;
use crate::value::Tree;
use crate::value::Value;
use vstd::prelude::*;

pub mod closure;
pub mod env;
pub mod json;
pub mod toml;
pub mod yaml;

verus! {

/// Why contents could not be parsed.
#[derive(Debug)]
pub enum Error {
    /// A parser refused the contents.
    Parse { data: String, parser: String, supported_format_list: Vec<String>, source: String },
    /// No parser takes the format (`Some`), or the entity has no format and
    /// no parser recognised its contents (`None`).
    ParserNotFound { format: Option<String> },
}

/// `true` when what a parser returned is what the named reading of a
/// document gives: the same tree, or the same error text.
pub open spec fn reads_as(document: Result<Value, String>, named: Result<Tree, Seq<char>>) -> bool {
    match document {
        Ok(value) => named == Ok::<Tree, Seq<char>>(value@),
        Err(error) => named == Err::<Tree, Seq<char>>(error@),
    }
}

/// Turns raw contents into a configuration value.
pub trait Parser {
    /// The parser's name, for messages.
    fn name(&self) -> String;

    /// The formats that this parser takes (such as `yml`).
    fn supported_format_list(&self) -> Vec<String>;

    /// Parses the contents, or says why it cannot.
    fn try_parse(&self, bytes: &[u8]) -> Result<Value, String>;

    /// Whether the contents look like this parser's format; `None` where the
    /// parser cannot tell.
    fn is_format_supported(&self, bytes: &[u8]) -> Option<bool>;

    /// Parses the contents; a failure comes back with the contents, the
    /// parser's name and its formats beside the reason.
    fn parse(&self, bytes: &[u8]) -> (parsed: Result<Value, Error>)
        ensures
            match parsed {
                Ok(value) => call_ensures(Self::try_parse, (self, bytes), Ok(value)),
                Err(Error::Parse { data, parser, supported_format_list, source }) => {
                    &&& call_ensures(Self::try_parse, (self, bytes), Err(source))
                    &&& call_ensures(Self::name, (self,), parser)
                    &&& call_ensures(Self::supported_format_list, (self,), supported_format_list)
                    &&& vstd::utf8::valid_utf8(bytes@) ==> data@ == vstd::utf8::decode_utf8(bytes@)
                },
                Err(Error::ParserNotFound { .. }) => false,
            },
    {
        match self.try_parse(bytes) {
            Ok(value) => Ok(value),
            Err(source) => Err(
                Error::Parse {
                    data: lossy_text(bytes),
                    parser: self.name(),
                    supported_format_list: self.supported_format_list(),
                    source,
                },
            ),
        }
    }
}

} // verus!
