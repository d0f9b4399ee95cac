//! The error of the whole pipeline, which says in which stage it arose.
use crate::loader::ConfigurationLoadError;
use crate::source::Url;
use vstd::prelude::*;

verus! {

/// Why configuration could not be resolved.
#[derive(Debug)]
#[allow(inconsistent_fields)]
pub enum Error {
    /// Loading failed.
    Load { source: ConfigurationLoadError },
    /// Parsing the contents that `url` gave for `plugin_name` failed.
    Parse { plugin_name: String, url: Url, source: crate::parser::Error },
    /// The merged configuration of `plugin_name` does not fit its schema.
    Validate { plugin_name: String, source: String },
    /// Anything else.
    Other(String),
}

impl From<ConfigurationLoadError> for Error {
    fn from(source: ConfigurationLoadError) -> (error: Self) {
        Error::Load { source }
    }
}

impl vstd::std_specs::convert::FromSpecImpl<ConfigurationLoadError> for Error {
    open spec fn obeys_from_spec() -> bool {
        true
    }

    open spec fn from_spec(source: ConfigurationLoadError) -> Self {
        Error::Load { source }
    }
}

impl From<(String, Url, crate::parser::Error)> for Error {
    fn from(parts: (String, Url, crate::parser::Error)) -> (error: Self) {
        let (plugin_name, url, source) = parts;
        Error::Parse { plugin_name, url, source }
    }
}

impl vstd::std_specs::convert::FromSpecImpl<(String, Url, crate::parser::Error)> for Error {
    open spec fn obeys_from_spec() -> bool {
        true
    }

    open spec fn from_spec(parts: (String, Url, crate::parser::Error)) -> Self {
        Error::Parse { plugin_name: parts.0, url: parts.1, source: parts.2 }
    }
}

} // verus!
