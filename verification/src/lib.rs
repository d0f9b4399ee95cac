//! Resolves configuration for the plugins of an application: gathers each
//! plugin's fragments from sources of several kinds and formats, merges them
//! in the order in which the sources were registered, and holds the result
//! to a schema where one is declared.

pub mod configuration;
pub mod entity;
pub mod error;
pub mod loader;
pub mod parser;
pub mod registry;
pub mod source;
pub mod stages;
pub mod text;
pub mod value;
pub mod whitelist;

pub use configuration::Configuration;
pub use error::Error;
pub use source::Url;
pub use value::Value;
