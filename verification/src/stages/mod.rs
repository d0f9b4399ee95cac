//! The stages of the pipeline, each a function of its own.

pub mod forget;
pub mod load;
pub mod merge;
pub mod parse;
pub mod validate;
