//! The options of the environment loader where nothing is set.
use vstd::prelude::*;

verus! {

/// The prefix that is used where none is set: the crate's name and the
/// default separator.
pub fn prefix() -> (text: String)
    ensures
        text@ == "plugx_config__"@,
{
    "plugx_config__".to_owned()
}

/// The separator that is used where none is set: two underscores.
pub fn separator() -> (text: String)
    ensures
        text@ == "__"@,
{
    "__".to_owned()
}

/// Whether the prefix is stripped from a name where nothing is set: it is.
pub fn strip_prefix() -> (strip: bool)
    ensures
        strip,
{
    true
}

} // verus!
