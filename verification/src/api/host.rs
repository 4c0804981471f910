//! What the composition root reports to the interface.

use vstd::prelude::*;

verus! {

/// A host-side failure surfaced to the user as an error line.
#[derive(Clone, Debug, PartialEq, Eq)]
pub struct HostError {
    pub message: String,
}

impl HostError {
    pub fn new(message: &str) -> (error: HostError)
        ensures
            error.message@ == message@,
    {
        HostError { message: message.to_owned() }
    }

    pub fn message(&self) -> (message: &str)
        ensures
            message@ == self.message@,
    {
        self.message.as_str()
    }
}

/// One effective configuration entry with its source layer, for `/config`.
/// Values never contain secrets.
#[derive(Clone, Debug, PartialEq, Eq)]
pub struct ConfigEntry {
    pub key: String,
    pub value: String,
    /// The layer the effective value came from (flag / env / project / global /
    /// default).
    pub source: String,
}

} // verus!
