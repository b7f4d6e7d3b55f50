//! Why a file could not be read as GGUF metadata.

use vstd::prelude::*;

verus! {

/// Why a file could not be read as GGUF metadata.
#[derive(Debug, Clone, PartialEq, Eq)]
pub struct Fault(pub String);

impl Fault {
    /// What the fault says.
    pub fn message(&self) -> (text: String)
        ensures
            text@ == self.0@,
    {
        self.0.clone()
    }
}

} // verus!
