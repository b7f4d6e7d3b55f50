//! Why a server could not be located, started, or resolved.

use vstd::prelude::*;

verus! {

/// Why a server could not be located, started, or resolved.
///
/// The variants are the ones a caller branches on: a child that missed its
/// startup budget is a gateway timeout, one that could never start is a bad
/// gateway, and the two kinds of refusal differ in whether a retry can help.
#[derive(Debug, Clone, PartialEq, Eq)]
pub enum Failure {
    /// A child started, and did not answer inside the entry's startup budget.
    NotReady(String),
    /// A server could not be located, or a child could not be started at all.
    Unavailable(String),
    /// A child was not started, because there was no room for it.
    Refused(String),
    /// A child was not started, because the room it needed was taken by a
    /// request that reached it first.
    Contended(String),
}

/// What a failure says, whichever kind it is.
pub open spec fn failure_text(f: Failure) -> Seq<char> {
    match f {
        Failure::NotReady(m) => m@,
        Failure::Unavailable(m) => m@,
        Failure::Refused(m) => m@,
        Failure::Contended(m) => m@,
    }
}

impl Failure {
    /// What the failure says, whichever kind it is.
    pub fn message(&self) -> (text: String)
        ensures
            text@ == failure_text(*self),
    {
        match self {
            Failure::NotReady(m) => m.clone(),
            Failure::Unavailable(m) => m.clone(),
            Failure::Refused(m) => m.clone(),
            Failure::Contended(m) => m.clone(),
        }
    }
}

} // verus!
