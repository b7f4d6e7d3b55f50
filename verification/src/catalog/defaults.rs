//! What an entry takes when it does not say: the catalog's defaults table.

use vstd::prelude::*;

use super::entry::Residency;

verus! {

/// How long a model may take to become ready when neither the entry nor the
/// defaults table says.
pub const DEFAULT_STARTUP_TIMEOUT_SECONDS: u32 = 300;

/// The settings every entry takes unless it states its own.
#[derive(Debug, Clone, PartialEq, Eq)]
pub struct Defaults {
    /// Tokens of context.
    pub context_size: Option<u32>,
    /// Whether entries are held loaded.
    pub residency: Option<Residency>,
    /// What loading an entry is expected to cost, in mebibytes.
    pub memory_estimate_mib: Option<u32>,
    /// How reasoning output is delimited.
    pub reasoning_format: Option<String>,
    /// How much reasoning effort to ask for.
    pub reasoning_effort: Option<String>,
    /// How long a model may take to become ready.
    pub startup_timeout_seconds: Option<u32>,
    /// Server settings passed through, by name.
    pub flags: Vec<(String, String)>,
}

impl Defaults {
    /// A defaults table that sets nothing.
    pub fn none() -> (defaults: Defaults)
        ensures
            defaults.context_size is None,
            defaults.residency is None,
            defaults.memory_estimate_mib is None,
            defaults.reasoning_format is None,
            defaults.reasoning_effort is None,
            defaults.startup_timeout_seconds is None,
            defaults.flags@.len() == 0,
    {
        Defaults {
            context_size: None,
            residency: None,
            memory_estimate_mib: None,
            reasoning_format: None,
            reasoning_effort: None,
            startup_timeout_seconds: None,
            flags: Vec::new(),
        }
    }
}

} // verus!
