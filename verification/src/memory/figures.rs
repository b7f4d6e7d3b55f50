//! The figures the machine reports: device memory as a whole, and what one
//! child holds once it has loaded.

use vstd::prelude::*;

verus! {

/// What one machine's device memory looks like, in mebibytes.
#[derive(Debug, Clone, Copy, PartialEq, Eq, Structural)]
pub struct DeviceMemory {
    /// What every device the driver reports holds, together.
    pub total_mib: u64,
    /// What is in use right now, by anything on the machine.
    pub used_mib: u64,
}

impl DeviceMemory {
    /// What is left for a model to be started into: the total less what is
    /// used, and never less than nothing.
    pub fn free_mib(&self) -> (free: u64)
        ensures
            free == if self.used_mib <= self.total_mib { self.total_mib - self.used_mib } else { 0 },
    {
        self.total_mib.saturating_sub(self.used_mib)
    }
}

/// What one child was found to hold once it had loaded, in mebibytes.
///
/// Either side may be unknown, independently.
#[derive(Debug, Clone, Copy, PartialEq, Eq, Structural, Default)]
pub struct Measurement {
    /// The process's resident set, or `None` when it could not be read.
    pub resident_mib: Option<u64>,
    /// What the process holds on the device, or `None` when it could not be
    /// read.
    pub device_mib: Option<u64>,
}

/// The larger of two sides, either of which may be unknown.
pub open spec fn larger(a: Option<u64>, b: Option<u64>) -> Option<u64> {
    match (a, b) {
        (Some(x), Some(y)) => Some(if x >= y { x } else { y }),
        (Some(x), None) => Some(x),
        (None, Some(y)) => Some(y),
        (None, None) => None,
    }
}

impl Measurement {
    /// Nothing could be read.
    pub fn unknown() -> (m: Measurement)
        ensures
            m.resident_mib is None,
            m.device_mib is None,
    {
        Measurement { resident_mib: None, device_mib: None }
    }

    /// The larger of the two sides, or `None` when neither is known.
    ///
    /// The larger rather than the sum, because weights mapped from a file
    /// count in the resident set *and*, once copied to the device, on the
    /// device.
    pub fn largest_mib(&self) -> (largest: Option<u64>)
        ensures
            largest == larger(self.resident_mib, self.device_mib),
    {
        match (self.resident_mib, self.device_mib) {
            (Some(x), Some(y)) => Some(if x >= y { x } else { y }),
            (Some(x), None) => Some(x),
            (None, Some(y)) => Some(y),
            (None, None) => None,
        }
    }
}

} // verus!
