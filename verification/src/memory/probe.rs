//! Where the machine's own figures come from when they are stated rather
//! than asked for.
//!
//! Asking the platform's tools is running processes, which the binary does;
//! what it reads back is handed in here as a [`Fixed`] set of figures.

use vstd::prelude::*;

use super::figures::{DeviceMemory, Measurement};

verus! {

/// The figures a caller states, in place of a machine.
#[derive(Debug, Clone, Copy, PartialEq, Eq, Structural)]
pub struct Fixed {
    /// What the device query answers, or nothing when there is no device.
    pub device: Option<DeviceMemory>,
    /// What the system memory query answers.
    pub system_total_mib: Option<u64>,
    /// What every process measures as, whatever its pid.
    pub measurement: Measurement,
}

impl Default for Fixed {
    fn default() -> (fixed: Fixed)
        ensures
            fixed.device is None,
            fixed.system_total_mib is None,
            fixed.measurement.resident_mib is None,
            fixed.measurement.device_mib is None,
    {
        Fixed { device: None, system_total_mib: None, measurement: Measurement::unknown() }
    }
}

/// Where the machine's figures come from.
#[derive(Debug, Clone, Copy, PartialEq, Eq, Structural)]
pub enum Probe {
    /// The numbers stated, answered without running anything.
    Fixed(Fixed),
}

impl Probe {
    /// A probe that knows nothing: the budget then behaves exactly as it did
    /// before the machine could be asked.
    pub fn none() -> (probe: Probe)
        ensures
            probe == Probe::Fixed(Fixed { device: None, system_total_mib: None, measurement: Measurement { resident_mib: None, device_mib: None } }),
    {
        Probe::Fixed(Fixed::default())
    }

    /// Total and used device memory, or `None` when there is no device.
    pub fn device(&self) -> (device: Option<DeviceMemory>)
        ensures
            device == match *self { Probe::Fixed(f) => f.device },
    {
        match self {
            Probe::Fixed(fixed) => fixed.device,
        }
    }

    /// What the machine has in system memory, in mebibytes, or `None`.
    pub fn system_total_mib(&self) -> (total: Option<u64>)
        ensures
            total == match *self { Probe::Fixed(f) => f.system_total_mib },
    {
        match self {
            Probe::Fixed(fixed) => fixed.system_total_mib,
        }
    }

    /// What one running process holds, on each side it can be read on: the
    /// stated measurement, whatever the pid.
    pub fn measure(&self, pid: u32) -> (measured: Measurement)
        ensures
            measured == match *self { Probe::Fixed(f) => f.measurement },
    {
        match self {
            Probe::Fixed(fixed) => fixed.measurement,
        }
    }
}

} // verus!
