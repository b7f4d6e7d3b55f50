//! What admission reasons about: the models loaded now, and the one wanted.

use vstd::prelude::*;

use crate::catalog::entry::Entry;
use crate::catalog::estimate::served::{runs_on_processor, runs_on_processor_spec};
use crate::catalog::Residency;
use crate::memory::figures::{larger, Measurement};

verus! {

/// One loaded model, as admission needs to see it.
#[derive(Debug, Clone, PartialEq, Eq)]
pub struct Loaded {
    /// The entry the model was loaded for.
    pub id: String,
    /// What it costs: its estimate, or what it was measured holding once it
    /// loaded, whichever is more.
    pub mib: u64,
    /// Whether it is held loaded for good.
    pub residency: Residency,
    /// Whether something is reading from it right now.
    pub busy: bool,
    /// How long ago it last finished answering, in seconds: the larger, the
    /// colder.
    pub idle_secs: u64,
}

/// The model a request wants started.
#[derive(Debug, Clone, PartialEq, Eq)]
pub struct Wanted {
    /// The entry wanted.
    pub id: String,
    /// What it is expected to cost.
    pub mib: u64,
    /// Whether it puts anything on the device. A model whose flags keep
    /// every layer on the processor is not held to the device's room.
    pub on_device: bool,
}

impl Loaded {
    /// One loaded model, described by its parts.
    pub fn new(id: String, mib: u64, residency: Residency, busy: bool, idle_secs: u64) -> (loaded:
        Loaded)
        ensures
            loaded == (Loaded { id, mib, residency, busy, idle_secs }),
    {
        Loaded { id, mib, residency, busy, idle_secs }
    }

    /// One loaded entry as admission sees it: counted at its estimate until
    /// it was measured, and at the larger of the two afterwards, so an
    /// under-estimated model is accounted at its real cost from the moment
    /// that is known.
    pub fn of(entry: &Entry, busy: bool, idle_secs: u64, measured: &Measurement) -> (loaded: Loaded)
        ensures
            loaded.id@ == entry.id@,
            loaded.mib == match larger(measured.resident_mib, measured.device_mib) {
                Some(m) => if m > entry.memory_estimate_mib { m } else { entry.memory_estimate_mib as u64 },
                None => entry.memory_estimate_mib as u64,
            },
            loaded.residency == entry.residency,
            loaded.busy == busy,
            loaded.idle_secs == idle_secs,
    {
        let estimate = entry.memory_estimate_mib as u64;
        let mib = match measured.largest_mib() {
            Some(m) => if m > estimate { m } else { estimate },
            None => estimate,
        };
        Loaded { id: entry.id.clone(), mib, residency: entry.residency, busy, idle_secs }
    }
}

impl Wanted {
    /// One wanted model, described by its parts.
    pub fn new(id: String, mib: u64, on_device: bool) -> (wanted: Wanted)
        ensures
            wanted == (Wanted { id, mib, on_device }),
    {
        Wanted { id, mib, on_device }
    }

    /// The entry a request wants started: at its estimate, and held to the
    /// device's room unless its flags keep every layer on the processor.
    pub fn of(entry: &Entry) -> (wanted: Wanted)
        ensures
            wanted.id@ == entry.id@,
            wanted.mib == entry.memory_estimate_mib as u64,
            wanted.on_device == !runs_on_processor_spec(entry.flags@),
    {
        Wanted {
            id: entry.id.clone(),
            mib: entry.memory_estimate_mib as u64,
            on_device: !runs_on_processor(&entry.flags),
        }
    }
}

} // verus!
