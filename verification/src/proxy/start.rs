//! What a load is said to have cost: how far the device's free memory fell
//! when the driver cannot say per process, and the line a finished load says.

use vstd::prelude::*;

use crate::catalog::Entry;
use crate::launch::failure::{failure_text, Failure};
use crate::memory::Measurement;
use crate::text::{decimal, push_decimal, push_str};

verus! {

/// How far free memory fell between two readings, when both were read and
/// it fell at all.
pub open spec fn fell(free_before: Option<u64>, free_after: Option<u64>) -> Option<u64> {
    match (free_before, free_after) {
        (Some(before), Some(after)) => if after < before { Some((before - after) as u64) } else { None },
        _ => None,
    }
}

/// What a child holds on the device, including when the device cannot say.
///
/// A figure the device reports per process is kept, being the child's alone;
/// otherwise how far the device's free memory fell while the child loaded
/// stands in for it. The resident side is left as it was measured.
pub fn on_the_device(measured: Measurement, free_before: Option<u64>, free_after: Option<u64>) -> (m: Measurement)
    ensures
        m.resident_mib == measured.resident_mib,
        m.device_mib == match measured.device_mib {
            Some(d) => Some(d),
            None => fell(free_before, free_after),
        },
{
    let fallen = match (free_before, free_after) {
        (Some(before), Some(after)) => if after < before { Some(before - after) } else { None },
        _ => None,
    };
    Measurement {
        resident_mib: measured.resident_mib,
        device_mib: match measured.device_mib {
            Some(d) => Some(d),
            None => fallen,
        },
    }
}

/// A figure in gibibytes to one decimal place, truncated, or the admission
/// that there is none.
pub open spec fn gibibytes_text(mib: Option<u64>) -> Seq<char> {
    match mib {
        Some(m) => {
            let tenths = (m as nat * 10) / 1024;
            decimal(tenths / 10) + "."@ + decimal(tenths % 10) + " GiB"@
        },
        None => "nothing readable"@,
    }
}

/// A figure in gibibytes to one decimal place, or the admission that there
/// is none.
pub fn gibibytes(mib: Option<u64>) -> (text: String)
    ensures
        text@ == gibibytes_text(mib),
{
    let mut out = String::new();
    match mib {
        Some(m) => {
            let tenths: u128 = (m as u128 * 10) / 1024;
            push_decimal(&mut out, tenths / 10);
            push_str(&mut out, ".");
            push_decimal(&mut out, tenths % 10);
            push_str(&mut out, " GiB");
        },
        None => {
            push_str(&mut out, "nothing readable");
        },
    }
    out
}

/// The line a finished load says, where `seconds` is how long it took, as
/// the caller writes it.
pub open spec fn ready_text(id: Seq<char>, estimate: u32, seconds: Seq<char>, measured: Measurement) -> Seq<char> {
    id + ": ready in "@ + seconds + " s, measured "@
        + gibibytes_text(measured.resident_mib) + " resident and "@ + gibibytes_text(measured.device_mib)
        + " on the device (catalog said "@ + decimal(estimate as nat) + " MiB)"@
}

/// The line a finished load says: how long it took, what the machine saw it
/// holding on each side, and what the catalog had said. How long it took is
/// the caller's to write -- the elapsed time in seconds, as a float to one
/// decimal place -- since no float is held here.
pub fn ready(entry: &Entry, seconds: &str, measured: &Measurement) -> (line: String)
    ensures
        line@ == ready_text(entry.id@, entry.memory_estimate_mib, seconds@, *measured),
{
    let mut out = String::new();
    push_str(&mut out, entry.id.as_str());
    push_str(&mut out, ": ready in ");
    push_str(&mut out, seconds);
    push_str(&mut out, " s, measured ");
    let resident = gibibytes(measured.resident_mib);
    push_str(&mut out, resident.as_str());
    push_str(&mut out, " resident and ");
    let device = gibibytes(measured.device_mib);
    push_str(&mut out, device.as_str());
    push_str(&mut out, " on the device (catalog said ");
    push_decimal(&mut out, entry.memory_estimate_mib as u128);
    push_str(&mut out, " MiB)");
    assert(out@ =~= ready_text(entry.id@, entry.memory_estimate_mib, seconds@, *measured));
    out
}

} // verus!

verus! {

/// The line a load begins with: what it is expected to cost.
pub open spec fn loading_text(id: Seq<char>, estimate: u32) -> Seq<char> {
    id + ": loading, estimated at "@ + decimal(estimate as nat) + " MiB"@
}

/// The line a load begins with.
pub fn loading(entry: &Entry) -> (line: String)
    ensures
        line@ == loading_text(entry.id@, entry.memory_estimate_mib),
{
    let mut line = String::new();
    push_str(&mut line, entry.id.as_str());
    push_str(&mut line, ": loading, estimated at ");
    push_decimal(&mut line, entry.memory_estimate_mib as u128);
    push_str(&mut line, " MiB");
    line
}

/// The line a load that failed ends with: why.
pub open spec fn not_loaded_text(id: Seq<char>, failure: Failure) -> Seq<char> {
    id + ": not loaded: "@ + failure_text(failure)
}

/// The line a load that failed ends with.
pub fn not_loaded(entry: &Entry, failure: &Failure) -> (line: String)
    ensures
        line@ == not_loaded_text(entry.id@, *failure),
{
    let mut line = String::new();
    push_str(&mut line, entry.id.as_str());
    push_str(&mut line, ": not loaded: ");
    let said = failure.message();
    push_str(&mut line, said.as_str());
    line
}

/// A figure in gibibytes is the whole tenths of a gibibyte the mebibytes
/// make, never rounded up: the tenths said, times 1024, are at most ten
/// times the mebibytes, and one tenth more would pass them.
pub proof fn law_gibibytes_are_whole_tenths_rounded_down(mib: u64)
    ensures
        exists|tenths: nat|
            tenths * 1024 <= mib * 10 < (tenths + 1) * 1024 && gibibytes_text(Some(mib)) == #[trigger] tenths_text(tenths),
{
    let tenths = (mib as nat * 10) / 1024;
    assert(tenths * 1024 <= mib * 10 < (tenths + 1) * 1024) by (nonlinear_arith)
        requires tenths == (mib as nat * 10) / 1024;
    assert(gibibytes_text(Some(mib)) == tenths_text(tenths));
}

/// Tenths of a gibibyte, written out.
pub open spec fn tenths_text(tenths: nat) -> Seq<char> {
    decimal(tenths / 10) + "."@ + decimal(tenths % 10) + " GiB"@
}

} // verus!
