//! What the stand-in does before it binds, and when it answers as ready.

use vstd::prelude::*;

verus! {

/// What a run does before it binds.
#[derive(Debug, Clone, Copy, PartialEq, Eq, Structural)]
pub enum Beginning {
    /// Write the marker and exit failing, having touched no port: the first
    /// run of one that names a marker not yet there.
    LeaveMarkerAndFail,
    /// Exit failing without binding, on every run.
    Fail,
    /// Bind and serve as asked.
    Serve,
}

/// What a run does before it binds, given whether the marker it names is
/// there, if it names one, and whether it is never to bind. A marker named
/// decides alone.
pub fn before_bind(marker_exists: Option<bool>, never_bind: bool) -> (beginning: Beginning)
    ensures
        beginning == match marker_exists {
            Some(false) => Beginning::LeaveMarkerAndFail,
            Some(true) => Beginning::Serve,
            None => if never_bind { Beginning::Fail } else { Beginning::Serve },
        },
{
    match marker_exists {
        Some(false) => Beginning::LeaveMarkerAndFail,
        Some(true) => Beginning::Serve,
        None => if never_bind {
            Beginning::Fail
        } else {
            Beginning::Serve
        },
    }
}

/// Whether the stand-in answers as ready: once as long has passed since it
/// began serving as it was asked to take to load.
pub fn ready_now(elapsed_ms: u64, ready_after_ms: u64) -> (ready: bool)
    ensures
        ready == (elapsed_ms >= ready_after_ms),
{
    elapsed_ms >= ready_after_ms
}

} // verus!
