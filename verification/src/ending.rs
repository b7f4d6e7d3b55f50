//! How a serving router ends.
//!
//! The end of a serving process is a signal. The first one starts stopping
//! every child the router started; a second while that stop is still running
//! ends the process at once, with a failing status, because the children
//! were then not waited for -- the way out from a child that will not die.
//! Serving that ends by itself ends the wait too. The waiting, the signal
//! handler and the stopping thread are the caller's; what each event comes
//! to is decided here.

use vstd::prelude::*;

use crate::text::{decimal, push_decimal, push_str};

verus! {

/// What the thread waiting for the end of the process hears.
#[derive(Debug, Clone, Copy, PartialEq, Eq, Structural)]
pub enum Ending {
    /// The process was asked to end.
    Signalled,
    /// The children were ended after the first signal.
    Stopped,
    /// Serving returned, its thread panicked, or nothing is left to hear.
    Served,
}

/// What the waiting thread does with what it heard.
#[derive(Debug, Clone, PartialEq, Eq)]
pub enum Then {
    /// Start stopping every child, and keep waiting.
    StartStopping,
    /// Return: the process ends, having heard this.
    Return(Ending),
    /// Exit at once with this complaint: signalled again mid-stop.
    GiveUp(String),
}

/// What a second signal is told.
pub open spec fn again_text() -> Seq<char> {
    "signalled again: exiting without waiting for the children"@
}

/// One step of waiting for the end: whether a signal was already heard, and
/// what was heard now, come to what happens next and whether a signal has
/// been heard since.
pub fn on_ending(signalled: bool, heard: Ending) -> (step: (bool, Then))
    ensures
        match heard {
            Ending::Signalled => if signalled {
                step.0 && (step.1 matches Then::GiveUp(m) && m@ == again_text())
            } else {
                step.0 && step.1 == Then::StartStopping
            },
            Ending::Stopped => step == (signalled, Then::Return(Ending::Stopped)),
            Ending::Served => step == (signalled, Then::Return(Ending::Served)),
        },
{
    match heard {
        Ending::Signalled => if signalled {
            let mut m = String::new();
            push_str(&mut m, "signalled again: exiting without waiting for the children");
            (true, Then::GiveUp(m))
        } else {
            (true, Then::StartStopping)
        },
        Ending::Stopped => (signalled, Then::Return(Ending::Stopped)),
        Ending::Served => (signalled, Then::Return(Ending::Served)),
    }
}

/// `1 child`, `2 children`, so the stop line reads as a sentence.
pub open spec fn children_text(count: u64) -> Seq<char> {
    if count == 1 { "1 child"@ } else { decimal(count as nat) + " children"@ }
}

/// `1 child`, `2 children`.
pub fn children(count: u64) -> (text: String)
    ensures
        text@ == children_text(count),
{
    let mut text = String::new();
    if count == 1 {
        push_str(&mut text, "1 child");
    } else {
        push_decimal(&mut text, count as u128);
        push_str(&mut text, " children");
    }
    text
}

/// The line a stop ends with: how many children it ended.
pub fn stopped_line(count: u64) -> (line: String)
    ensures
        line@ == "stopping: ended "@ + children_text(count),
{
    let mut line = String::new();
    push_str(&mut line, "stopping: ended ");
    let told = children(count);
    push_str(&mut line, told.as_str());
    line
}

} // verus!
