//! How many connections are answered at once: a count of free turns,
//! taken before each accept and given back when a connection ends. The
//! waiting for a turn is the caller's; the count is here.

use vstd::prelude::*;

verus! {

/// The turns free, of those a router answers connections with.
#[derive(Debug)]
pub struct Permits {
    free: usize,
}

impl Permits {
    /// How many turns are free.
    pub closed spec fn spec_free(&self) -> usize {
        self.free
    }

    /// This many, and never none: a router that could accept nothing would
    /// be bound and silent, which is worse than either.
    pub fn new(count: usize) -> (permits: Permits)
        ensures
            permits.spec_free() == if count >= 1 { count } else { 1 },
    {
        Permits { free: if count >= 1 { count } else { 1 } }
    }

    /// Whether a turn may be taken now rather than waited for.
    pub fn may_take(&self) -> (may: bool)
        ensures
            may == (self.spec_free() > 0),
    {
        self.free > 0
    }

    /// Takes a free turn.
    pub fn take(&mut self)
        requires
            old(self).spec_free() > 0,
        ensures
            final(self).spec_free() == old(self).spec_free() - 1,
    {
        self.free = self.free - 1;
    }

    /// Gives a turn back.
    pub fn give(&mut self)
        requires
            old(self).spec_free() < usize::MAX,
        ensures
            final(self).spec_free() == old(self).spec_free() + 1,
    {
        self.free = self.free + 1;
    }
}

} // verus!
