//! Timer-interrupt bookkeeping: counting ticks. Programming the next
//! hardware deadline is the firmware layer's part of each tick.

use vstd::prelude::*;

verus! {

/// Counts timer interrupts since boot.
pub struct Timer {
    ticks: u64,
}

impl Timer {
    pub closed spec fn ticks(&self) -> u64 {
        self.ticks
    }

    /// A timer that has not ticked yet.
    pub fn new() -> (r: Self)
        ensures
            r.ticks() == 0,
    {
        Timer { ticks: 0 }
    }

    /// Reads the tick count.
    pub fn count(&self) -> (r: u64)
        ensures
            r == self.ticks(),
    {
        self.ticks
    }

    /// Records one timer interrupt; the count sticks at the top of `u64`
    /// rather than wrapping.
    pub fn tick(&mut self)
        ensures
            final(self).ticks() == if old(self).ticks() < u64::MAX {
                old(self).ticks() + 1
            } else {
                old(self).ticks() as int
            },
    {
        if self.ticks < u64::MAX {
            self.ticks = self.ticks + 1;
        }
    }
}

} // verus!
