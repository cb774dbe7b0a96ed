//! The shared state cell: a single unsigned counter, incremented by one
//! writer task and read by the others. The scheduler is single-threaded, so
//! within the verified core the cell is an owned value; the process around it
//! is responsible for placing it behind an atomic when tasks live on more
//! than one thread.

use vstd::prelude::*;

verus! {

/// A process-wide counter cell. It only ever grows, one tick at a time.
pub struct SharedCounter {
    value: u64,
}

impl SharedCounter {
    /// A fresh cell starts at zero.
    pub fn new() -> (c: SharedCounter)
        ensures
            c.value() == 0,
    {
        SharedCounter { value: 0 }
    }

    /// The current count.
    pub closed spec fn value(&self) -> u64 {
        self.value
    }

    /// Read the cell.
    pub fn get(&self) -> (v: u64)
        ensures
            v == self.value(),
    {
        self.value
    }

    /// One writer tick: the count grows by exactly one.
    pub fn increment(&mut self)
        requires
            old(self).value() < u64::MAX,
        ensures
            final(self).value() == old(self).value() + 1,
    {
        self.value = self.value + 1;
    }

    /// Apply `n` writer ticks in a row. No tick is lost: the cell ends
    /// exactly `n` above where it started.
    pub fn apply_ticks(&mut self, n: u64)
        requires
            old(self).value() + n <= u64::MAX,
        ensures
            final(self).value() == old(self).value() + n,
    {
        let mut done: u64 = 0;
        while done < n
            invariant
                done <= n,
                old(self).value() + n <= u64::MAX,
                self.value() == old(self).value() + done,
            decreases n - done,
        {
            self.increment();
            done = done + 1;
        }
    }
}

} // verus!
