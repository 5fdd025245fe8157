//! The per-column accumulator: how many values a column has received.
use vstd::prelude::*;

verus! {

/// Running count of the values added to one column.
///
/// The running sum and the mean are floating point and are kept by the
/// caller beside this count; the mean of a column with a count of zero is
/// not defined.
#[derive(Debug, Clone, Copy, PartialEq, Eq, Structural)]
pub struct Summary {
    pub count: u64,
}

impl Summary {
    /// An accumulator that has received no value.
    pub fn new() -> (s: Summary)
        ensures
            s.count == 0,
    {
        Summary { count: 0 }
    }

    /// The number of values received so far.
    pub fn count(&self) -> (c: u64)
        ensures
            c == self.count,
    {
        self.count
    }

    /// Records one more value.
    pub fn record(&mut self)
        requires
            old(self).count < u64::MAX,
        ensures
            final(self).count == old(self).count + 1,
    {
        self.count = self.count + 1;
    }
}

} // verus!
