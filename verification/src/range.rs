//! A stepped-range helper: yields `start + inc`, `start + 2 * inc`, ... as
//! long as the value stays at or below `end`.

use vstd::prelude::*;

verus! {

/// A range that advances by `inc` per step instead of by one.
#[derive(Clone, Copy, Debug, PartialEq, Eq, Structural)]
pub struct NRange {
    pub start: usize,
    pub end: usize,
    pub inc: usize,
}

impl NRange {
    /// A fresh range with the given bounds and increment.
    pub fn new(start: usize, end: usize, inc: usize) -> (r: Self)
        ensures
            r.start == start,
            r.end == end,
            r.inc == inc,
    {
        Self { start, end, inc }
    }

    /// The next value, `start + inc`, if it does not pass `end`; advances
    /// the range to it.
    pub fn next(&mut self) -> (r: Option<usize>)
        requires
            old(self).start + old(self).inc <= usize::MAX,
        ensures
            final(self).end == old(self).end,
            final(self).inc == old(self).inc,
            if old(self).start + old(self).inc > old(self).end {
                r is None && final(self).start == old(self).start
            } else {
                r == Some((old(self).start + old(self).inc) as usize) && final(self).start
                    == old(self).start + old(self).inc
            },
    {
        let calc: usize = self.start + self.inc;
        if calc > self.end {
            None
        } else {
            self.start = calc;
            Some(calc)
        }
    }
}

} // verus!
