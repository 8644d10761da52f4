//! Containment and overlap tests between half-open `u32` address ranges.

use vstd::prelude::*;

verus! {

/// Predicates on half-open address ranges.
pub trait MemoryRange {
    /// `range` lies entirely within `self`.
    fn contains_range(&self, range: &core::ops::Range<u32>) -> (r: bool)
        requires
            range.end > 0,
    ;

    /// Exactly one end of `range` lies within `self`.
    fn intersects_range(&self, range: &core::ops::Range<u32>) -> (r: bool)
        requires
            range.end > 0,
    ;
}

/// Whether `x` lies in the half-open range.
pub open spec fn spec_in_range(range: core::ops::Range<u32>, x: u32) -> bool {
    range.start <= x < range.end
}

impl MemoryRange for core::ops::Range<u32> {
    fn contains_range(&self, range: &core::ops::Range<u32>) -> (r: bool)
        ensures
            r == (spec_in_range(*self, range.start) && spec_in_range(
                *self,
                (range.end - 1) as u32,
            )),
    {
        let last = range.end - 1;
        self.start <= range.start && range.start < self.end && self.start <= last && last
            < self.end
    }

    fn intersects_range(&self, range: &core::ops::Range<u32>) -> (r: bool)
        ensures
            r == (spec_in_range(*self, range.start) != spec_in_range(
                *self,
                (range.end - 1) as u32,
            )),
    {
        let last = range.end - 1;
        let has_start = self.start <= range.start && range.start < self.end;
        let has_last = self.start <= last && last < self.end;
        has_start && !has_last || !has_start && has_last
    }
}

} // verus!
