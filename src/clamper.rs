//! Bounding a value into an inclusive range.
use vstd::prelude::*;

use crate::coord::Coord;

verus! {

/// The value `v` brought into `[lo, hi]`: below `lo` gives `lo`, above `hi` gives `hi`.
pub open spec fn clamp_int(v: int, lo: int, hi: int) -> int {
    if v < lo {
        lo
    } else if v > hi {
        hi
    } else {
        v
    }
}

/// An inclusive range `[min, max]` that values are clamped into.
pub struct Clamper<T>(pub T, pub T);

impl<T: Coord> Clamper<T> {
    pub open spec fn lo(&self) -> int {
        self.0.val()
    }

    pub open spec fn hi(&self) -> int {
        self.1.val()
    }

    pub fn clamp(&self, v: T) -> (r: T)
        ensures
            r.val() == clamp_int(v.val(), self.lo(), self.hi()),
            self.lo() <= self.hi() ==> self.lo() <= r.val() <= self.hi(),
    {
        if v.less(&self.0) {
            self.0
        } else if self.1.less(&v) {
            self.1
        } else {
            v
        }
    }

    pub fn new(min: T, max: T) -> (r: Clamper<T>)
        ensures
            r.0 == min,
            r.1 == max,
    {
        Clamper(min, max)
    }
}

} // verus!
