//! Integer coordinate types usable by the generic geometry helpers.
use vstd::prelude::*;

verus! {

/// Rounds the half of `v` toward zero, as Rust's integer division does.
pub open spec fn half_toward_zero(v: int) -> int {
    if v >= 0 {
        v / 2
    } else {
        -((-v) / 2)
    }
}

/// An ordered integer type, with its value as a mathematical integer.
pub trait Coord: Copy + Sized {
    spec fn val(&self) -> int;

    spec fn fits(v: int) -> bool;

    /// One.
    fn one() -> (r: Self)
        ensures
            r.val() == 1,
    ;

    fn plus(&self, o: &Self) -> (r: Self)
        requires
            Self::fits(self.val() + o.val()),
        ensures
            r.val() == self.val() + o.val(),
    ;

    /// The half of the sum, rounded toward zero.
    fn half_sum(&self, o: &Self) -> (r: Self)
        requires
            Self::fits(self.val() + o.val()),
        ensures
            r.val() == half_toward_zero(self.val() + o.val()),
    ;

    fn less(&self, o: &Self) -> (r: bool)
        ensures
            r == (self.val() < o.val()),
    ;

    fn at_most(&self, o: &Self) -> (r: bool)
        ensures
            r == (self.val() <= o.val()),
    ;

    proof fn lemma_val(&self)
        ensures
            Self::fits(self.val()),
    ;

    /// The values that fit form an interval.
    proof fn lemma_fits_between(a: int, b: int, c: int)
        requires
            Self::fits(a),
            Self::fits(c),
            a <= b <= c,
        ensures
            Self::fits(b),
    ;
}

impl Coord for i32 {
    open spec fn val(&self) -> int {
        *self as int
    }

    open spec fn fits(v: int) -> bool {
        i32::MIN <= v <= i32::MAX
    }

    fn one() -> (r: Self) {
        1
    }

    fn plus(&self, o: &Self) -> (r: Self) {
        *self + *o
    }

    fn half_sum(&self, o: &Self) -> (r: Self) {
        let s: i32 = *self + *o;
        s / 2
    }

    fn less(&self, o: &Self) -> (r: bool) {
        *self < *o
    }

    fn at_most(&self, o: &Self) -> (r: bool) {
        *self <= *o
    }

    proof fn lemma_val(&self) {
    }

    proof fn lemma_fits_between(a: int, b: int, c: int) {
    }
}

impl Coord for i16 {
    open spec fn val(&self) -> int {
        *self as int
    }

    open spec fn fits(v: int) -> bool {
        i16::MIN <= v <= i16::MAX
    }

    fn one() -> (r: Self) {
        1
    }

    fn plus(&self, o: &Self) -> (r: Self) {
        *self + *o
    }

    fn half_sum(&self, o: &Self) -> (r: Self) {
        let s: i16 = *self + *o;
        s / 2
    }

    fn less(&self, o: &Self) -> (r: bool) {
        *self < *o
    }

    fn at_most(&self, o: &Self) -> (r: bool) {
        *self <= *o
    }

    proof fn lemma_val(&self) {
    }

    proof fn lemma_fits_between(a: int, b: int, c: int) {
    }
}

impl Coord for i64 {
    open spec fn val(&self) -> int {
        *self as int
    }

    open spec fn fits(v: int) -> bool {
        i64::MIN <= v <= i64::MAX
    }

    fn one() -> (r: Self) {
        1
    }

    fn plus(&self, o: &Self) -> (r: Self) {
        *self + *o
    }

    fn half_sum(&self, o: &Self) -> (r: Self) {
        let s: i64 = *self + *o;
        s / 2
    }

    fn less(&self, o: &Self) -> (r: bool) {
        *self < *o
    }

    fn at_most(&self, o: &Self) -> (r: bool) {
        *self <= *o
    }

    proof fn lemma_val(&self) {
    }

    proof fn lemma_fits_between(a: int, b: int, c: int) {
    }
}

impl Coord for i128 {
    open spec fn val(&self) -> int {
        *self as int
    }

    open spec fn fits(v: int) -> bool {
        i128::MIN <= v <= i128::MAX
    }

    fn one() -> (r: Self) {
        1
    }

    fn plus(&self, o: &Self) -> (r: Self) {
        *self + *o
    }

    fn half_sum(&self, o: &Self) -> (r: Self) {
        let s: i128 = *self + *o;
        s / 2
    }

    fn less(&self, o: &Self) -> (r: bool) {
        *self < *o
    }

    fn at_most(&self, o: &Self) -> (r: bool) {
        *self <= *o
    }

    proof fn lemma_val(&self) {
    }

    proof fn lemma_fits_between(a: int, b: int, c: int) {
    }
}

impl Coord for u8 {
    open spec fn val(&self) -> int {
        *self as int
    }

    open spec fn fits(v: int) -> bool {
        u8::MIN <= v <= u8::MAX
    }

    fn one() -> (r: Self) {
        1
    }

    fn plus(&self, o: &Self) -> (r: Self) {
        *self + *o
    }

    fn half_sum(&self, o: &Self) -> (r: Self) {
        let s: u8 = *self + *o;
        s / 2
    }

    fn less(&self, o: &Self) -> (r: bool) {
        *self < *o
    }

    fn at_most(&self, o: &Self) -> (r: bool) {
        *self <= *o
    }

    proof fn lemma_val(&self) {
    }

    proof fn lemma_fits_between(a: int, b: int, c: int) {
    }
}

} // verus!
