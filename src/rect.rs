//! Axis-aligned rectangles over an integer coordinate type.
use vstd::prelude::*;

use crate::coord::{half_toward_zero, Coord};

verus! {

/// The rectangle with corners `(x1, y1)` and `(x2, y2)`, both inclusive.
pub struct Rect<T> {
    pub x1: T,
    pub y1: T,
    pub x2: T,
    pub y2: T,
}

/// Whether the closed rectangles `[ax1, ax2] x [ay1, ay2]` and `[bx1, bx2] x [by1, by2]` meet.
pub open spec fn overlaps(
    ax1: int,
    ay1: int,
    ax2: int,
    ay2: int,
    bx1: int,
    by1: int,
    bx2: int,
    by2: int,
) -> bool {
    ax1 <= bx2 && ax2 >= bx1 && ay1 <= by2 && ay2 >= by1
}

impl<T: Coord> Rect<T> {
    /// The cell `(x, y)` lies in the rectangle, borders included.
    pub open spec fn contains_cell(&self, x: int, y: int) -> bool {
        self.x1.val() <= x <= self.x2.val() && self.y1.val() <= y <= self.y2.val()
    }

    /// The rectangle whose top-left corner is `(x, y)`, spanning `w` and `h` more cells.
    pub fn new(x: T, y: T, w: T, h: T) -> (r: Rect<T>)
        requires
            T::fits(x.val() + w.val()),
            T::fits(y.val() + h.val()),
        ensures
            r.x1 == x,
            r.y1 == y,
            r.x2.val() == x.val() + w.val(),
            r.y2.val() == y.val() + h.val(),
    {
        Rect { x1: x, y1: y, x2: x.plus(&w), y2: y.plus(&h) }
    }

    /// Whether the two rectangles overlap; a shared border counts.
    pub fn intersect(&self, other: &Rect<T>) -> (r: bool)
        ensures
            r == overlaps(
                self.x1.val(),
                self.y1.val(),
                self.x2.val(),
                self.y2.val(),
                other.x1.val(),
                other.y1.val(),
                other.x2.val(),
                other.y2.val(),
            ),
    {
        other.x1.at_most(&self.x2) && self.x1.at_most(&other.x2) && other.y1.at_most(&self.y2)
            && self.y1.at_most(&other.y2)
    }

    /// The midpoint, each coordinate rounded toward zero.
    pub fn center(&self) -> (r: (T, T))
        requires
            T::fits(self.x1.val() + self.x2.val()),
            T::fits(self.y1.val() + self.y2.val()),
        ensures
            r.0.val() == half_toward_zero(self.x1.val() + self.x2.val()),
            r.1.val() == half_toward_zero(self.y1.val() + self.y2.val()),
    {
        (self.x1.half_sum(&self.x2), self.y1.half_sum(&self.y2))
    }

    /// A cursor over the rectangle's cells, row by row from `(x1, y1)` to `(x2, y2)`.
    pub fn iter(&self) -> (r: RectIter<T>)
        ensures
            r.wf(),
            r.rect == *self,
            r.x == self.x1,
            r.y == self.y1,
            r.done == !(self.x1.val() <= self.x2.val() && self.y1.val() <= self.y2.val()),
    {
        let done = !(self.x1.at_most(&self.x2) && self.y1.at_most(&self.y2));
        RectIter { rect: Rect { x1: self.x1, y1: self.y1, x2: self.x2, y2: self.y2 }, x: self.x1, y: self.y1, done }
    }
}

/// A row-major cursor over the cells of a rectangle.
pub struct RectIter<T> {
    pub rect: Rect<T>,
    pub x: T,
    pub y: T,
    pub done: bool,
}

impl<T: Coord> RectIter<T> {
    /// While cells remain, the cursor stands on one of them.
    pub open spec fn wf(&self) -> bool {
        !self.done ==> self.rect.contains_cell(self.x.val(), self.y.val())
    }

    /// Hands out the cell under the cursor and moves on: right along the row, then to
    /// the start of the next row; after `(x2, y2)` nothing more comes.
    pub fn next(&mut self) -> (r: Option<(T, T)>)
        requires
            old(self).wf(),
        ensures
            final(self).wf(),
            final(self).rect == old(self).rect,
            old(self).done ==> r is None && *final(self) == *old(self),
            !old(self).done ==> {
                let o = *old(self);
                let n = *final(self);
                &&& r == Some((o.x, o.y))
                &&& if o.x.val() < o.rect.x2.val() {
                    n.x.val() == o.x.val() + 1 && n.y == o.y && !n.done
                } else if o.y.val() < o.rect.y2.val() {
                    n.x == o.rect.x1 && n.y.val() == o.y.val() + 1 && !n.done
                } else {
                    n.done
                }
            },
    {
        if self.done {
            return None;
        }
        let r = (self.x, self.y);
        if self.x.less(&self.rect.x2) {
            proof {
                self.rect.x2.lemma_val();
                self.x.lemma_val();
                T::lemma_fits_between(self.x.val(), self.x.val() + 1, self.rect.x2.val());
            }
            self.x = self.x.plus(&T::one());
        } else if self.y.less(&self.rect.y2) {
            proof {
                self.rect.y2.lemma_val();
                self.y.lemma_val();
                T::lemma_fits_between(self.y.val(), self.y.val() + 1, self.rect.y2.val());
            }
            self.x = self.rect.x1;
            self.y = self.y.plus(&T::one());
        } else {
            self.done = true;
        }
        Some(r)
    }
}

} // verus!
