//! Axis-aligned rectangles with inclusive corners.

use vstd::prelude::*;
use crate::position::Coord;

verus! {

/// An axis-aligned rectangle. Both corners belong to it.
#[derive(Debug, Clone, Copy, PartialEq, Eq, Structural)]
pub struct Rect {
    pub x1: i32,
    pub x2: i32,
    pub y1: i32,
    pub y2: i32,
}

/// Half of `a + b`, rounded toward zero.
pub open spec fn midpoint(a: int, b: int) -> int {
    if a + b >= 0 {
        (a + b) / 2
    } else {
        -((-(a + b)) / 2)
    }
}

impl Rect {
    /// The cell `(x, y)` lies in the rectangle, corners included.
    pub open spec fn contains(&self, x: int, y: int) -> bool {
        self.x1 <= x <= self.x2 && self.y1 <= y <= self.y2
    }

    /// The two rectangles reach into each other along both axes. For
    /// rectangles with ordered corners this means that they have a cell in
    /// common.
    pub open spec fn overlaps(&self, other: Rect) -> bool {
        self.x1 <= other.x2 && self.x2 >= other.x1 && self.y1 <= other.y2 && self.y2 >= other.y1
    }

    /// The column of the middle cell.
    pub open spec fn center_x(&self) -> int {
        midpoint(self.x1 as int, self.x2 as int)
    }

    /// The row of the middle cell.
    pub open spec fn center_y(&self) -> int {
        midpoint(self.y1 as int, self.y2 as int)
    }

    /// The rectangle with top-left corner `(x, y)` that extends `w` to the
    /// right and `h` downward.
    pub fn with_size(x: i32, y: i32, w: i32, h: i32) -> (r: Rect)
        requires
            i32::MIN <= x + w <= i32::MAX,
            i32::MIN <= y + h <= i32::MAX,
        ensures
            r.x1 == x,
            r.y1 == y,
            r.x2 == x + w,
            r.y2 == y + h,
    {
        Rect { x1: x, y1: y, x2: x + w, y2: y + h }
    }

    /// Whether the two rectangles overlap.
    pub fn intersect(&self, other: &Rect) -> (r: bool)
        ensures
            r == self.overlaps(*other),
    {
        self.x1 <= other.x2 && self.x2 >= other.x1 && self.y1 <= other.y2 && self.y2 >= other.y1
    }

    /// The middle cell of the rectangle.
    pub fn center(&self) -> (p: Coord)
        ensures
            p.x == self.center_x(),
            p.y == self.center_y(),
    {
        Coord { x: half_sum(self.x1, self.x2), y: half_sum(self.y1, self.y2) }
    }

    /// Two rectangles with ordered corners overlap exactly when some cell
    /// lies in both.
    pub proof fn lemma_overlap_shares_cell(&self, other: Rect)
        requires
            self.x1 <= self.x2,
            self.y1 <= self.y2,
            other.x1 <= other.x2,
            other.y1 <= other.y2,
        ensures
            self.overlaps(other) <==> exists|x: int, y: int| self.contains(x, y) && #[trigger] other.contains(x, y),
    {
        if self.overlaps(other) {
            let x = if self.x1 >= other.x1 { self.x1 as int } else { other.x1 as int };
            let y = if self.y1 >= other.y1 { self.y1 as int } else { other.y1 as int };
            assert(self.contains(x, y) && other.contains(x, y));
        }
    }

}

fn half_sum(a: i32, b: i32) -> (r: i32)
    ensures
        r == midpoint(a as int, b as int),
{
    let s: i64 = a as i64 + b as i64;
    if s >= 0 {
        (s / 2) as i32
    } else {
        let m: i64 = (0 - s) / 2;
        (0 - m) as i32
    }
}

} // verus!
