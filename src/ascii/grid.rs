//! Axis-aligned rectangles on the cell grid.
use vstd::prelude::*;

verus! {

/// A rectangle of `w` by `h` cells whose top-left cell is `(x, y)`.
#[derive(Clone, Copy, Debug, PartialEq, Structural)]
pub struct Grid {
    pub x: i32,
    pub y: i32,
    pub w: u32,
    pub h: u32,
}

/// Whether two rectangles share a cell: on each axis, each one starts
/// before the other ends.
pub open spec fn overlaps(a: Grid, b: Grid) -> bool {
    &&& a.x < b.x + b.w
    &&& a.x + a.w > b.x
    &&& a.y < b.y + b.h
    &&& a.y + a.h > b.y
}

impl Grid {
    pub fn new(x: i32, y: i32, w: u32, h: u32) -> (r: Grid)
        ensures
            r == (Grid { x, y, w, h }),
    {
        Grid { x, y, w, h }
    }

    /// Axis-aligned bounding-box test: whether `self` and `other` overlap.
    pub fn aabb(&self, other: &Grid) -> (r: bool)
        ensures
            r == overlaps(*self, *other),
    {
        (self.x as i64) < (other.x as i64 + other.w as i64)
            && (self.x as i64 + self.w as i64) > (other.x as i64)
            && (self.y as i64) < (other.y as i64 + other.h as i64)
            && (self.y as i64 + self.h as i64) > (other.y as i64)
    }
}

} // verus!
