//! The axis-aligned rectangular region of interest for one conversion run.

use vstd::prelude::*;

verus! {

/// An axis-aligned rectangle given by an origin `(x, y)` and a width and
/// height. A coordinate lying exactly on the boundary is not inside.
#[derive(Debug, PartialEq, Eq, Structural, Copy, Clone)]
pub struct SelectBox {
    pub x: u32,
    pub y: u32,
    pub w: u32,
    pub h: u32,
}

impl SelectBox {
    /// The box's extents stay within the coordinate type.
    pub open spec fn wf(self) -> bool {
        self.x + self.w <= u32::MAX && self.y + self.h <= u32::MAX
    }

    /// Strict-interior membership: true exactly when the coordinate lies
    /// strictly between the box's bounds on both axes.
    pub open spec fn spec_is_inside(self, x: u32, y: u32) -> bool {
        self.x < x && x < self.x + self.w && self.y < y && y < self.y + self.h
    }

    pub fn new(x: u32, y: u32, w: u32, h: u32) -> (r: SelectBox)
        requires
            x + w <= u32::MAX,
            y + h <= u32::MAX,
        ensures
            r == (SelectBox { x, y, w, h }),
    {
        SelectBox { x, y, w, h }
    }

    pub fn x_min(&self) -> (r: u32)
        ensures
            r == self.x,
    {
        self.x
    }

    pub fn y_min(&self) -> (r: u32)
        ensures
            r == self.y,
    {
        self.y
    }

    pub fn x_max(&self) -> (r: u32)
        requires
            self.wf(),
        ensures
            r == self.x + self.w,
    {
        self.x + self.w
    }

    pub fn y_max(&self) -> (r: u32)
        requires
            self.wf(),
        ensures
            r == self.y + self.h,
    {
        self.y + self.h
    }

    /// width
    pub fn w(&self) -> (r: u32)
        ensures
            r == self.w,
    {
        self.w
    }

    /// height
    pub fn h(&self) -> (r: u32)
        ensures
            r == self.h,
    {
        self.h
    }

    /// return true if the coordinate is strictly inside the box
    pub fn is_inside(&self, x: u32, y: u32) -> (r: bool)
        ensures
            r == self.spec_is_inside(x, y),
    {
        (self.x as u64) < (x as u64) && (x as u64) < (self.x as u64) + (self.w as u64)
            && (self.y as u64) < (y as u64) && (y as u64) < (self.y as u64) + (self.h as u64)
    }
}

} // verus!
