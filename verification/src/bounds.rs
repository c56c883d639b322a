//! The axis-aligned box that currently encloses the grid, with the half-open
//! convention `lower <= p < upper` on each axis.
//!
//! Coordinates of cells are `i32`, but an upper bound can be `i32::MAX + 1`,
//! so the box is kept in `i64`.

use vstd::prelude::*;

verus! {

#[derive(Clone, Copy, PartialEq, Eq, Structural, Debug)]
pub struct Bounds {
    pub lx: i64,
    pub ly: i64,
    pub ux: i64,
    pub uy: i64,
}

/// True when `(x, y)` lies inside the box.
pub open spec fn spec_contains(b: Bounds, x: int, y: int) -> bool {
    b.lx <= x < b.ux && b.ly <= y < b.uy
}

impl Bounds {
    /// The box stays inside the window whose points are `i32` coordinates.
    pub open spec fn wf(self) -> bool {
        -0x8000_0000 <= self.lx <= self.ux <= 0x8000_0000 && -0x8000_0000 <= self.ly <= self.uy
            <= 0x8000_0000
    }

    pub fn new(x_lower: i64, y_lower: i64, x_upper: i64, y_upper: i64) -> (r: Self)
        ensures
            r == (Bounds { lx: x_lower, ly: y_lower, ux: x_upper, uy: y_upper }),
    {
        Self { lx: x_lower, ly: y_lower, ux: x_upper, uy: y_upper }
    }

    pub fn lower_x(&self) -> (r: i64)
        ensures
            r == self.lx,
    {
        self.lx
    }

    pub fn lower_y(&self) -> (r: i64)
        ensures
            r == self.ly,
    {
        self.ly
    }

    pub fn upper_x(&self) -> (r: i64)
        ensures
            r == self.ux,
    {
        self.ux
    }

    pub fn upper_y(&self) -> (r: i64)
        ensures
            r == self.uy,
    {
        self.uy
    }

    pub fn set_lower_x(&mut self, x: i64)
        ensures
            *final(self) == (Bounds { lx: x, ..*old(self) }),
    {
        self.lx = x;
    }

    pub fn set_lower_y(&mut self, y: i64)
        ensures
            *final(self) == (Bounds { ly: y, ..*old(self) }),
    {
        self.ly = y;
    }

    pub fn set_upper_x(&mut self, x: i64)
        ensures
            *final(self) == (Bounds { ux: x, ..*old(self) }),
    {
        self.ux = x;
    }

    pub fn set_upper_y(&mut self, y: i64)
        ensures
            *final(self) == (Bounds { uy: y, ..*old(self) }),
    {
        self.uy = y;
    }

    /// True when the coordinates fall outside the box.
    pub fn out_of_bounds(&self, pos: (i64, i64)) -> (r: bool)
        ensures
            r <==> !spec_contains(*self, pos.0 as int, pos.1 as int),
    {
        pos.0 < self.lx || pos.0 >= self.ux || pos.1 < self.ly || pos.1 >= self.uy
    }
}

} // verus!
