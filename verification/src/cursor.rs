//! The instruction pointer: a position, a direction delta, and the storage
//! offset that `g`/`p`/`{` addressing adds to its operands.

use vstd::prelude::*;

use crate::bounds::{spec_contains, Bounds};
use crate::cell::{cell_add, wrap32};
use crate::delta::{spec_reflect, Delta};

verus! {

#[derive(Clone, Copy, PartialEq, Eq, Structural, Debug)]
pub struct Cursor {
    pub x: i32,
    pub y: i32,
    pub delta: Delta,
    pub so_x: i32,
    pub so_y: i32,
}

impl Cursor {
    /// The initial cursor: the origin, moving east, zero storage offset.
    pub fn start() -> (r: Self)
        ensures
            r == spec_start(),
    {
        Self { x: 0, y: 0, delta: Delta { x: 1, y: 0 }, so_x: 0, so_y: 0 }
    }

    pub fn position(&self) -> (r: (i32, i32))
        ensures
            r == (self.x, self.y),
    {
        (self.x, self.y)
    }

    pub fn delta(&self) -> (r: Delta)
        ensures
            r == self.delta,
    {
        self.delta
    }

    pub fn storage_offset(&self) -> (r: (i32, i32))
        ensures
            r == (self.so_x, self.so_y),
    {
        (self.so_x, self.so_y)
    }

    pub fn set_position(&mut self, x: i32, y: i32)
        ensures
            *final(self) == (Cursor { x, y, ..*old(self) }),
    {
        self.x = x;
        self.y = y;
    }

    pub fn set_delta(&mut self, new_delta: Delta)
        ensures
            *final(self) == (Cursor { delta: new_delta, ..*old(self) }),
    {
        self.delta = new_delta;
    }

    pub fn set_delta_members(&mut self, new_delta: (i32, i32))
        ensures
            *final(self) == (Cursor {
                delta: Delta { x: new_delta.0, y: new_delta.1 },
                ..*old(self)
            }),
    {
        self.delta = Delta { x: new_delta.0, y: new_delta.1 };
    }

    pub fn set_storage_offset(&mut self, so: (i32, i32))
        ensures
            *final(self) == (Cursor { so_x: so.0, so_y: so.1, ..*old(self) }),
    {
        self.so_x = so.0;
        self.so_y = so.1;
    }

    /// Reflects the delta to point the opposite way.
    pub fn reflect(&mut self)
        ensures
            *final(self) == (Cursor { delta: spec_reflect(old(self).delta), ..*old(self) }),
    {
        self.delta.reflect();
    }

    /// Rotates the delta 90 degrees counterclockwise: `(dx, dy) -> (dy, -dx)`.
    pub fn turn_left(&mut self)
        ensures
            *final(self) == (Cursor { delta: spec_turn_left(old(self).delta), ..*old(self) }),
    {
        let d = self.delta;
        self.delta = Delta { x: d.y, y: neg32(d.x) };
    }

    /// Rotates the delta 90 degrees clockwise: `(dx, dy) -> (-dy, dx)`.
    pub fn turn_right(&mut self)
        ensures
            *final(self) == (Cursor { delta: spec_turn_right(old(self).delta), ..*old(self) }),
    {
        let d = self.delta;
        self.delta = Delta { x: neg32(d.y), y: d.x };
    }

    /// The position shifted by the storage offset, wrapping like every cell
    /// computation.
    pub fn translate_to_storage_position(&self, position: (i32, i32)) -> (r: (i32, i32))
        ensures
            r.0 as int == wrap32(position.0 + self.so_x),
            r.1 as int == wrap32(position.1 + self.so_y),
    {
        let (x, _) = cell_add(position.0, self.so_x);
        let (y, _) = cell_add(position.1, self.so_y);
        (x, y)
    }

    /// Moves one step along the delta, wrapping around the box Lahey-style:
    /// if the straight step leaves the box, the cursor re-enters from the far
    /// side of the box along the same line.
    ///
    /// For every in-box position the landing point is again inside the box and
    /// lies on the line through the old position along the delta.  (From an
    /// out-of-box position — possible after the box shrank under the cursor —
    /// the step is committed unwrapped, as the walk finds no box to re-enter.)
    pub fn advance(&mut self, bounds: &Bounds)
        requires
            bounds.wf(),
    ensures
        final(self).delta == old(self).delta,
        final(self).so_x == old(self).so_x,
        final(self).so_y == old(self).so_y,
        spec_contains(
            *bounds,
            old(self).x + old(self).delta.x,
            old(self).y + old(self).delta.y,
        ) ==> final(self).x == old(self).x + old(self).delta.x && final(self).y == old(self).y
            + old(self).delta.y,
        !spec_contains(*bounds, old(self).x + old(self).delta.x, old(self).y + old(self).delta.y)
            && spec_contains(*bounds, old(self).x as int, old(self).y as int) ==> ({
            &&& spec_contains(*bounds, final(self).x as int, final(self).y as int)
            &&& !spec_contains(
                *bounds,
                final(self).x - old(self).delta.x,
                final(self).y - old(self).delta.y,
            )
            &&& on_back_ray(
                final(self).x as int,
                final(self).y as int,
                old(self).x as int,
                old(self).y as int,
                old(self).delta.x as int,
                old(self).delta.y as int,
            )
        }),
        !spec_contains(*bounds, old(self).x + old(self).delta.x, old(self).y + old(self).delta.y)
            && !spec_contains(*bounds, old(self).x as int, old(self).y as int) ==> final(self).x
            as int == wrap32(old(self).x + old(self).delta.x) && final(self).y as int == wrap32(
            old(self).y + old(self).delta.y,
        ),
    {
        let dx = self.delta.x as i64;
        let dy = self.delta.y as i64;
        let tx = self.x as i64 + dx;
        let ty = self.y as i64 + dy;
        if !bounds.out_of_bounds((tx, ty)) {
            self.x = tx as i32;
            self.y = ty as i32;
            return ;
        }
        if bounds.out_of_bounds((self.x as i64, self.y as i64)) {
            let (nx, _) = cell_add(self.x, self.delta.x);
            let (ny, _) = cell_add(self.y, self.delta.y);
            self.x = nx;
            self.y = ny;
            return ;
        }
        let mut cx = self.x as i64;
        let mut cy = self.y as i64;
        let ghost mut m: int = 0;
        loop
            invariant
                *self == *old(self),
                bounds.wf(),
                dx == old(self).delta.x as int,
                dy == old(self).delta.y as int,
                dx != 0 || dy != 0,
                m >= 0,
                cx == old(self).x - m * dx,
                cy == old(self).y - m * dy,
                spec_contains(*bounds, cx as int, cy as int),
            ensures
                spec_contains(*bounds, cx as int, cy as int),
                !spec_contains(*bounds, cx - dx, cy - dy),
                on_back_ray(
                    cx as int,
                    cy as int,
                    old(self).x as int,
                    old(self).y as int,
                    dx as int,
                    dy as int,
                ),
            decreases (if dx > 0 {
                cx - bounds.lx
            } else if dx < 0 {
                bounds.ux - cx
            } else if dy > 0 {
                cy - bounds.ly
            } else {
                bounds.uy - cy
            }),
        {
            let nx = cx - dx;
            let ny = cy - dy;
            if bounds.out_of_bounds((nx, ny)) {
                proof {
                    assert(0 <= m && cx == old(self).x - m * (dx as int) && cy == old(self).y - m
                        * (dy as int));
                }
                break ;
            }
            cx = nx;
            cy = ny;
            proof {
                assert((m + 1) * (dx as int) == m * (dx as int) + dx) by (nonlinear_arith);
                assert((m + 1) * (dy as int) == m * (dy as int) + dy) by (nonlinear_arith);
                m = m + 1;
            }
        }
        self.x = cx as i32;
        self.y = cy as i32;
    }
}

/// True when `(fx, fy)` is `(px, py)` shifted backwards along the delta some
/// whole number of steps.
pub open spec fn on_back_ray(fx: int, fy: int, px: int, py: int, dx: int, dy: int) -> bool {
    exists|m: int| 0 <= m && fx == px - #[trigger] (m * dx) && fy == py - m * dy
}

/// The cursor every run begins with.
pub open spec fn spec_start() -> Cursor {
    Cursor { x: 0, y: 0, delta: Delta { x: 1, y: 0 }, so_x: 0, so_y: 0 }
}

pub open spec fn spec_turn_left(d: Delta) -> Delta {
    Delta { x: d.y, y: wrap32(-(d.x as int)) as i32 }
}

pub open spec fn spec_turn_right(d: Delta) -> Delta {
    Delta { x: wrap32(-(d.y as int)) as i32, y: d.x }
}

/// Two's-complement negation, `i32::MIN` staying put.
fn neg32(x: i32) -> (r: i32)
    ensures
        r as int == wrap32(-(x as int)),
{
    proof {
        if x != i32::MIN {
            crate::cell::lemma_wrap32_identity(-(x as int));
        } else {
            assert(0x8000_0000int % 0x1_0000_0000int == 0x8000_0000int) by (nonlinear_arith);
        }
    }
    if x == i32::MIN {
        i32::MIN
    } else {
        -x
    }
}

} // verus!
