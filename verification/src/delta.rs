//! The direction vector added to the cursor position on every step.

use vstd::prelude::*;

use crate::cell::wrap32;

verus! {

#[derive(Clone, Copy, PartialEq, Eq, Structural, Debug)]
pub struct Delta {
    pub x: i32,
    pub y: i32,
}

/// True of the four unit vectors that the cardinal instructions select.
pub open spec fn is_cardinal(d: Delta) -> bool {
    d == (Delta { x: 1i32, y: 0i32 }) || d == (Delta { x: 0i32, y: 1i32 }) || d == (Delta { x: -1i32, y: 0i32 })
        || d == (Delta { x: 0i32, y: -1i32 })
}

/// What `reflect` leaves behind: both components negated, with two's-complement
/// wrap-around on `i32::MIN`.
pub open spec fn spec_reflect(d: Delta) -> Delta {
    Delta { x: wrap32(-(d.x as int)) as i32, y: wrap32(-(d.y as int)) as i32 }
}

impl Delta {
    pub fn east() -> (r: Self)
        ensures
            r == (Delta { x: 1, y: 0 }),
    {
        Self { x: 1, y: 0 }
    }

    pub fn south() -> (r: Self)
        ensures
            r == (Delta { x: 0, y: 1 }),
    {
        Self { x: 0, y: 1 }
    }

    pub fn west() -> (r: Self)
        ensures
            r == (Delta { x: -1i32, y: 0i32 }),
    {
        Self { x: -1, y: 0 }
    }

    pub fn north() -> (r: Self)
        ensures
            r == (Delta { x: 0i32, y: -1i32 }),
    {
        Self { x: 0, y: -1 }
    }

    /// Point the opposite way.
    pub fn reflect(&mut self)
        ensures
            *final(self) == spec_reflect(*old(self)),
    {
        self.x = neg_wrapping(self.x);
        self.y = neg_wrapping(self.y);
    }

    /// Scale both components, wrapping on overflow.
    pub fn scale(&mut self, factor: i32)
        ensures
            final(self).x as int == wrap32(old(self).x * factor),
            final(self).y as int == wrap32(old(self).y * factor),
    {
        let (x, _) = crate::cell::cell_mul(self.x, factor);
        let (y, _) = crate::cell::cell_mul(self.y, factor);
        self.x = x;
        self.y = y;
    }

    /// A uniformly random cardinal direction.
    pub fn random() -> (r: Self)
        ensures
            is_cardinal(r),
    {
        let i = random_index();
        Self::from_index(i)
    }

    /// The cardinal direction a random draw selects: east, south, west, north
    /// in that order.
    pub fn from_index(i: u8) -> (r: Self)
        requires
            i < 4,
        ensures
            is_cardinal(r),
            i == 0 ==> r == (Delta { x: 1, y: 0 }),
            i == 1 ==> r == (Delta { x: 0, y: 1 }),
            i == 2 ==> r == (Delta { x: -1i32, y: 0i32 }),
            i == 3 ==> r == (Delta { x: 0i32, y: -1i32 }),
    {
        if i == 0 {
            Self::east()
        } else if i == 1 {
            Self::south()
        } else if i == 2 {
            Self::west()
        } else {
            Self::north()
        }
    }
}

impl Default for Delta {
    /// The direction every run begins moving in: east.
    fn default() -> (r: Self)
        ensures
            r == (Delta { x: 1i32, y: 0i32 }),
    {
        Delta::east()
    }
}

/// Relies on rand: `Rng::gen_range` over `0..4` on `thread_rng` returns a
/// uniform draw strictly below 4.
#[verifier::external_body]
fn random_index() -> (r: u8)
    ensures
        r < 4,
{
    rand::Rng::gen_range(&mut rand::thread_rng(), 0..4u8)
}

/// Two's-complement negation: `i32::MIN` is its own negation.
fn neg_wrapping(x: i32) -> (r: i32)
    ensures
        r as int == wrap32(-(x as int)),
{
    proof {
        if x != i32::MIN {
            crate::cell::lemma_wrap32_identity(-(x as int));
        } else {
            assert(0x8000_0000int % 0x1_0000_0000int == 0x8000_0000int) by (nonlinear_arith);
        }
    }
    if x == i32::MIN {
        i32::MIN
    } else {
        -x
    }
}

} // verus!
