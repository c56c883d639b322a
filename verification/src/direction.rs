//! The four cardinal directions by name; the engine's vector form is
//! `Delta`.

use vstd::prelude::*;

use crate::delta::Delta;

verus! {

#[derive(Clone, Copy, PartialEq, Eq, Structural, Debug)]
pub enum Direction {
    East,
    South,
    West,
    North,
}

impl Direction {
    /// The unit vector of the direction.
    pub fn to_delta(&self) -> (r: Delta)
        ensures
            self is East ==> r == (Delta { x: 1i32, y: 0i32 }),
            self is South ==> r == (Delta { x: 0i32, y: 1i32 }),
            self is West ==> r == (Delta { x: -1i32, y: 0i32 }),
            self is North ==> r == (Delta { x: 0i32, y: -1i32 }),
    {
        match self {
            Direction::East => Delta::east(),
            Direction::South => Delta::south(),
            Direction::West => Delta::west(),
            Direction::North => Delta::north(),
        }
    }
}

impl Default for Direction {
    /// The direction every run begins moving in.
    fn default() -> (r: Self)
        ensures
            r == Direction::East,
    {
        Direction::East
    }
}

} // verus!
