//! Core of a Befunge-98 / Unefunge-98 interpreter: a cursor with a direction
//! delta walks a lazily growing two-dimensional grid of integer cells,
//! mutating the grid and a stack of value stacks as it executes the cells
//! under it.  All state transitions are verified; the surrounding binary only
//! performs the actual terminal and file I/O.

pub mod bounds;
pub mod cell;
pub mod commands;
pub mod cursor;
pub mod delta;
pub mod direction;
pub mod fingerprint;
pub mod grid;
pub mod numfmt;
pub mod runner;
pub mod sstack;
pub mod sysinfo;
pub mod vm;
