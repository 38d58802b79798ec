//! Counting paper rolls on a rectangular character grid.
//!
//! A grid cell holds a paper roll when it carries the roll marker `@`.
//! A roll is ready for picking when fewer than four of its up-to-eight
//! neighbouring cells (horizontal, vertical and diagonal) also hold rolls.
//! The crate provides the shared counting model, row-based counters over
//! owned byte grids, a character grid with a qualifying-cell walk, and the
//! host side of a device pipeline that evaluates the same predicate over a
//! flat newline-delimited buffer.

pub mod columns;
pub mod grid;
pub mod model;
pub mod pipeline;
pub mod rows;

use vstd::prelude::*;

verus! {

/// The byte that marks a cell holding a paper roll: the ASCII code of `@`.
pub const ROLL: u8 = 64;

/// The character form of the roll marker, for grids held as characters.
pub const ROLL_CHAR: char = '@';

} // verus!
