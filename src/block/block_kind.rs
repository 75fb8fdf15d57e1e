//! The colour tags that a board cell or a shape cell can hold.

use vstd::prelude::*;

verus! {

/// An empty cell.
pub const NONE: usize = 0;

/// A permanent wall or floor cell.
pub const WALL: usize = 1;

/// The landing preview of the active piece; only ever drawn on a scratch copy.
pub const GHOST: usize = 2;

pub const I: usize = 3;

pub const O: usize = 4;

pub const S: usize = 5;

pub const Z: usize = 6;

pub const J: usize = 7;

pub const L: usize = 8;

pub const T: usize = 9;

} // verus!
