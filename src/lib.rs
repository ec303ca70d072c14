//! A naval-combat board: ship shapes, their four rotations, random
//! non-overlapping placement on a grid, and a text rendering of the result.

pub mod board;
pub mod geometry;
pub mod player;
mod random;
pub mod ships;
pub mod text;

use vstd::prelude::*;

verus! {

/// The outcome of a shot at a board.
#[derive(Clone, Copy, Debug, PartialEq, Eq, Structural)]
pub enum Message {
    NoHit,
    HitOne,
    HitTwo,
    Sunk(u64),
}

} // verus!
