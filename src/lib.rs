//! A tile-based game's grid logic: symmetric shadow casting for the field
//! of view, rectangle overlap for room placement, and the mapping from a
//! facing vector to an animation direction.
use vstd::prelude::*;

pub mod ascii;
pub mod entities;
pub mod physics;

verus! {

/// The direction an animated character faces or moves in.
#[derive(Copy, Clone, Debug, PartialEq, Eq, Hash, Structural)]
pub enum Direction {
    Left,
    Right,
    Up,
    Down,
    IdleLeft,
    IdleRight,
    IdleUp,
    IdleDown,
    Stop,
}

} // verus!
