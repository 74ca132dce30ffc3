//! Game entities.
use vstd::prelude::*;

use crate::Direction;

verus! {

/// The animation direction for a facing vector `(dx, dy)`: a horizontal
/// component decides first, then a vertical one (negative `dy` is up);
/// the zero vector means standing still.
pub open spec fn direction_of(facing: (i32, i32)) -> Direction {
    if facing.0 > 0 {
        Direction::Right
    } else if facing.0 < 0 {
        Direction::Left
    } else if facing.1 < 0 {
        Direction::Up
    } else if facing.1 > 0 {
        Direction::Down
    } else {
        Direction::Stop
    }
}

/// Chooses a character's animation direction from its facing vector.
pub fn facing_to_direction(facing: (i32, i32)) -> (r: Direction)
    ensures
        r == direction_of(facing),
{
    if facing.0 > 0 {
        Direction::Right
    } else if facing.0 < 0 {
        Direction::Left
    } else if facing.1 < 0 {
        Direction::Up
    } else if facing.1 > 0 {
        Direction::Down
    } else {
        Direction::Stop
    }
}

} // verus!
