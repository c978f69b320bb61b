//! What drives a mover: the four directional keys of the player and the
//! direction drawn for the enemy.

use vstd::prelude::*;
use crate::grid::{Offset, Shift};

verus! {

/// The state of the four directional keys at one instant.
#[derive(Clone, Copy, Debug, PartialEq, Eq, Structural)]
pub struct Keys {
    pub up: bool,
    pub down: bool,
    pub left: bool,
    pub right: bool,
}

/// `1` for a pressed key, `0` for a released one.
pub open spec fn pressed(key: bool) -> int {
    if key {
        1
    } else {
        0
    }
}

impl Keys {
    /// The net displacement the keys ask for: each pressed key contributes one
    /// cell on its axis, opposite keys cancel, and the two axes are
    /// independent (no diagonal normalisation).
    pub open spec fn shift(self) -> Shift {
        Shift {
            dx: pressed(self.right) - pressed(self.left),
            dy: pressed(self.up) - pressed(self.down),
        }
    }

    /// No key pressed.
    pub fn none() -> (keys: Keys)
        ensures
            keys == (Keys { up: false, down: false, left: false, right: false }),
    {
        Keys { up: false, down: false, left: false, right: false }
    }

    /// The net displacement the keys ask for.
    pub fn offset(&self) -> (by: Offset)
        ensures
            by@ == self.shift(),
            by@.is_unit(),
    {
        let mut dx: i32 = 0;
        let mut dy: i32 = 0;
        if self.left {
            dx = dx - 1;
        }
        if self.right {
            dx = dx + 1;
        }
        if self.up {
            dy = dy + 1;
        }
        if self.down {
            dy = dy - 1;
        }
        Offset { dx, dy }
    }
}

/// One of the four directions a mover can be sent in.
#[derive(Clone, Copy, Debug, PartialEq, Eq, Structural)]
pub enum Direction {
    West,
    East,
    North,
    South,
}

impl Direction {
    /// The index a direction is drawn by: west 0, east 1, north 2, south 3.
    pub open spec fn ordinal(self) -> int {
        match self {
            Direction::West => 0,
            Direction::East => 1,
            Direction::North => 2,
            Direction::South => 3,
        }
    }

    /// One cell in the direction: west and east along `x`, south and north
    /// along `y`.
    pub open spec fn shift(self) -> Shift {
        match self {
            Direction::West => Shift { dx: -1, dy: 0 },
            Direction::East => Shift { dx: 1, dy: 0 },
            Direction::North => Shift { dx: 0, dy: 1 },
            Direction::South => Shift { dx: 0, dy: -1 },
        }
    }

    /// The direction with the given index, if the index is one of the four.
    pub fn from_index(index: u32) -> (dir: Option<Direction>)
        ensures
            index < 4 <==> dir is Some,
            dir matches Some(d) ==> d.ordinal() == index,
    {
        if index < 4 {
            Some(Direction::of_index(index))
        } else {
            None
        }
    }

    /// The direction with the given index.
    pub fn of_index(index: u32) -> (dir: Direction)
        requires
            index < 4,
        ensures
            dir.ordinal() == index,
    {
        if index == 0 {
            Direction::West
        } else if index == 1 {
            Direction::East
        } else if index == 2 {
            Direction::North
        } else {
            Direction::South
        }
    }

    /// The index of the direction.
    pub fn index(self) -> (index: u32)
        ensures
            index == self.ordinal(),
    {
        match self {
            Direction::West => 0,
            Direction::East => 1,
            Direction::North => 2,
            Direction::South => 3,
        }
    }

    /// One cell in the direction.
    pub fn offset(self) -> (by: Offset)
        ensures
            by@ == self.shift(),
            by@.is_unit(),
    {
        match self {
            Direction::West => Offset { dx: -1, dy: 0 },
            Direction::East => Offset { dx: 1, dy: 0 },
            Direction::North => Offset { dx: 0, dy: 1 },
            Direction::South => Offset { dx: 0, dy: -1 },
        }
    }
}

/// A direction is determined by its index.
pub proof fn lemma_ordinal_injective(a: Direction, b: Direction)
    requires
        a.ordinal() == b.ordinal(),
    ensures
        a == b,
{
}

} // verus!
