//! Grid coordinates and the four cardinal directions.

use vstd::prelude::*;

verus! {

/// A grid coordinate.  Signed so that out-of-bounds neighbours of border
/// cells, and the "unset" start sentinel, can be represented.
#[derive(Clone, Copy, PartialEq, Eq, Structural, Debug, Hash)]
pub struct Coord {
    pub x: i32,
    pub y: i32,
}

/// The four cardinal directions.  North decreases `y`, South increases it;
/// East increases `x`, West decreases it.
#[derive(Clone, Copy, PartialEq, Eq, Structural, Debug, Hash)]
pub enum News {
    North,
    East,
    West,
    South,
}

impl Coord {
    /// The coordinate one step in direction `d`.
    pub open spec fn spec_step(self, d: News) -> Coord {
        match d {
            News::North => Coord { x: self.x, y: (self.y - 1) as i32 },
            News::East => Coord { x: (self.x + 1) as i32, y: self.y },
            News::West => Coord { x: (self.x - 1) as i32, y: self.y },
            News::South => Coord { x: self.x, y: (self.y + 1) as i32 },
        }
    }

    /// Steps to the neighbouring coordinate in direction `d`.
    pub fn step(self, d: News) -> (r: Coord)
        requires
            i32::MIN < self.x < i32::MAX,
            i32::MIN < self.y < i32::MAX,
        ensures
            r == self.spec_step(d),
    {
        match d {
            News::North => Coord { x: self.x, y: self.y - 1 },
            News::East => Coord { x: self.x + 1, y: self.y },
            News::West => Coord { x: self.x - 1, y: self.y },
            News::South => Coord { x: self.x, y: self.y + 1 },
        }
    }
}

/// Two coordinates are cardinal neighbours: they differ by one in exactly
/// one axis.
pub open spec fn adjacent(a: Coord, b: Coord) -> bool {
    ||| (a.x == b.x && (a.y + 1 == b.y || b.y + 1 == a.y))
    ||| (a.y == b.y && (a.x + 1 == b.x || b.x + 1 == a.x))
}

/// One step in any direction lands on a cardinal neighbour.
pub proof fn lemma_step_adjacent(a: Coord, d: News)
    requires
        i32::MIN < a.x < i32::MAX,
        i32::MIN < a.y < i32::MAX,
    ensures
        adjacent(a, a.spec_step(d)),
{
}

impl News {
    /// The next direction clockwise.
    pub open spec fn spec_turn_right(self) -> News {
        match self {
            News::North => News::East,
            News::East => News::South,
            News::South => News::West,
            News::West => News::North,
        }
    }

    /// The next direction counter-clockwise.
    pub open spec fn spec_turn_left(self) -> News {
        match self {
            News::North => News::West,
            News::West => News::South,
            News::South => News::East,
            News::East => News::North,
        }
    }

    /// The opposite direction.
    pub open spec fn spec_back(self) -> News {
        match self {
            News::North => News::South,
            News::South => News::North,
            News::East => News::West,
            News::West => News::East,
        }
    }

    /// Turns clockwise.
    pub fn turn_right(&self) -> (r: News)
        ensures
            r == self.spec_turn_right(),
    {
        match self {
            News::North => News::East,
            News::East => News::South,
            News::South => News::West,
            News::West => News::North,
        }
    }

    /// Turns counter-clockwise.
    pub fn turn_left(&self) -> (r: News)
        ensures
            r == self.spec_turn_left(),
    {
        match self {
            News::North => News::West,
            News::West => News::South,
            News::South => News::East,
            News::East => News::North,
        }
    }

    /// Turns around.
    pub fn back(&self) -> (r: News)
        ensures
            r == self.spec_back(),
    {
        match self {
            News::North => News::South,
            News::South => News::North,
            News::East => News::West,
            News::West => News::East,
        }
    }
}

} // verus!
