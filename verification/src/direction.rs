//! Headings on the program grid.

use vstd::prelude::*;

verus! {

/// One of the four cardinal headings a cursor can have.
#[derive(Clone, Copy, Debug, PartialEq, Eq, Structural)]
pub enum Direction {
    North,
    East,
    South,
    West,
}

impl Direction {
    /// The heading turned by half a turn.
    pub open spec fn spec_opposite(&self) -> Direction {
        match self {
            Direction::North => Direction::South,
            Direction::West => Direction::East,
            Direction::South => Direction::North,
            Direction::East => Direction::West,
        }
    }

    /// The heading turned by a quarter turn to the left.
    pub open spec fn spec_counter_clockwise(&self) -> Direction {
        match self {
            Direction::North => Direction::West,
            Direction::West => Direction::South,
            Direction::South => Direction::East,
            Direction::East => Direction::North,
        }
    }

    /// The heading turned by a quarter turn to the right.
    pub open spec fn spec_clockwise(&self) -> Direction {
        match self {
            Direction::North => Direction::East,
            Direction::East => Direction::South,
            Direction::South => Direction::West,
            Direction::West => Direction::North,
        }
    }

    /// How far one step with this heading moves along a row: one column to
    /// the east, one to the west, or none.
    pub open spec fn column_step(&self) -> int {
        match self {
            Direction::East => 1,
            Direction::West => -1,
            _ => 0,
        }
    }

    /// How far one step with this heading moves down the rows: one row to
    /// the south, one to the north, or none.
    pub open spec fn row_step(&self) -> int {
        match self {
            Direction::South => 1,
            Direction::North => -1,
            _ => 0,
        }
    }

    #[verifier::when_used_as_spec(spec_opposite)]
    pub fn opposite(&self) -> (r: Direction)
        ensures
            r == self.spec_opposite(),
    {
        match self {
            Direction::North => Direction::South,
            Direction::West => Direction::East,
            Direction::South => Direction::North,
            Direction::East => Direction::West,
        }
    }

    #[verifier::when_used_as_spec(spec_counter_clockwise)]
    pub fn counter_clockwise(&self) -> (r: Direction)
        ensures
            r == self.spec_counter_clockwise(),
    {
        match self {
            Direction::North => Direction::West,
            Direction::West => Direction::South,
            Direction::South => Direction::East,
            Direction::East => Direction::North,
        }
    }
}

/// Half a turn twice, and a quarter turn four times, give back the heading;
/// a quarter turn to the left followed by half a turn is a quarter turn to
/// the right.
pub proof fn lemma_direction_algebra(d: Direction)
    ensures
        d.spec_opposite().spec_opposite() == d,
        d.spec_counter_clockwise().spec_counter_clockwise().spec_counter_clockwise().spec_counter_clockwise()
            == d,
        d.spec_counter_clockwise().spec_opposite() == d.spec_clockwise(),
        d.spec_counter_clockwise().spec_counter_clockwise() == d.spec_opposite(),
        d.spec_clockwise().spec_counter_clockwise() == d,
{
}

} // verus!
