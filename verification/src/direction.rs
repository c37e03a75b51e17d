//! The four directions in which the snake can move.

use vstd::prelude::*;

verus! {

/// A direction of movement on the grid.
#[derive(Debug, Copy, Clone, PartialEq, Eq, Structural)]
pub enum Direction {
    Up,
    Down,
    Left,
    Right,
}

impl Direction {
    /// The direction that points the other way: `Up` and `Down` are paired,
    /// and so are `Left` and `Right`.
    pub open spec fn opposite(self) -> Direction {
        match self {
            Direction::Up => Direction::Down,
            Direction::Down => Direction::Up,
            Direction::Left => Direction::Right,
            Direction::Right => Direction::Left,
        }
    }

    /// The change of the row index, in cells, of one step in this direction.
    pub open spec fn row_delta(self) -> int {
        match self {
            Direction::Up => -1,
            Direction::Down => 1,
            Direction::Left => 0,
            Direction::Right => 0,
        }
    }

    /// The change of the column index, in cells, of one step in this direction.
    pub open spec fn col_delta(self) -> int {
        match self {
            Direction::Up => 0,
            Direction::Down => 0,
            Direction::Left => -1,
            Direction::Right => 1,
        }
    }

    /// Returns the opposite direction.
    pub fn get_opposite(&self) -> (o: Direction)
        ensures
            o == self.opposite(),
    {
        match self {
            Direction::Up => Direction::Down,
            Direction::Down => Direction::Up,
            Direction::Left => Direction::Right,
            Direction::Right => Direction::Left,
        }
    }

    /// Taking the opposite twice gives the direction back.
    pub proof fn lemma_opposite_involution(d: Direction)
        ensures
            d.opposite().opposite() == d,
    {
    }

    /// A direction and its opposite differ, and a step in the one undoes a step
    /// in the other.
    pub proof fn lemma_opposite_reverses(d: Direction)
        ensures
            d.opposite() != d,
            d.opposite().row_delta() == -d.row_delta(),
            d.opposite().col_delta() == -d.col_delta(),
    {
    }
}

} // verus!
