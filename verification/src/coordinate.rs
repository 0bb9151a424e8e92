//! Coordinates on the board, the four directions, and what a move comes to.

use vstd::prelude::*;

verus! {

/// A cell of the board. `x` counts the rows from the upper edge and `y` the
/// columns from the left edge, both from 0.
#[derive(Clone, Copy, Debug, PartialEq, Eq, Structural)]
pub struct Coordinate {
    pub x: usize,
    pub y: usize,
}

/// A direction of movement.
#[derive(Clone, Copy, Debug, PartialEq, Eq, Structural)]
pub enum InputDirection {
    UP,
    DOWN,
    LEFT,
    RIGHT,
}

/// Why a move did not take place.
#[derive(Clone, Copy, Debug, PartialEq, Eq, Structural)]
pub enum BlockReason {
    /// The target lies beyond the edge of the board.
    EdgeOfWorld,
    /// The target tile cannot be entered.
    Obstacle,
}

/// What one attempt to move came to.
#[derive(Clone, Copy, Debug, PartialEq, Eq, Structural)]
pub enum MoveOutcome {
    Moved { from: Coordinate, to: Coordinate },
    Blocked(BlockReason),
}

impl InputDirection {
    /// The step of one move, as a change of row and a change of column.
    pub open spec fn unit_vector(self) -> (int, int) {
        match self {
            InputDirection::UP => (-1, 0),
            InputDirection::DOWN => (1, 0),
            InputDirection::LEFT => (0, -1),
            InputDirection::RIGHT => (0, 1),
        }
    }

    /// The direction that leads back.
    pub open spec fn reversed(self) -> InputDirection {
        match self {
            InputDirection::UP => InputDirection::DOWN,
            InputDirection::DOWN => InputDirection::UP,
            InputDirection::LEFT => InputDirection::RIGHT,
            InputDirection::RIGHT => InputDirection::LEFT,
        }
    }

    /// The direction that leads back.
    pub fn opposite(&self) -> (d: InputDirection)
        ensures
            d == self.reversed(),
    {
        match self {
            InputDirection::UP => InputDirection::DOWN,
            InputDirection::DOWN => InputDirection::UP,
            InputDirection::LEFT => InputDirection::RIGHT,
            InputDirection::RIGHT => InputDirection::LEFT,
        }
    }
}

impl Coordinate {
    /// Whether the cell lies on a board of `size` rows and `size` columns.
    pub open spec fn within(self, size: nat) -> bool {
        self.x < size && self.y < size
    }

    /// Whether this cell comes before `other` where the cells are read row
    /// after row, each row from its first column on.
    pub open spec fn precedes(self, other: Coordinate) -> bool {
        self.x < other.x || (self.x == other.x && self.y < other.y)
    }

    /// The cell one step from this one in direction `d`, if it lies on a
    /// board of `size` rows and `size` columns.
    pub open spec fn neighbor(self, d: InputDirection, size: nat) -> Option<Coordinate> {
        let row = self.x + d.unit_vector().0;
        let column = self.y + d.unit_vector().1;
        if 0 <= row < size && 0 <= column < size {
            Some(Coordinate { x: row as usize, y: column as usize })
        } else {
            None
        }
    }

    /// The cell at row `x` and column `y`.
    pub fn new(x: usize, y: usize) -> (c: Coordinate)
        ensures
            c.x == x,
            c.y == y,
    {
        Coordinate { x, y }
    }

    /// Whether the cell lies on a board of `size` rows and `size` columns.
    pub fn is_within(&self, size: usize) -> (b: bool)
        ensures
            b == self.within(size as nat),
    {
        self.x < size && self.y < size
    }

    /// The cell one step from this one in direction `d`, or nothing if that
    /// step leaves a board of `size` rows and `size` columns.
    pub fn step(&self, d: InputDirection, size: usize) -> (target: Option<Coordinate>)
        ensures
            target == self.neighbor(d, size as nat),
    {
        match d {
            InputDirection::UP => {
                if 1 <= self.x && self.x - 1 < size && self.y < size {
                    Some(Coordinate { x: self.x - 1, y: self.y })
                } else {
                    None
                }
            },
            InputDirection::DOWN => {
                if self.x < size && size - self.x >= 2 && self.y < size {
                    Some(Coordinate { x: self.x + 1, y: self.y })
                } else {
                    None
                }
            },
            InputDirection::LEFT => {
                if 1 <= self.y && self.y - 1 < size && self.x < size {
                    Some(Coordinate { x: self.x, y: self.y - 1 })
                } else {
                    None
                }
            },
            InputDirection::RIGHT => {
                if self.y < size && size - self.y >= 2 && self.x < size {
                    Some(Coordinate { x: self.x, y: self.y + 1 })
                } else {
                    None
                }
            },
        }
    }
}

} // verus!
