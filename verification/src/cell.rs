//! Grid cells and the four cardinal directions.
use vstd::prelude::*;

verus! {

/// One coordinate pair on the playing field, `x` to the right, `y` down.
#[derive(Clone, Copy, Debug, PartialEq, Eq, Structural)]
pub struct Cell {
    pub x: i8,
    pub y: i8,
}

impl Cell {
    /// True when the cell lies on a `width x height` field.
    pub open spec fn in_bounds(self, width: i8, height: i8) -> bool {
        0 <= self.x < width && 0 <= self.y < height
    }
}

/// One of the four cardinal movement directions.
#[derive(Clone, Copy, Debug, PartialEq, Eq, Structural)]
pub enum Direction {
    Up,
    Down,
    Left,
    Right,
}

impl Direction {
    /// The direction pointing exactly the opposite way.
    pub open spec fn opposite(self) -> Direction {
        match self {
            Direction::Up => Direction::Down,
            Direction::Down => Direction::Up,
            Direction::Left => Direction::Right,
            Direction::Right => Direction::Left,
        }
    }
}

} // verus!
