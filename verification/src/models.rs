//! Small shared model types.

use vstd::prelude::*;

verus! {

/// A cardinal direction used by interactive cell navigation.
#[derive(Clone, Copy, PartialEq, Eq, Structural, Debug)]
pub enum Direction {
    Up,
    Right,
    Left,
    Down,
}

impl Direction {
    /// The unit (x, y) vector of this direction.
    pub fn to_vector(&self) -> (r: (isize, isize))
        ensures
            r == self.spec_vector(),
    {
        match self {
            Self::Up => (1, 0),
            Self::Right => (0, 1),
            Self::Left => (-1, 0),
            Self::Down => (0, -1),
        }
    }

    /// What `to_vector` returns for each direction.
    pub open spec fn spec_vector(self) -> (isize, isize) {
        match self {
            Direction::Up => (1, 0),
            Direction::Right => (0, 1),
            Direction::Left => (-1isize, 0),
            Direction::Down => (0, -1isize),
        }
    }
}

} // verus!
