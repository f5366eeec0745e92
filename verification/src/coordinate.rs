//! Addresses of cells, and when two cells touch.

use vstd::prelude::*;

verus! {

/// The address of one cell of a board: column `x`, row `y`.
#[derive(Debug, Copy, Clone, PartialEq, Eq, Structural, PartialOrd, Ord, Hash)]
pub struct Coordinate {
    pub x: u16,
    pub y: u16,
}

impl Coordinate {
    pub fn new(x: u16, y: u16) -> (c: Coordinate)
        ensures
            c == (Coordinate { x, y }),
    {
        Coordinate { x, y }
    }

    /// Two distinct cells touch when they differ by at most one column and
    /// at most one row.
    pub open spec fn touches(self, other: Coordinate) -> bool {
        &&& self != other
        &&& -1 <= self.x - other.x <= 1
        &&& -1 <= self.y - other.y <= 1
    }

    /// A cell is near another when it is that cell or touches it.
    pub open spec fn near(self, other: Coordinate) -> bool {
        self == other || self.touches(other)
    }

    /// Whether the two cells touch.
    pub fn is_adjacent(&self, other: &Coordinate) -> (b: bool)
        ensures
            b == self.touches(*other),
    {
        let dx: u16 = if self.x >= other.x { self.x - other.x } else { other.x - self.x };
        let dy: u16 = if self.y >= other.y { self.y - other.y } else { other.y - self.y };
        dx <= 1 && dy <= 1 && !(dx == 0 && dy == 0)
    }

    /// Whether the cell is the other one or touches it.
    pub fn is_near(&self, other: &Coordinate) -> (b: bool)
        ensures
            b == self.near(*other),
    {
        let dx: u16 = if self.x >= other.x { self.x - other.x } else { other.x - self.x };
        let dy: u16 = if self.y >= other.y { self.y - other.y } else { other.y - self.y };
        dx <= 1 && dy <= 1
    }
}

/// Touching is symmetric.
pub proof fn lemma_touches_symmetric(a: Coordinate, b: Coordinate)
    ensures
        a.touches(b) == b.touches(a),
{
}

} // verus!
