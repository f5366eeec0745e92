//! The reasons for which a request is turned down.

use vstd::prelude::*;

verus! {

/// Why a request to the board was turned down.
#[derive(Debug, Copy, Clone, PartialEq, Eq, Structural, Hash)]
pub enum BoardError {
    /// The board has no cells, or is asked to hold more mines than it has
    /// room for.
    InvalidConfig,
    /// The coordinate does not lie on the board.
    InvalidCoordinate,
}

} // verus!
