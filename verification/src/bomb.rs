//! The marker of a cell that holds a mine.

use vstd::prelude::*;

verus! {

/// Marks a cell that holds a mine.
#[derive(Debug, Copy, Clone, Ord, PartialOrd, Eq, PartialEq, Hash)]
pub struct Bomb;

} // verus!
