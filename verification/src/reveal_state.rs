//! The status of the cells during a session.

use vstd::prelude::*;
use crate::coordinate::Coordinate;
use crate::error::BoardError;
use crate::plane::Plane;

verus! {

/// What a player sees of one cell.
#[derive(Debug, Copy, Clone, PartialEq, Eq, Structural, Hash)]
pub enum Status {
    /// Hidden, and free to be revealed or flagged.
    Covered,
    /// Revealed; it stays so.
    Uncovered,
    /// Hidden and marked by the player; it cannot be revealed until the
    /// mark is taken off.
    Flagged,
}

/// The status of every cell of a board during one play session. It is kept
/// apart from what the cells hold, so that one board can be played again.
#[derive(Debug, Clone)]
pub struct RevealState {
    marks: Plane<Status>,
}

impl View for RevealState {
    type V = Map<Coordinate, Status>;

    /// The status of each cell of the board.
    open spec fn view(&self) -> Map<Coordinate, Status> {
        Map::new(|c: Coordinate| self.in_bounds(c), |c: Coordinate| self.status(c))
    }
}

impl RevealState {
    /// Number of columns.
    pub closed spec fn spec_width(&self) -> u16 {
        self.marks.spec_width()
    }

    /// Number of rows.
    pub closed spec fn spec_height(&self) -> u16 {
        self.marks.spec_height()
    }

    /// The storage holds one status per cell.
    pub closed spec fn wf(&self) -> bool {
        self.marks.wf()
    }

    /// The status of a cell.
    pub closed spec fn status(&self, c: Coordinate) -> Status {
        self.marks.at(c)
    }

    /// Whether the coordinate lies on the board.
    pub open spec fn in_bounds(&self, c: Coordinate) -> bool {
        c.x < self.spec_width() && c.y < self.spec_height()
    }

    /// The cells that have been revealed.
    pub open spec fn uncovered(&self) -> Set<Coordinate> {
        Set::new(|c: Coordinate| self.in_bounds(c) && self.status(c) is Uncovered)
    }

    /// The state at the start of a session: every cell is covered.
    pub fn new(width: u16, height: u16) -> (s: RevealState)
        ensures
            s.wf(),
            s.spec_width() == width,
            s.spec_height() == height,
            forall|c: Coordinate|
                #![trigger s.status(c)]
                s.in_bounds(c) ==> s.status(c) is Covered,
    {
        RevealState { marks: Plane::filled(width, height, Status::Covered) }
    }

    #[verifier::when_used_as_spec(spec_width)]
    pub fn width(&self) -> (w: u16)
        ensures
            w == self.spec_width(),
    {
        self.marks.width()
    }

    #[verifier::when_used_as_spec(spec_height)]
    pub fn height(&self) -> (h: u16)
        ensures
            h == self.spec_height(),
    {
        self.marks.height()
    }

    /// The status of a cell, or `InvalidCoordinate` for a coordinate off the
    /// board.
    pub fn status_at(&self, c: Coordinate) -> (r: Result<Status, BoardError>)
        requires
            self.wf(),
        ensures
            self.in_bounds(c) ==> r == Ok::<Status, BoardError>(self.status(c)),
            !self.in_bounds(c) ==> r == Err::<Status, BoardError>(BoardError::InvalidCoordinate),
    {
        if self.marks.holds(c) {
            Ok(self.marks.get(c))
        } else {
            Err(BoardError::InvalidCoordinate)
        }
    }

    /// The status of a cell of the board.
    pub(crate) fn get(&self, c: Coordinate) -> (s: Status)
        requires
            self.wf(),
            self.in_bounds(c),
        ensures
            s == self.status(c),
    {
        self.marks.get(c)
    }

    /// Gives one cell a new status and leaves every other cell as it was.
    pub(crate) fn mark(&mut self, c: Coordinate, status: Status)
        requires
            old(self).wf(),
            old(self).in_bounds(c),
        ensures
            final(self).wf(),
            final(self).spec_width() == old(self).spec_width(),
            final(self).spec_height() == old(self).spec_height(),
            final(self).status(c) == status,
            forall|d: Coordinate|
                old(self).in_bounds(d) && d != c ==> #[trigger] final(self).status(d) == old(
                    self,
                ).status(d),
    {
        self.marks.set(c, status);
    }
}

} // verus!
