//! A rectangular store with one value per cell.

use vstd::prelude::*;
use crate::coordinate::Coordinate;

verus! {

/// Row-major position of column `x`, row `y` on a board `w` columns wide.
pub open spec fn cell_index(w: int, x: int, y: int) -> int {
    y * w + x
}

/// Every cell of a `w` by `h` board has its position among the first
/// `w * h`.
pub proof fn lemma_cell_index_bound(w: int, h: int, x: int, y: int)
    requires
        0 <= x < w,
        0 <= y < h,
    ensures
        0 <= cell_index(w, x, y) < w * h,
{
    assert(0 <= y * w && y * w + w <= h * w && h * w == w * h) by (nonlinear_arith)
        requires
            0 <= y < h,
            0 < w,
    ;
}

/// Positions are ordered row by row, and within a row by column.
pub proof fn lemma_cell_index_order(w: int, x1: int, y1: int, x2: int, y2: int)
    requires
        0 <= x1 < w,
        0 <= x2 < w,
        0 <= y1,
        0 <= y2,
    ensures
        cell_index(w, x1, y1) < cell_index(w, x2, y2) <==> (y1 < y2 || (y1 == y2 && x1 < x2)),
        cell_index(w, x1, y1) == cell_index(w, x2, y2) <==> (y1 == y2 && x1 == x2),
{
    if y1 < y2 {
        assert(y1 * w + w <= y2 * w) by (nonlinear_arith)
            requires
                y1 < y2,
                0 < w,
        ;
    } else if y2 < y1 {
        assert(y2 * w + w <= y1 * w) by (nonlinear_arith)
            requires
                y2 < y1,
                0 < w,
        ;
    }
}

/// A rectangular board that holds one value per cell.
#[derive(Debug, Clone)]
pub struct Plane<T> {
    width: u16,
    height: u16,
    cells: Vec<T>,
}

impl<T: Copy> Plane<T> {
    /// Number of columns.
    pub closed spec fn spec_width(&self) -> u16 {
        self.width
    }

    /// Number of rows.
    pub closed spec fn spec_height(&self) -> u16 {
        self.height
    }

    /// The board holds exactly one value for each of its cells.
    pub closed spec fn wf(&self) -> bool {
        self.cells.len() == self.width * self.height
    }

    /// Whether the cell lies on the board.
    pub open spec fn contains(&self, c: Coordinate) -> bool {
        c.x < self.spec_width() && c.y < self.spec_height()
    }

    /// The value held for a cell of the board.
    pub closed spec fn at(&self, c: Coordinate) -> T {
        self.cells@[cell_index(self.width as int, c.x as int, c.y as int)]
    }

    /// The cells of the board that satisfy a predicate on their value.
    pub open spec fn cells_where(&self, p: spec_fn(T) -> bool) -> Set<Coordinate> {
        Set::new(|c: Coordinate| self.contains(c) && p(self.at(c)))
    }

    #[verifier::when_used_as_spec(spec_width)]
    pub fn width(&self) -> (w: u16)
        ensures
            w == self.spec_width(),
    {
        self.width
    }

    #[verifier::when_used_as_spec(spec_height)]
    pub fn height(&self) -> (h: u16)
        ensures
            h == self.spec_height(),
    {
        self.height
    }

    /// A board of the given size that holds `value` in every cell.
    pub fn filled(width: u16, height: u16, value: T) -> (p: Plane<T>)
        ensures
            p.wf(),
            p.spec_width() == width,
            p.spec_height() == height,
            forall|c: Coordinate| p.contains(c) ==> #[trigger] p.at(c) == value,
    {
        let w: usize = width as usize;
        let h: usize = height as usize;
        assert(w * h <= 0xffff * 0xffff) by (nonlinear_arith)
            requires
                w <= 0xffff,
                h <= 0xffff,
        ;
        let n: usize = w * h;
        let mut cells: Vec<T> = Vec::new();
        let mut i: usize = 0;
        while i < n
            invariant
                i <= n,
                cells.len() == i,
                forall|j: int| 0 <= j < i ==> cells@[j] == value,
            decreases n - i,
        {
            cells.push(value);
            i = i + 1;
        }
        let p = Plane { width, height, cells };
        assert forall|c: Coordinate| p.contains(c) implies #[trigger] p.at(c) == value by {
            lemma_cell_index_bound(width as int, height as int, c.x as int, c.y as int);
        }
        p
    }

    /// Whether the cell lies on the board.
    pub fn holds(&self, c: Coordinate) -> (b: bool)
        ensures
            b == self.contains(c),
    {
        c.x < self.width && c.y < self.height
    }

    /// The value held for a cell.
    pub fn get(&self, c: Coordinate) -> (v: T)
        requires
            self.wf(),
            self.contains(c),
        ensures
            v == self.at(c),
    {
        proof {
            lemma_cell_index_bound(
                self.width as int,
                self.height as int,
                c.x as int,
                c.y as int,
            );
        }
        assert(self.width * self.height <= 0xffff * 0xffff) by (nonlinear_arith)
            requires
                self.width <= 0xffff,
                self.height <= 0xffff,
        ;
        let i: usize = c.y as usize * self.width as usize + c.x as usize;
        self.cells[i]
    }

    /// Replaces the value held for one cell and leaves every other cell as
    /// it was.
    pub fn set(&mut self, c: Coordinate, value: T)
        requires
            old(self).wf(),
            old(self).contains(c),
        ensures
            final(self).wf(),
            final(self).spec_width() == old(self).spec_width(),
            final(self).spec_height() == old(self).spec_height(),
            final(self).at(c) == value,
            forall|d: Coordinate|
                old(self).contains(d) && d != c ==> #[trigger] final(self).at(d) == old(self).at(d),
    {
        proof {
            lemma_cell_index_bound(
                self.width as int,
                self.height as int,
                c.x as int,
                c.y as int,
            );
        }
        assert(self.width * self.height <= 0xffff * 0xffff) by (nonlinear_arith)
            requires
                self.width <= 0xffff,
                self.height <= 0xffff,
        ;
        let i: usize = c.y as usize * self.width as usize + c.x as usize;
        self.cells.set(i, value);
        assert forall|d: Coordinate| old(self).contains(d) && d != c implies #[trigger] self.at(d)
            == old(self).at(d) by {
            lemma_cell_index_order(
                self.width as int,
                c.x as int,
                c.y as int,
                d.x as int,
                d.y as int,
            );
            lemma_cell_index_bound(
                self.width as int,
                self.height as int,
                d.x as int,
                d.y as int,
            );
        }
    }
}

} // verus!
