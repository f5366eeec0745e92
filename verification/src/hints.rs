//! The cells around a cell, and the number of mines among them.

use vstd::prelude::*;
use crate::coordinate::Coordinate;
use crate::tile::Tile;

verus! {

/// 1 if column `x`, row `y` lies on the `w` by `h` board and holds a mine,
/// else 0. A position off the board holds nothing.
pub open spec fn mine_here(mines: Set<Coordinate>, w: u16, h: u16, x: int, y: int) -> int {
    if 0 <= x < w && 0 <= y < h && mines.contains(Coordinate { x: x as u16, y: y as u16 }) {
        1
    } else {
        0
    }
}

/// How many of the up to eight cells that touch `c` hold a mine.
pub open spec fn adjacent_mines(mines: Set<Coordinate>, w: u16, h: u16, c: Coordinate) -> int {
    mine_here(mines, w, h, c.x - 1, c.y - 1) + mine_here(mines, w, h, c.x + 0, c.y - 1)
        + mine_here(mines, w, h, c.x + 1, c.y - 1) + mine_here(mines, w, h, c.x - 1, c.y + 0)
        + mine_here(mines, w, h, c.x + 1, c.y + 0) + mine_here(mines, w, h, c.x - 1, c.y + 1)
        + mine_here(mines, w, h, c.x + 0, c.y + 1) + mine_here(mines, w, h, c.x + 1, c.y + 1)
}

/// What a cell shows, given where the mines are.
pub open spec fn hint_tile(mines: Set<Coordinate>, w: u16, h: u16, c: Coordinate) -> Tile {
    if mines.contains(c) {
        Tile::Bomb
    } else if adjacent_mines(mines, w, h, c) == 0 {
        Tile::Empty
    } else {
        Tile::BombNeighbor(adjacent_mines(mines, w, h, c) as u8)
    }
}

/// The cell at the given offset from `c`, if it lies on the board.
pub open spec fn offset_cell(w: u16, h: u16, c: Coordinate, dx: int, dy: int) -> Seq<Coordinate> {
    if 0 <= c.x + dx < w && 0 <= c.y + dy < h {
        seq![Coordinate { x: (c.x + dx) as u16, y: (c.y + dy) as u16 }]
    } else {
        Seq::empty()
    }
}

/// The cells of the board that touch `c`, row by row.
pub open spec fn neighbor_cells(w: u16, h: u16, c: Coordinate) -> Seq<Coordinate> {
    offset_cell(w, h, c, -1, -1) + offset_cell(w, h, c, 0, -1) + offset_cell(w, h, c, 1, -1)
        + offset_cell(w, h, c, -1, 0) + offset_cell(w, h, c, 1, 0) + offset_cell(w, h, c, -1, 1)
        + offset_cell(w, h, c, 0, 1) + offset_cell(w, h, c, 1, 1)
}

/// Position of `d` among the nine cells around `c`, row by row.
spec fn offset_rank(c: Coordinate, d: Coordinate) -> int {
    (d.y - c.y + 1) * 3 + (d.x - c.x + 1)
}

/// `s` lists, in order and once each, the cells of the board that touch `c`
/// and stand at position `r` or before it.
spec fn lists_upto(s: Seq<Coordinate>, w: u16, h: u16, c: Coordinate, r: int) -> bool {
    &&& forall|i: int|
        0 <= i < s.len() ==> {
            &&& (#[trigger] s[i]).x < w
            &&& s[i].y < h
            &&& c.touches(s[i])
            &&& offset_rank(c, s[i]) <= r
        }
    &&& forall|i: int, j: int|
        0 <= i < j < s.len() ==> offset_rank(c, #[trigger] s[i]) < offset_rank(c, #[trigger] s[j])
    &&& forall|d: Coordinate|
        d.x < w && d.y < h && c.touches(d) && offset_rank(c, d) <= r ==> #[trigger] s.contains(d)
}

/// Appending the cell at the next offset keeps the list in order and
/// complete.
proof fn lemma_lists_next(s: Seq<Coordinate>, w: u16, h: u16, c: Coordinate, dx: int, dy: int)
    requires
        -1 <= dx <= 1,
        -1 <= dy <= 1,
        !(dx == 0 && dy == 0),
        lists_upto(
            s,
            w,
            h,
            c,
            if dx == 1 && dy == 0 {
                3
            } else {
                (dy + 1) * 3 + dx
            },
        ),
    ensures
        lists_upto(s + offset_cell(w, h, c, dx, dy), w, h, c, (dy + 1) * 3 + dx + 1),
{
    let o = offset_cell(w, h, c, dx, dy);
    let t = s + o;
    let r = (dy + 1) * 3 + dx + 1;
    assert forall|i: int| 0 <= i < t.len() implies {
        &&& (#[trigger] t[i]).x < w
        &&& t[i].y < h
        &&& c.touches(t[i])
        &&& offset_rank(c, t[i]) <= r
    } by {
        if i < s.len() {
            assert(t[i] == s[i]);
        } else {
            assert(t[i] == o[0]);
        }
    }
    assert forall|i: int, j: int| 0 <= i < j < t.len() implies offset_rank(c, #[trigger] t[i])
        < offset_rank(c, #[trigger] t[j]) by {
        assert(t[i] == s[i]);
        if j < s.len() {
            assert(t[j] == s[j]);
        } else {
            assert(t[j] == o[0]);
        }
    }
    assert forall|d: Coordinate|
        d.x < w && d.y < h && c.touches(d) && offset_rank(c, d) <= r implies #[trigger] t.contains(
        d,
    ) by {
        if offset_rank(c, d) == r {
            assert(d.x - c.x == dx && d.y - c.y == dy);
            assert(o[0] == d);
            assert(t[s.len() as int] == d);
        } else {
            assert(s.contains(d));
            let i = choose|i: int| 0 <= i < s.len() && s[i] == d;
            assert(t[i] == d);
        }
    }
}

/// The neighbours of a cell are exactly the cells of the board that touch
/// it, each listed once.
pub proof fn lemma_neighbor_cells(w: u16, h: u16, c: Coordinate)
    ensures
        neighbor_cells(w, h, c).no_duplicates(),
        neighbor_cells(w, h, c).len() <= 8,
        forall|d: Coordinate| #[trigger]
            neighbor_cells(w, h, c).contains(d) <==> (d.x < w && d.y < h && c.touches(d)),
{
    let n = neighbor_cells(w, h, c);
    let e = Seq::<Coordinate>::empty();
    let a0 = e + offset_cell(w, h, c, -1, -1);
    let a1 = a0 + offset_cell(w, h, c, 0, -1);
    let a2 = a1 + offset_cell(w, h, c, 1, -1);
    let a3 = a2 + offset_cell(w, h, c, -1, 0);
    let a4 = a3 + offset_cell(w, h, c, 1, 0);
    let a5 = a4 + offset_cell(w, h, c, -1, 1);
    let a6 = a5 + offset_cell(w, h, c, 0, 1);
    let a7 = a6 + offset_cell(w, h, c, 1, 1);
    assert(lists_upto(e, w, h, c, -1));
    lemma_lists_next(e, w, h, c, -1, -1);
    lemma_lists_next(a0, w, h, c, 0, -1);
    lemma_lists_next(a1, w, h, c, 1, -1);
    lemma_lists_next(a2, w, h, c, -1, 0);
    lemma_lists_next(a3, w, h, c, 1, 0);
    lemma_lists_next(a4, w, h, c, -1, 1);
    lemma_lists_next(a5, w, h, c, 0, 1);
    lemma_lists_next(a6, w, h, c, 1, 1);
    assert(n =~= a7);
    assert forall|d: Coordinate| #[trigger] n.contains(d) implies d.x < w && d.y < h && c.touches(
        d,
    ) by {
        let i = choose|i: int| 0 <= i < n.len() && n[i] == d;
        assert(n[i] == d);
    }
}

/// A mine on a cell of the board that touches `c` is counted among the
/// mines around `c`.
pub proof fn lemma_touching_mine_counts(
    mines: Set<Coordinate>,
    w: u16,
    h: u16,
    c: Coordinate,
    d: Coordinate,
)
    requires
        d.x < w,
        d.y < h,
        c.touches(d),
        mines.contains(d),
    ensures
        adjacent_mines(mines, w, h, c) >= 1,
{
    let dx = d.x - c.x;
    let dy = d.y - c.y;
    assert(mine_here(mines, w, h, c.x + dx, c.y + dy) == 1);
}

/// The cells of the board that touch `c` and hold a mine.
pub open spec fn touching_mines(mines: Set<Coordinate>, w: u16, h: u16, c: Coordinate) -> Set<
    Coordinate,
> {
    Set::new(|d: Coordinate| d.x < w && d.y < h && c.touches(d) && mines.contains(d))
}

/// The touching mines at position `r` or before it.
spec fn touching_upto(mines: Set<Coordinate>, w: u16, h: u16, c: Coordinate, r: int) -> Set<
    Coordinate,
> {
    Set::new(
        |d: Coordinate|
            d.x < w && d.y < h && c.touches(d) && mines.contains(d) && offset_rank(c, d) <= r,
    )
}

/// Going on to the next offset adds the mine there, if there is one, to the
/// touching mines.
proof fn lemma_touching_next(
    mines: Set<Coordinate>,
    w: u16,
    h: u16,
    c: Coordinate,
    dx: int,
    dy: int,
)
    requires
        -1 <= dx <= 1,
        -1 <= dy <= 1,
        !(dx == 0 && dy == 0),
        touching_upto(
            mines,
            w,
            h,
            c,
            if dx == 1 && dy == 0 {
                3
            } else {
                (dy + 1) * 3 + dx
            },
        ).finite(),
    ensures
        touching_upto(mines, w, h, c, (dy + 1) * 3 + dx + 1).finite(),
        touching_upto(mines, w, h, c, (dy + 1) * 3 + dx + 1).len() == touching_upto(
            mines,
            w,
            h,
            c,
            if dx == 1 && dy == 0 {
                3
            } else {
                (dy + 1) * 3 + dx
            },
        ).len() + mine_here(mines, w, h, c.x + dx, c.y + dy),
{
    let r = (dy + 1) * 3 + dx + 1;
    let r0 = if dx == 1 && dy == 0 {
        3
    } else {
        (dy + 1) * 3 + dx
    };
    let before = touching_upto(mines, w, h, c, r0);
    let after = touching_upto(mines, w, h, c, r);
    if mine_here(mines, w, h, c.x + dx, c.y + dy) == 1 {
        let d = Coordinate { x: (c.x + dx) as u16, y: (c.y + dy) as u16 };
        assert(after =~= before.insert(d));
        assert(!before.contains(d));
    } else {
        assert(after =~= before);
    }
}

/// The number that a cell's hint is made of is the number of cells of the
/// board that touch it and hold a mine.
pub proof fn lemma_adjacent_mines_counts(mines: Set<Coordinate>, w: u16, h: u16, c: Coordinate)
    ensures
        touching_mines(mines, w, h, c).finite(),
        adjacent_mines(mines, w, h, c) == touching_mines(mines, w, h, c).len(),
        0 <= adjacent_mines(mines, w, h, c) <= 8,
{
    assert(touching_upto(mines, w, h, c, -1) =~= Set::<Coordinate>::empty());
    lemma_touching_next(mines, w, h, c, -1, -1);
    lemma_touching_next(mines, w, h, c, 0, -1);
    lemma_touching_next(mines, w, h, c, 1, -1);
    lemma_touching_next(mines, w, h, c, -1, 0);
    lemma_touching_next(mines, w, h, c, 1, 0);
    lemma_touching_next(mines, w, h, c, -1, 1);
    lemma_touching_next(mines, w, h, c, 0, 1);
    lemma_touching_next(mines, w, h, c, 1, 1);
    assert(touching_upto(mines, w, h, c, 8) =~= touching_mines(mines, w, h, c));
}

} // verus!
