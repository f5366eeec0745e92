//! The board of mines and hints, and how it is built.

use vstd::prelude::*;
use crate::coordinate::Coordinate;
use crate::error::BoardError;
use crate::hints::hint_tile;
use crate::hints::lemma_neighbor_cells;
use crate::hints::mine_here;
use crate::hints::neighbor_cells;
use crate::hints::offset_cell;
use crate::placement::all_cells;
use crate::placement::board_cells;
use crate::placement::deal;
use crate::placement::dealt;
use crate::placement::lemma_board_cells;
use crate::placement::lemma_dealt;
use crate::plane::Plane;
use crate::random::SeededRng;
use crate::tile::Tile;

verus! {

/// The cells of a board of flags that are set.
pub open spec fn marked(flags: &Plane<bool>) -> Set<Coordinate> {
    Set::new(|c: Coordinate| flags.contains(c) && flags.at(c))
}

/// The set flags of a board are no more than the board has cells.
pub proof fn lemma_marked_fits(flags: &Plane<bool>)
    ensures
        marked(flags).finite(),
        marked(flags).len() <= flags.spec_width() * flags.spec_height(),
{
    let all = board_cells(flags.spec_width(), flags.spec_height());
    lemma_board_cells(flags.spec_width(), flags.spec_height());
    all.unique_seq_to_set();
    vstd::seq_lib::seq_to_set_is_finite(all);
    assert(marked(flags).subset_of(all.to_set())) by {
        assert forall|c: Coordinate| marked(flags).contains(c) implies all.to_set().contains(
            c,
        ) by {
            assert(all.contains(c));
        }
    }
    vstd::set_lib::lemma_len_subset(marked(flags), all.to_set());
}

/// A board holds no more mines than it has cells.
pub proof fn lemma_mines_fit(grid: &Grid)
    requires
        grid.wf(),
    ensures
        grid.spec_width() * grid.spec_height() > 0,
        grid.spec_mine_count() <= grid.spec_width() * grid.spec_height(),
{
    let all = board_cells(grid.spec_width(), grid.spec_height());
    lemma_board_cells(grid.spec_width(), grid.spec_height());
    all.unique_seq_to_set();
    vstd::seq_lib::seq_to_set_is_finite(all);
    assert(grid.mines().subset_of(all.to_set())) by {
        assert forall|c: Coordinate| grid.mines().contains(c) implies all.to_set().contains(c) by {
            assert(all.contains(c));
        }
    }
    vstd::set_lib::lemma_len_subset(grid.mines(), all.to_set());
    assert(grid.spec_width() * grid.spec_height() > 0) by (nonlinear_arith)
        requires
            grid.spec_width() > 0,
            grid.spec_height() > 0,
    ;
}

/// Where `count` mines go on a `w` by `h` board when they are drawn by a
/// generator in the given state: the first `count` cells of the shuffled
/// listing of the board.
pub open spec fn placed_mines(w: u16, h: u16, count: u32, state: u64) -> Set<Coordinate> {
    dealt(board_cells(w, h), state, count as nat).0.subrange(0, count as int).to_set()
}

/// The generator's state after it has placed `count` mines.
pub open spec fn state_after_placing(w: u16, h: u16, count: u32, state: u64) -> u64 {
    dealt(board_cells(w, h), state, count as nat).1
}

/// A placement holds exactly `count` mines, all of them on the board.
pub proof fn lemma_placed_mines(w: u16, h: u16, count: u32, state: u64)
    requires
        count <= w * h,
    ensures
        placed_mines(w, h, count, state).finite(),
        placed_mines(w, h, count, state).len() == count,
        forall|c: Coordinate| #[trigger]
            placed_mines(w, h, count, state).contains(c) ==> c.x < w && c.y < h,
{
    let all = board_cells(w, h);
    lemma_board_cells(w, h);
    assert(w * h <= 0xffff * 0xffff) by (nonlinear_arith)
        requires
            w <= 0xffff,
            h <= 0xffff,
    ;
    lemma_dealt(all, state, count as nat);
    let shuffled = dealt(all, state, count as nat).0;
    let chosen = shuffled.subrange(0, count as int);
    assert(chosen.no_duplicates());
    chosen.unique_seq_to_set();
    vstd::seq_lib::seq_to_set_is_finite(chosen);
    assert forall|c: Coordinate| #[trigger] chosen.to_set().contains(c) implies c.x < w && c.y
        < h by {
        let i = choose|i: int| 0 <= i < chosen.len() && chosen[i] == c;
        assert(shuffled[i] == c);
        assert(shuffled.contains(c));
        assert(all.contains(c));
    }
}

/// A board of mines and hints. Once built, what a cell shows never changes.
#[derive(Debug, Clone)]
pub struct Grid {
    tiles: Plane<Tile>,
    mine_count: u32,
}

impl Grid {
    /// Number of columns.
    pub closed spec fn spec_width(&self) -> u16 {
        self.tiles.spec_width()
    }

    /// Number of rows.
    pub closed spec fn spec_height(&self) -> u16 {
        self.tiles.spec_height()
    }

    /// Number of mines that the board was built with.
    pub closed spec fn spec_mine_count(&self) -> u32 {
        self.mine_count
    }

    /// What the cell shows.
    pub closed spec fn tile(&self, c: Coordinate) -> Tile {
        self.tiles.at(c)
    }

    /// The board's storage holds one tile per cell.
    pub closed spec fn stored(&self) -> bool {
        self.tiles.wf()
    }

    /// Whether the coordinate lies on the board.
    pub open spec fn in_bounds(&self, c: Coordinate) -> bool {
        c.x < self.spec_width() && c.y < self.spec_height()
    }

    /// The cells that hold a mine.
    pub open spec fn mines(&self) -> Set<Coordinate> {
        Set::new(|c: Coordinate| self.in_bounds(c) && self.tile(c) is Bomb)
    }

    /// The board has cells, holds as many mines as it counts, and every cell
    /// shows the hint that follows from where the mines are.
    pub open spec fn wf(&self) -> bool {
        &&& self.stored()
        &&& self.spec_width() > 0
        &&& self.spec_height() > 0
        &&& self.mines().finite()
        &&& self.mines().len() == self.spec_mine_count()
        &&& forall|c: Coordinate|
            self.in_bounds(c) ==> #[trigger] self.tile(c) == hint_tile(
                self.mines(),
                self.spec_width(),
                self.spec_height(),
                c,
            )
    }

    #[verifier::when_used_as_spec(spec_width)]
    pub fn width(&self) -> (w: u16)
        ensures
            w == self.spec_width(),
    {
        self.tiles.width()
    }

    #[verifier::when_used_as_spec(spec_height)]
    pub fn height(&self) -> (h: u16)
        ensures
            h == self.spec_height(),
    {
        self.tiles.height()
    }

    #[verifier::when_used_as_spec(spec_mine_count)]
    pub fn mine_count(&self) -> (n: u32)
        ensures
            n == self.spec_mine_count(),
    {
        self.mine_count
    }

    /// Whether the coordinate lies on the board.
    pub fn contains(&self, c: Coordinate) -> (b: bool)
        ensures
            b == self.in_bounds(c),
    {
        self.tiles.holds(c)
    }

    /// What the cell shows, or `InvalidCoordinate` for a coordinate off the
    /// board.
    pub fn tile_at(&self, c: Coordinate) -> (r: Result<Tile, BoardError>)
        requires
            self.wf(),
        ensures
            self.in_bounds(c) ==> r == Ok::<Tile, BoardError>(self.tile(c)),
            !self.in_bounds(c) ==> r == Err::<Tile, BoardError>(BoardError::InvalidCoordinate),
    {
        if self.tiles.holds(c) {
            Ok(self.tiles.get(c))
        } else {
            Err(BoardError::InvalidCoordinate)
        }
    }

    /// A board of the given size with `mine_count` mines, placed by a
    /// generator that starts from `seed`. The same arguments always give the
    /// same board. `InvalidConfig` if the board has no cells or fewer cells
    /// than mines.
    pub fn build(width: u16, height: u16, mine_count: u32, seed: u64) -> (r: Result<
        Grid,
        BoardError,
    >)
        ensures
            r is Err <==> (width * height == 0 || mine_count > width * height),
            r is Err ==> r == Err::<Grid, BoardError>(BoardError::InvalidConfig),
            r matches Ok(g) ==> {
                &&& g.wf()
                &&& g.spec_width() == width
                &&& g.spec_height() == height
                &&& g.spec_mine_count() == mine_count
                &&& g.mines().len() == mine_count
                &&& g.mines() == placed_mines(width, height, mine_count, seed)
            },
    {
        let mut rng = SeededRng::new(seed);
        Grid::build_with(width, height, mine_count, &mut rng)
    }

    /// A board of the given size with `mine_count` mines, placed by the
    /// given generator. `InvalidConfig` if the board has no cells or fewer
    /// cells than mines; the generator is then left as it was.
    pub fn build_with(width: u16, height: u16, mine_count: u32, rng: &mut SeededRng) -> (r: Result<
        Grid,
        BoardError,
    >)
        ensures
            r is Err <==> (width * height == 0 || mine_count > width * height),
            r is Err ==> r == Err::<Grid, BoardError>(BoardError::InvalidConfig) && final(rng)@
                == old(rng)@,
            r matches Ok(g) ==> {
                &&& g.wf()
                &&& g.spec_width() == width
                &&& g.spec_height() == height
                &&& g.spec_mine_count() == mine_count
                &&& g.mines().len() == mine_count
                &&& g.mines() == placed_mines(width, height, mine_count, old(rng)@)
                &&& final(rng)@ == state_after_placing(width, height, mine_count, old(rng)@)
            },
    {
        assert(width * height <= 0xffff * 0xffff) by (nonlinear_arith)
            requires
                width <= 0xffff,
                height <= 0xffff,
        ;
        let capacity: u32 = width as u32 * height as u32;
        if capacity == 0 || mine_count > capacity {
            return Err(BoardError::InvalidConfig);
        }
        assert(width > 0 && height > 0) by (nonlinear_arith)
            requires
                width * height > 0,
        ;
        let ghost seed = rng@;
        let mut cells = all_cells(width, height);
        proof {
            lemma_board_cells(width, height);
            lemma_dealt(cells@, seed, mine_count as nat);
            lemma_placed_mines(width, height, mine_count, seed);
        }
        deal(&mut cells, mine_count, rng);
        let mut flags: Plane<bool> = Plane::filled(width, height, false);
        let mut i: u32 = 0;
        assert(marked(&flags) =~= cells@.subrange(0, 0).to_set());
        while i < mine_count
            invariant
                i <= mine_count <= cells.len(),
                flags.wf(),
                flags.spec_width() == width,
                flags.spec_height() == height,
                forall|c: Coordinate| #[trigger] cells@.contains(c) ==> c.x < width && c.y < height,
                marked(&flags) == cells@.subrange(0, i as int).to_set(),
            decreases mine_count - i,
        {
            let c: Coordinate = cells[i as usize];
            assert(cells@.contains(c));
            let ghost before = flags;
            flags.set(c, true);
            proof {
                let done = cells@.subrange(0, i as int);
                let next = cells@.subrange(0, i + 1);
                assert forall|d: Coordinate| marked(&flags).contains(d) <==> next.to_set().contains(
                    d,
                ) by {
                    if d == c {
                        assert(next[i as int] == c);
                    } else {
                        if next.to_set().contains(d) {
                            let k = choose|k: int| 0 <= k < next.len() && next[k] == d;
                            assert(done[k] == d);
                            assert(done.to_set().contains(d));
                            assert(marked(&before).contains(d));
                        }
                        if marked(&flags).contains(d) {
                            assert(marked(&before).contains(d));
                            assert(done.to_set().contains(d));
                            let k = choose|k: int| 0 <= k < done.len() && done[k] == d;
                            assert(next[k] == d);
                        }
                    }
                }
                assert(marked(&flags) =~= next.to_set());
            }
            i = i + 1;
        }
        Ok(Grid::from_flags(&flags, mine_count))
    }

    /// A board of the given size with a mine on each of the listed cells; a
    /// cell that is listed twice holds one mine. `InvalidConfig` if the board
    /// has no cells, `InvalidCoordinate` if a listed cell is off the board.
    pub fn from_mines(width: u16, height: u16, mines: &Vec<Coordinate>) -> (r: Result<
        Grid,
        BoardError,
    >)
        ensures
            width * height == 0 ==> r == Err::<Grid, BoardError>(BoardError::InvalidConfig),
            width * height > 0 && (exists|i: int|
                0 <= i < mines.len() && !((#[trigger] mines[i]).x < width && mines[i].y < height))
                ==> r == Err::<Grid, BoardError>(BoardError::InvalidCoordinate),
            width * height > 0 && (forall|i: int|
                0 <= i < mines.len() ==> (#[trigger] mines[i]).x < width && mines[i].y < height)
                ==> r is Ok,
            r matches Ok(g) ==> {
                &&& g.wf()
                &&& g.spec_width() == width
                &&& g.spec_height() == height
                &&& g.mines() == mines@.to_set()
            },
    {
        if width == 0 || height == 0 {
            assert(width * height == 0) by (nonlinear_arith)
                requires
                    width == 0 || height == 0,
            ;
            return Err(BoardError::InvalidConfig);
        }
        assert(0 < width * height <= 0xffff * 0xffff) by (nonlinear_arith)
            requires
                0 < width <= 0xffff,
                0 < height <= 0xffff,
        ;
        let mut flags: Plane<bool> = Plane::filled(width, height, false);
        let mut count: u32 = 0;
        let mut i: usize = 0;
        assert(marked(&flags) =~= Set::<Coordinate>::empty());
        assert(mines@.subrange(0, 0).to_set() =~= Set::<Coordinate>::empty());
        while i < mines.len()
            invariant
                i <= mines.len(),
                flags.wf(),
                flags.spec_width() == width,
                flags.spec_height() == height,
                0 < width * height <= 0xffff * 0xffff,
                forall|k: int|
                    0 <= k < i ==> (#[trigger] mines[k]).x < width && mines[k].y < height,
                marked(&flags) == mines@.subrange(0, i as int).to_set(),
                marked(&flags).finite(),
                marked(&flags).len() == count,
            decreases mines.len() - i,
        {
            let c: Coordinate = mines[i];
            if !flags.holds(c) {
                return Err(BoardError::InvalidCoordinate);
            }
            let ghost before = flags;
            let fresh: bool = !flags.get(c);
            flags.set(c, true);
            proof {
                let done = mines@.subrange(0, i as int);
                let next = mines@.subrange(0, i + 1);
                assert(marked(&flags) =~= marked(&before).insert(c));
                assert(next.to_set() =~= done.to_set().insert(c)) by {
                    assert(next =~= done.push(c));
                    assert forall|d: Coordinate|
                        next.to_set().contains(d) <==> done.to_set().insert(c).contains(d) by {
                        if next.to_set().contains(d) {
                            let k = choose|k: int| 0 <= k < next.len() && next[k] == d;
                            if k < i {
                                assert(done[k] == d);
                            }
                        }
                        if done.to_set().contains(d) {
                            let k = choose|k: int| 0 <= k < done.len() && done[k] == d;
                            assert(next[k] == d);
                        }
                        if d == c {
                            assert(next[i as int] == c);
                        }
                    }
                }
                lemma_marked_fits(&flags);
            }
            if fresh {
                count = count + 1;
            }
            i = i + 1;
        }
        assert(mines@.subrange(0, mines.len() as int) =~= mines@);
        Ok(Grid::from_flags(&flags, count))
    }

    /// One flag per cell, set where the cell holds a mine.
    pub(crate) fn mine_flags(&self) -> (flags: Plane<bool>)
        requires
            self.wf(),
        ensures
            flags.wf(),
            flags.spec_width() == self.spec_width(),
            flags.spec_height() == self.spec_height(),
            marked(&flags) == self.mines(),
    {
        let w: u16 = self.tiles.width();
        let h: u16 = self.tiles.height();
        let mut flags: Plane<bool> = Plane::filled(w, h, false);
        let mut y: u16 = 0;
        while y < h
            invariant
                self.wf(),
                flags.wf(),
                w == self.spec_width(),
                h == self.spec_height(),
                flags.spec_width() == w,
                flags.spec_height() == h,
                y <= h,
                forall|c: Coordinate|
                    self.in_bounds(c) && c.y < y ==> #[trigger] flags.at(c) == (self.tile(
                        c,
                    ) is Bomb),
            decreases h - y,
        {
            let mut x: u16 = 0;
            while x < w
                invariant
                    self.wf(),
                    flags.wf(),
                    w == self.spec_width(),
                    h == self.spec_height(),
                    flags.spec_width() == w,
                    flags.spec_height() == h,
                    y < h,
                    x <= w,
                    forall|c: Coordinate|
                        self.in_bounds(c) && (c.y < y || (c.y == y && c.x < x))
                            ==> #[trigger] flags.at(c) == (self.tile(c) is Bomb),
                decreases w - x,
            {
                let c = Coordinate { x, y };
                let t: Tile = self.tiles.get(c);
                flags.set(c, t.is_bomb());
                x = x + 1;
            }
            y = y + 1;
        }
        assert(marked(&flags) =~= self.mines());
        flags
    }

    /// The board whose mines are the set flags.
    pub(crate) fn from_flags(flags: &Plane<bool>, count: u32) -> (g: Grid)
        requires
            flags.wf(),
            flags.spec_width() > 0,
            flags.spec_height() > 0,
            marked(flags).finite(),
            marked(flags).len() == count,
        ensures
            g.wf(),
            g.spec_width() == flags.spec_width(),
            g.spec_height() == flags.spec_height(),
            g.spec_mine_count() == count,
            g.mines() == marked(flags),
    {
        let tiles = assemble(flags);
        let g = Grid { tiles, mine_count: count };
        proof {
            assert forall|c: Coordinate| g.mines().contains(c) <==> marked(flags).contains(c) by {
                if flags.contains(c) {
                    assert(g.tiles.at(c) == hint_tile(
                        marked(flags),
                        flags.spec_width(),
                        flags.spec_height(),
                        c,
                    ));
                }
            }
            assert(g.mines() =~= marked(flags));
        }
        g
    }

    /// The cells of the board that touch `c`: up to eight, fewer at an edge.
    /// The order is fixed.
    pub fn neighbors_of(&self, c: Coordinate) -> (v: Vec<Coordinate>)
        ensures
            v@ == neighbor_cells(self.spec_width(), self.spec_height(), c),
            v@.no_duplicates(),
            forall|d: Coordinate| #[trigger]
                v@.contains(d) <==> (self.in_bounds(d) && c.touches(d)),
    {
        let w: u16 = self.tiles.width();
        let h: u16 = self.tiles.height();
        let mut v: Vec<Coordinate> = Vec::new();
        push_offset(&mut v, w, h, c, -1, -1);
        push_offset(&mut v, w, h, c, 0, -1);
        push_offset(&mut v, w, h, c, 1, -1);
        push_offset(&mut v, w, h, c, -1, 0);
        push_offset(&mut v, w, h, c, 1, 0);
        push_offset(&mut v, w, h, c, -1, 1);
        push_offset(&mut v, w, h, c, 0, 1);
        push_offset(&mut v, w, h, c, 1, 1);
        proof {
            lemma_neighbor_cells(w, h, c);
        }
        v
    }
}

/// Appends the cell at the given offset from `c` if it lies on the board.
fn push_offset(v: &mut Vec<Coordinate>, w: u16, h: u16, c: Coordinate, dx: i32, dy: i32)
    requires
        -1 <= dx <= 1,
        -1 <= dy <= 1,
    ensures
        final(v)@ == old(v)@ + offset_cell(w, h, c, dx as int, dy as int),
{
    let x: i32 = c.x as i32 + dx;
    let y: i32 = c.y as i32 + dy;
    if 0 <= x && x < w as i32 && 0 <= y && y < h as i32 {
        v.push(Coordinate { x: x as u16, y: y as u16 });
        assert(v@ =~= old(v)@ + offset_cell(w, h, c, dx as int, dy as int));
    } else {
        assert(v@ =~= old(v)@ + offset_cell(w, h, c, dx as int, dy as int));
    }
}

/// 1 if the flag at column `x`, row `y` is set, 0 if it is not or the
/// position is off the board.
fn flag_count(flags: &Plane<bool>, x: i32, y: i32) -> (n: u8)
    requires
        flags.wf(),
    ensures
        n == mine_here(
            marked(flags),
            flags.spec_width(),
            flags.spec_height(),
            x as int,
            y as int,
        ),
{
    if 0 <= x && x < flags.width() as i32 && 0 <= y && y < flags.height() as i32 {
        if flags.get(Coordinate { x: x as u16, y: y as u16 }) {
            1
        } else {
            0
        }
    } else {
        0
    }
}

/// What the cell shows on a board whose mines are the set flags.
fn tile_for(flags: &Plane<bool>, c: Coordinate) -> (t: Tile)
    requires
        flags.wf(),
        flags.contains(c),
    ensures
        t == hint_tile(marked(flags), flags.spec_width(), flags.spec_height(), c),
{
    if flags.get(c) {
        Tile::Bomb
    } else {
        let x: i32 = c.x as i32;
        let y: i32 = c.y as i32;
        let n: u8 = flag_count(flags, x - 1, y - 1) + flag_count(flags, x, y - 1) + flag_count(
            flags,
            x + 1,
            y - 1,
        ) + flag_count(flags, x - 1, y) + flag_count(flags, x + 1, y) + flag_count(
            flags,
            x - 1,
            y + 1,
        ) + flag_count(flags, x, y + 1) + flag_count(flags, x + 1, y + 1);
        if n == 0 {
            Tile::Empty
        } else {
            Tile::BombNeighbor(n)
        }
    }
}

/// The tiles of a board whose mines are the set flags.
fn assemble(flags: &Plane<bool>) -> (tiles: Plane<Tile>)
    requires
        flags.wf(),
    ensures
        tiles.wf(),
        tiles.spec_width() == flags.spec_width(),
        tiles.spec_height() == flags.spec_height(),
        forall|c: Coordinate|
            flags.contains(c) ==> #[trigger] tiles.at(c) == hint_tile(
                marked(flags),
                flags.spec_width(),
                flags.spec_height(),
                c,
            ),
{
    let w: u16 = flags.width();
    let h: u16 = flags.height();
    let mut tiles: Plane<Tile> = Plane::filled(w, h, Tile::Empty);
    let mut y: u16 = 0;
    while y < h
        invariant
            flags.wf(),
            tiles.wf(),
            w == flags.spec_width(),
            h == flags.spec_height(),
            tiles.spec_width() == w,
            tiles.spec_height() == h,
            y <= h,
            forall|c: Coordinate|
                flags.contains(c) && c.y < y ==> #[trigger] tiles.at(c) == hint_tile(
                    marked(flags),
                    w,
                    h,
                    c,
                ),
        decreases h - y,
    {
        let mut x: u16 = 0;
        while x < w
            invariant
                flags.wf(),
                tiles.wf(),
                w == flags.spec_width(),
                h == flags.spec_height(),
                tiles.spec_width() == w,
                tiles.spec_height() == h,
                y < h,
                x <= w,
                forall|c: Coordinate|
                    flags.contains(c) && (c.y < y || (c.y == y && c.x < x)) ==> #[trigger] tiles.at(
                        c,
                    ) == hint_tile(marked(flags), w, h, c),
            decreases w - x,
        {
            let c = Coordinate { x, y };
            let t = tile_for(flags, c);
            tiles.set(c, t);
            x = x + 1;
        }
        y = y + 1;
    }
    tiles
}

} // verus!
