//! The safe first reveal: moving the mines away from a cell and the cells
//! around it.

use vstd::prelude::*;
use crate::coordinate::Coordinate;
use crate::error::BoardError;
use crate::grid::marked;
use crate::hints::neighbor_cells;
use crate::lists::lemma_push_contains;
use crate::lists::lemma_push_distinct;
use crate::lists::lemma_swap_remove;
use crate::grid::Grid;
use crate::placement::board_cells;
use crate::placement::lemma_board_cells;
use crate::placement::lemma_distinct_cells_fit;
use crate::plane::Plane;
use crate::random::advance;
use crate::random::draw;
use crate::random::SeededRng;
use crate::tile::Tile;

verus! {

/// The most cells that a cell and the cells touching it can take up on a
/// `w` by `h` board: the room that a safe first reveal keeps free of mines.
pub open spec fn safe_zone_size(w: u16, h: u16) -> int {
    (if w < 3 {
        w as int
    } else {
        3
    }) * (if h < 3 {
        h as int
    } else {
        3
    })
}

/// `target` and the cells of the board that touch it, in the order in which
/// a safe first reveal looks at them.
pub open spec fn zone_cells(w: u16, h: u16, target: Coordinate) -> Seq<Coordinate> {
    neighbor_cells(w, h, target).push(target)
}

/// Those of the first `i` cells of the board, row by row, that hold no mine
/// and are not near `target`.
pub open spec fn free_cells(
    mines: Set<Coordinate>,
    w: u16,
    h: u16,
    target: Coordinate,
    i: nat,
) -> Seq<Coordinate>
    decreases i,
{
    if i == 0 {
        Seq::empty()
    } else {
        let before = free_cells(mines, w, h, target, (i - 1) as nat);
        let c = board_cells(w, h)[i - 1];
        if !mines.contains(c) && !c.near(target) {
            before.push(c)
        } else {
            before
        }
    }
}

/// The mines, the free cells that are left and the generator's state after
/// the first `k` cells of `zone` have been looked at. A mine found on a
/// cell of the zone goes to a free cell that the generator draws; the last
/// free cell takes that cell's place in the list.
pub open spec fn relocated(
    mines: Set<Coordinate>,
    free: Seq<Coordinate>,
    zone: Seq<Coordinate>,
    state: u64,
    k: nat,
) -> (Set<Coordinate>, Seq<Coordinate>, u64)
    decreases k,
{
    if k == 0 {
        (mines, free, state)
    } else {
        let before = relocated(mines, free, zone, state, (k - 1) as nat);
        let z = zone[k - 1];
        if before.0.contains(z) {
            let pick = draw(before.2, before.1.len() as u32) as int;
            (
                before.0.remove(z).insert(before.1[pick]),
                before.1.update(pick, before.1.last()).drop_last(),
                advance(before.2),
            )
        } else {
            before
        }
    }
}

/// Where the mines lie after a safe first reveal at `target` has moved
/// them, when the generator is in the given state.
pub open spec fn cleared_mines(
    mines: Set<Coordinate>,
    w: u16,
    h: u16,
    target: Coordinate,
    state: u64,
) -> Set<Coordinate> {
    relocated(
        mines,
        free_cells(mines, w, h, target, (w * h) as nat),
        zone_cells(w, h, target),
        state,
        zone_cells(w, h, target).len(),
    ).0
}

/// The generator's state after a safe first reveal at `target` has moved
/// the mines.
pub open spec fn state_after_clearing(
    mines: Set<Coordinate>,
    w: u16,
    h: u16,
    target: Coordinate,
    state: u64,
) -> u64 {
    relocated(
        mines,
        free_cells(mines, w, h, target, (w * h) as nat),
        zone_cells(w, h, target),
        state,
        zone_cells(w, h, target).len(),
    ).2
}

/// `after` is `before` with the mines on and around `target` moved away:
/// a board of the same size with as many mines, none of them near
/// `target`, and each mine of `before` that was not near `target` still in
/// its place.
pub open spec fn cleared_from(after: &Grid, before: &Grid, target: Coordinate) -> bool {
    &&& after.wf()
    &&& after.spec_width() == before.spec_width()
    &&& after.spec_height() == before.spec_height()
    &&& after.spec_mine_count() == before.spec_mine_count()
    &&& forall|c: Coordinate| #[trigger] after.mines().contains(c) ==> !c.near(target)
    &&& forall|c: Coordinate|
        before.mines().contains(c) && !c.near(target) ==> #[trigger] after.mines().contains(c)
}

/// A list of distinct cells near `target` is no longer than the safe zone.
pub proof fn lemma_zone_fits(zone: Seq<Coordinate>, w: u16, h: u16, target: Coordinate)
    requires
        target.x < w,
        target.y < h,
        zone.no_duplicates(),
        forall|i: int|
            0 <= i < zone.len() ==> (#[trigger] zone[i]).x < w && zone[i].y < h && zone[i].near(
                target,
            ),
    ensures
        zone.len() <= safe_zone_size(w, h),
{
    let x0: int = if target.x == 0 {
        0
    } else {
        target.x - 1
    };
    let y0: int = if target.y == 0 {
        0
    } else {
        target.y - 1
    };
    let a: u16 = if w < 3 {
        w
    } else {
        3
    };
    let b: u16 = if h < 3 {
        h
    } else {
        3
    };
    let shifted = Seq::new(
        zone.len(),
        |i: int| Coordinate { x: (zone[i].x - x0) as u16, y: (zone[i].y - y0) as u16 },
    );
    assert forall|i: int| 0 <= i < shifted.len() implies (#[trigger] shifted[i]).x < a
        && shifted[i].y < b by {
        assert(zone[i].near(target));
    }
    assert forall|i: int, j: int|
        0 <= i < shifted.len() && 0 <= j < shifted.len() && i != j implies shifted[i]
        != shifted[j] by {
        assert(zone[i].near(target));
        assert(zone[j].near(target));
        assert(zone[i] != zone[j]);
    }
    lemma_distinct_cells_fit(shifted, a, b);
}

/// When the mines and a zone that holds one of them leave room on the
/// board, a list that holds every other cell is not empty.
proof fn lemma_room_left(
    w: u16,
    h: u16,
    mines: Set<Coordinate>,
    zone: Seq<Coordinate>,
    free: Seq<Coordinate>,
    z: Coordinate,
)
    requires
        mines.finite(),
        mines.contains(z),
        zone.contains(z),
        mines.len() + zone.len() <= w * h,
        forall|c: Coordinate|
            c.x < w && c.y < h ==> mines.contains(c) || zone.contains(c) || free.contains(c),
    ensures
        free.len() >= 1,
{
    let all = board_cells(w, h);
    lemma_board_cells(w, h);
    all.unique_seq_to_set();
    let rest = mines.remove(z);
    let zs = zone.to_set();
    let fs = free.to_set();
    vstd::seq_lib::seq_to_set_is_finite(zone);
    vstd::seq_lib::seq_to_set_is_finite(free);
    zone.lemma_cardinality_of_set();
    free.lemma_cardinality_of_set();
    let u = rest.union(zs).union(fs);
    assert(all.to_set().subset_of(u)) by {
        assert forall|c: Coordinate| all.to_set().contains(c) implies u.contains(c) by {
            assert(all.contains(c));
        }
    }
    vstd::set_lib::lemma_len_union(rest, zs);
    vstd::set_lib::lemma_len_union(rest.union(zs), fs);
    vstd::set_lib::lemma_len_subset(all.to_set(), u);
}

/// Moves the mine at `z` to a cell drawn at random from `free`, and takes
/// that cell off the list.
fn move_mine(
    flags: &mut Plane<bool>,
    free: &mut Vec<Coordinate>,
    z: Coordinate,
    rng: &mut SeededRng,
) -> (d: Coordinate)
    requires
        old(flags).wf(),
        old(flags).contains(z),
        old(flags).at(z),
        0 < old(free)@.len() <= u32::MAX,
        old(free)@.no_duplicates(),
        forall|i: int|
            0 <= i < old(free)@.len() ==> old(flags).contains(#[trigger] old(free)@[i]) && !old(
                flags,
            ).at(old(free)@[i]),
    ensures
        final(flags).wf(),
        final(flags).spec_width() == old(flags).spec_width(),
        final(flags).spec_height() == old(flags).spec_height(),
        d == old(free)@[draw(old(rng)@, old(free)@.len() as u32) as int],
        final(rng)@ == advance(old(rng)@),
        final(free)@ == old(free)@.update(
            draw(old(rng)@, old(free)@.len() as u32) as int,
            old(free)@.last(),
        ).drop_last(),
        old(free)@.contains(d),
        final(free)@.no_duplicates(),
        forall|c: Coordinate| #[trigger]
            final(free)@.contains(c) <==> (old(free)@.contains(c) && c != d),
        marked(final(flags)) == marked(old(flags)).remove(z).insert(d),
{
    let pick: u32 = rng.next_below(free.len() as u32);
    let d: Coordinate = free.swap_remove(pick as usize);
    proof {
        lemma_swap_remove(old(free)@, pick as int);
        assert(old(free)@[pick as int] == d);
    }
    flags.set(z, false);
    flags.set(d, true);
    assert(marked(flags) =~= marked(old(flags)).remove(z).insert(d));
    d
}

impl Grid {
    /// `target` and the cells of the board that touch it, each once.
    fn zone_of(&self, target: Coordinate) -> (zone: Vec<Coordinate>)
        ensures
            zone@ == zone_cells(self.spec_width(), self.spec_height(), target),
            zone@.no_duplicates(),
            self.in_bounds(target) ==> zone@.len() <= safe_zone_size(
                self.spec_width(),
                self.spec_height(),
            ),
            forall|d: Coordinate| #[trigger]
                zone@.contains(d) <==> (self.in_bounds(d) && d.near(target)) || d == target,
    {
        let mut zone: Vec<Coordinate> = self.neighbors_of(target);
        let ghost around = zone@;
        zone.push(target);
        proof {
            lemma_push_contains(around, target);
            lemma_push_distinct(around, target);
            assert forall|d: Coordinate| #[trigger]
                zone@.contains(d) <==> (self.in_bounds(d) && d.near(target)) || d == target by {
                assert(around.contains(d) <==> (self.in_bounds(d) && target.touches(d)));
                assert(target.touches(d) == d.touches(target));
            }
            if self.in_bounds(target) {
                assert forall|i: int| 0 <= i < zone@.len() implies (#[trigger] zone@[i]).x
                    < self.spec_width() && zone@[i].y < self.spec_height() && zone@[i].near(
                    target,
                ) by {
                    assert(zone@.contains(zone@[i]));
                }
                lemma_zone_fits(zone@, self.spec_width(), self.spec_height(), target);
            }
        }
        zone
    }

    /// Whether `target` or a cell that touches it holds a mine.
    pub fn mine_near(&self, target: Coordinate) -> (b: bool)
        requires
            self.wf(),
        ensures
            b == exists|c: Coordinate| #[trigger] self.mines().contains(c) && c.near(target),
    {
        let zone: Vec<Coordinate> = self.zone_of(target);
        let mut k: usize = 0;
        while k < zone.len()
            invariant
                self.wf(),
                k <= zone.len(),
                forall|d: Coordinate| #[trigger]
                    zone@.contains(d) <==> (self.in_bounds(d) && d.near(target)) || d == target,
                forall|j: int| 0 <= j < k ==> !self.mines().contains(#[trigger] zone@[j]),
            decreases zone.len() - k,
        {
            let z: Coordinate = zone[k];
            assert(zone@.contains(z));
            let t = self.tile_at(z);
            let bomb: bool = match t {
                Ok(Tile::Bomb) => true,
                _ => false,
            };
            if bomb {
                assert(self.mines().contains(z) && z.near(target));
                return true;
            }
            k = k + 1;
        }
        proof {
            assert forall|c: Coordinate| #[trigger]
                self.mines().contains(c) && c.near(target) implies false by {
                assert(zone@.contains(c));
                let j = choose|j: int| 0 <= j < zone@.len() && zone@[j] == c;
                assert(!self.mines().contains(zone@[j]));
            }
        }
        false
    }

    /// The cells of the board that hold no mine and are not near `target`.
    fn free_cells_away_from(&self, target: Coordinate) -> (free: Vec<Coordinate>)
        requires
            self.wf(),
        ensures
            free@ == free_cells(
                self.mines(),
                self.spec_width(),
                self.spec_height(),
                target,
                (self.spec_width() * self.spec_height()) as nat,
            ),
            free@.no_duplicates(),
            forall|c: Coordinate| #[trigger]
                free@.contains(c) <==> (self.in_bounds(c) && !self.mines().contains(c) && !c.near(
                    target,
                )),
    {
        let w: u16 = self.width();
        let h: u16 = self.height();
        let mut free: Vec<Coordinate> = Vec::new();
        let mut y: u16 = 0;
        proof {
            lemma_board_cells(w, h);
        }
        while y < h
            invariant
                self.wf(),
                w == self.spec_width(),
                h == self.spec_height(),
                y <= h,
                0 <= y * w <= w * h,
                free@ == free_cells(self.mines(), w, h, target, (y * w) as nat),
                free@.no_duplicates(),
                forall|c: Coordinate| #[trigger]
                    free@.contains(c) <==> (self.in_bounds(c) && c.y < y && !self.mines().contains(
                        c,
                    ) && !c.near(target)),
            decreases h - y,
        {
            let mut x: u16 = 0;
            while x < w
                invariant
                    self.wf(),
                    w == self.spec_width(),
                    h == self.spec_height(),
                    y < h,
                    x <= w,
                    0 <= y * w + x <= w * h,
                    free@ == free_cells(self.mines(), w, h, target, (y * w + x) as nat),
                    free@.no_duplicates(),
                    forall|c: Coordinate| #[trigger]
                        free@.contains(c) <==> (self.in_bounds(c) && (c.y < y || (c.y == y && c.x
                            < x)) && !self.mines().contains(c) && !c.near(target)),
                decreases w - x,
            {
                let c = Coordinate { x, y };
                proof {
                    lemma_board_cells(w, h);
                    assert(board_cells(w, h)[crate::plane::cell_index(
                        w as int,
                        c.x as int,
                        c.y as int,
                    )] == c);
                    assert(y * w + x + 1 <= w * h) by (nonlinear_arith)
                        requires
                            x < w,
                            y < h,
                    ;
                }
                let t = self.tile_at(c);
                let bomb: bool = match t {
                    Ok(Tile::Bomb) => true,
                    _ => false,
                };
                if !bomb && !c.is_near(&target) {
                    proof {
                        lemma_push_contains(free@, c);
                        lemma_push_distinct(free@, c);
                    }
                    free.push(c);
                }
                x = x + 1;
            }
            assert(y * w + w == (y + 1) * w) by (nonlinear_arith);
            y = y + 1;
        }
        assert(h * w == w * h) by (nonlinear_arith);
        free
    }

    /// The mines leave room for a safe zone: wherever a first reveal falls,
    /// the mines on and around its cell can be moved away.
    pub open spec fn has_room_to_clear(&self) -> bool {
        self.spec_mine_count() + safe_zone_size(self.spec_width(), self.spec_height())
            <= self.spec_width() * self.spec_height()
    }

    /// A board of the same size and with as many mines, on which neither
    /// `target` nor a cell that touches it holds a mine. Each mine found
    /// there is moved to a cell drawn at random among those that are free
    /// and not near `target`; every other mine stays where it is.
    /// `InvalidCoordinate` if `target` is off the board, `InvalidConfig` if
    /// the mines leave no room for a safe zone; the generator is then left
    /// as it was.
    pub fn cleared_around(&self, target: Coordinate, rng: &mut SeededRng) -> (r: Result<
        Grid,
        BoardError,
    >)
        requires
            self.wf(),
        ensures
            !self.in_bounds(target) ==> r == Err::<Grid, BoardError>(
                BoardError::InvalidCoordinate,
            ),
            self.in_bounds(target) && !self.has_room_to_clear() ==> r == Err::<Grid, BoardError>(
                BoardError::InvalidConfig,
            ),
            self.in_bounds(target) && self.has_room_to_clear() ==> r is Ok,
            r is Err ==> final(rng)@ == old(rng)@,
            r matches Ok(g) ==> {
                &&& cleared_from(&g, self, target)
                &&& g.mines() == cleared_mines(
                    self.mines(),
                    self.spec_width(),
                    self.spec_height(),
                    target,
                    old(rng)@,
                )
                &&& final(rng)@ == state_after_clearing(
                    self.mines(),
                    self.spec_width(),
                    self.spec_height(),
                    target,
                    old(rng)@,
                )
            },
    {
        if !self.contains(target) {
            return Err(BoardError::InvalidCoordinate);
        }
        let w: u16 = self.width();
        let h: u16 = self.height();
        assert(w * h <= 0xffff * 0xffff) by (nonlinear_arith)
            requires
                w <= 0xffff,
                h <= 0xffff,
        ;
        let a: u64 = if w < 3 {
            w as u64
        } else {
            3
        };
        let b: u64 = if h < 3 {
            h as u64
        } else {
            3
        };
        assert(a * b <= 9) by (nonlinear_arith)
            requires
                a <= 3,
                b <= 3,
        ;
        if self.mine_count() as u64 + a * b > w as u64 * h as u64 {
            return Err(BoardError::InvalidConfig);
        }
        Ok(self.clear_zone(target, rng))
    }

    /// Moves the mines away from `target` on a board that has room for it.
    pub(crate) fn clear_zone(&self, target: Coordinate, rng: &mut SeededRng) -> (g: Grid)
        requires
            self.wf(),
            self.in_bounds(target),
            self.has_room_to_clear(),
        ensures
            cleared_from(&g, self, target),
            g.mines() == cleared_mines(
                self.mines(),
                self.spec_width(),
                self.spec_height(),
                target,
                old(rng)@,
            ),
            final(rng)@ == state_after_clearing(
                self.mines(),
                self.spec_width(),
                self.spec_height(),
                target,
                old(rng)@,
            ),
    {
        let w: u16 = self.width();
        let h: u16 = self.height();
        let mut flags: Plane<bool> = self.mine_flags();
        let mut free: Vec<Coordinate> = self.free_cells_away_from(target);
        let zone: Vec<Coordinate> = self.zone_of(target);
        let ghost listed_at_start = free@;
        let ghost seed = rng@;
        proof {
            assert forall|i: int| 0 <= i < free@.len() implies {
                &&& self.in_bounds(#[trigger] free@[i])
                &&& !free@[i].near(target)
                &&& !marked(&flags).contains(free@[i])
            } by {
                assert(free@.contains(free@[i]));
            }
        }
        let mut k: usize = 0;
        while k < zone.len()
            invariant
                flags.wf(),
                w == self.spec_width(),
                h == self.spec_height(),
                flags.spec_width() == w,
                flags.spec_height() == h,
                k <= zone.len(),
                zone@.len() <= safe_zone_size(w, h),
                self.spec_mine_count() + safe_zone_size(w, h) <= w * h,
                (marked(&flags), free@, rng@) == relocated(
                    self.mines(),
                    listed_at_start,
                    zone@,
                    seed,
                    k as nat,
                ),
                forall|d: Coordinate| #[trigger]
                    zone@.contains(d) <==> (self.in_bounds(d) && d.near(target)),
                marked(&flags).finite(),
                marked(&flags).len() == self.spec_mine_count(),
                forall|j: int| 0 <= j < k ==> !marked(&flags).contains(#[trigger] zone@[j]),
                forall|c: Coordinate|
                    self.mines().contains(c) && !c.near(target) ==> #[trigger] marked(
                        &flags,
                    ).contains(c),
                free@.no_duplicates(),
                forall|i: int|
                    0 <= i < free@.len() ==> {
                        &&& self.in_bounds(#[trigger] free@[i])
                        &&& !free@[i].near(target)
                        &&& !marked(&flags).contains(free@[i])
                    },
                forall|c: Coordinate|
                    self.in_bounds(c) ==> marked(&flags).contains(c) || c.near(target)
                        || #[trigger] free@.contains(c),
            decreases zone.len() - k,
        {
            let z: Coordinate = zone[k];
            assert(zone@.contains(z));
            if flags.get(z) {
                proof {
                    assert(marked(&flags).contains(z));
                    assert forall|c: Coordinate| c.x < w && c.y < h implies marked(&flags).contains(
                        c,
                    ) || zone@.contains(c) || free@.contains(c) by {
                        assert(self.in_bounds(c));
                    }
                    lemma_room_left(w, h, marked(&flags), zone@, free@, z);
                    lemma_distinct_cells_fit(free@, w, h);
                    assert(w * h <= 0xffff * 0xffff) by (nonlinear_arith)
                        requires
                            w <= 0xffff,
                            h <= 0xffff,
                    ;
                }
                let ghost listed = free@;
                let ghost before = flags;
                let d: Coordinate = move_mine(&mut flags, &mut free, z, rng);
                proof {
                    let m = choose|m: int| 0 <= m < listed.len() && listed[m] == d;
                    assert(!marked(&before).contains(listed[m]));
                    assert forall|i: int| 0 <= i < free@.len() implies {
                        &&& self.in_bounds(#[trigger] free@[i])
                        &&& !free@[i].near(target)
                        &&& !marked(&flags).contains(free@[i])
                    } by {
                        assert(free@.contains(free@[i]));
                        assert(listed.contains(free@[i]));
                        let n = choose|n: int| 0 <= n < listed.len() && listed[n] == free@[i];
                        assert(!marked(&before).contains(listed[n]));
                    }
                    assert forall|c: Coordinate| self.in_bounds(c) implies marked(&flags).contains(
                        c,
                    ) || c.near(target) || #[trigger] free@.contains(c) by {
                        if !marked(&before).contains(c) && !c.near(target) {
                            assert(listed.contains(c));
                        }
                    }
                    assert forall|j: int| 0 <= j < k + 1 implies !marked(&flags).contains(
                        #[trigger] zone@[j],
                    ) by {
                        assert(zone@.contains(zone@[j]));
                    }
                }
            }
            k = k + 1;
        }
        let g = Grid::from_flags(&flags, self.mine_count());
        proof {
            assert forall|c: Coordinate| #[trigger] g.mines().contains(c) implies !c.near(
                target,
            ) by {
                if c.near(target) {
                    assert(zone@.contains(c));
                    let j = choose|j: int| 0 <= j < zone@.len() && zone@[j] == c;
                    assert(!marked(&flags).contains(zone@[j]));
                }
            }
        }
        g
    }
}

} // verus!
