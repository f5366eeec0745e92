//! A play session: revealing cells, flagging them, winning and losing.

use vstd::prelude::*;
use crate::coordinate::Coordinate;
use crate::error::BoardError;
use crate::fill::fill_order;
use crate::fill::fill_reaches;
use crate::fill::fill_region;
use crate::fill::flood;
use crate::grid::placed_mines;
use crate::grid::state_after_placing;
use crate::grid::Grid;
use crate::random::fresh_seed;
use crate::random::SeededRng;
use crate::reveal_state::RevealState;
use crate::reveal_state::Status;
use crate::safe_click::cleared_from;
use crate::safe_click::cleared_mines;
use crate::safe_click::state_after_clearing;
use crate::safe_click::safe_zone_size;
use crate::tile::Tile;

verus! {

/// What a session is made from.
#[derive(Debug, Copy, Clone, PartialEq, Eq)]
pub struct BoardConfig {
    /// Number of columns.
    pub width: u16,
    /// Number of rows.
    pub height: u16,
    /// Number of mines.
    pub mine_count: u32,
    /// Where the generator that places the mines starts. Without a seed
    /// each session gets a seed of its own.
    pub seed: Option<u64>,
    /// Whether the first reveal of the session must find no mine on its
    /// cell nor on a cell touching it.
    pub safe_first_click: bool,
}

impl BoardConfig {
    /// The cells that must stay free of mines so that a first reveal can
    /// be made safe wherever it falls.
    pub open spec fn reserve(&self) -> int {
        if self.safe_first_click {
            safe_zone_size(self.width, self.height)
        } else {
            0
        }
    }

    /// The board has cells, and room for the mines beside the reserve.
    pub open spec fn valid(&self) -> bool {
        &&& self.width * self.height > 0
        &&& self.mine_count + self.reserve() <= self.width * self.height
    }

    /// Whether a session can be made from this configuration.
    pub fn is_valid(&self) -> (b: bool)
        ensures
            b == self.valid(),
    {
        assert(self.width * self.height <= 0xffff * 0xffff) by (nonlinear_arith)
            requires
                self.width <= 0xffff,
                self.height <= 0xffff,
        ;
        let cells: u64 = self.width as u64 * self.height as u64;
        let reserve: u64 = if self.safe_first_click {
            let a: u64 = if self.width < 3 {
                self.width as u64
            } else {
                3
            };
            let b: u64 = if self.height < 3 {
                self.height as u64
            } else {
                3
            };
            assert(a * b <= 9) by (nonlinear_arith)
                requires
                    a <= 3,
                    b <= 3,
            ;
            a * b
        } else {
            0
        };
        cells > 0 && self.mine_count as u64 + reserve <= cells
    }
}

/// What a reveal did.
#[derive(Debug, Clone, PartialEq, Eq)]
pub enum RevealOutcome {
    /// The cell was uncovered before; nothing changed.
    AlreadyUncovered,
    /// The cell is flagged; nothing changed.
    Flagged,
    /// The cell holds a mine. It is uncovered now, and the session is lost.
    HitMine,
    /// The cell held no mine. These cells were covered and are uncovered
    /// now, each listed once, the revealed cell first.
    Uncovered(Vec<Coordinate>),
}

/// What a request to flag a cell did.
#[derive(Debug, Copy, Clone, PartialEq, Eq, Structural, Hash)]
pub enum FlagOutcome {
    /// The cell was covered and is flagged now.
    Flagged,
    /// The cell was flagged and is covered now.
    Unflagged,
    /// The cell is uncovered; nothing changed.
    Rejected,
}

/// The status that a request to flag a cell gives it.
pub open spec fn toggled(status: Status) -> Status {
    match status {
        Status::Covered => Status::Flagged,
        Status::Flagged => Status::Covered,
        Status::Uncovered => Status::Uncovered,
    }
}

/// What a request to flag a cell of the given status reports.
pub open spec fn flag_outcome(status: Status) -> FlagOutcome {
    match status {
        Status::Covered => FlagOutcome::Flagged,
        Status::Flagged => FlagOutcome::Unflagged,
        Status::Uncovered => FlagOutcome::Rejected,
    }
}

/// One play session: a board, the status of its cells, and whether a mine
/// has been hit.
#[derive(Debug, Clone)]
pub struct BoardEngine {
    grid: Grid,
    state: RevealState,
    rng: SeededRng,
    guard: bool,
    lost: bool,
}

impl BoardEngine {
    /// The board that is played on.
    pub closed spec fn spec_grid(&self) -> Grid {
        self.grid
    }

    /// The status of the cells.
    pub closed spec fn spec_state(&self) -> RevealState {
        self.state
    }

    /// Whether a reveal has hit a mine.
    pub closed spec fn spec_is_lost(&self) -> bool {
        self.lost
    }

    /// Whether the next reveal of a covered cell is the session's first and
    /// must be made safe.
    pub closed spec fn guarded(&self) -> bool {
        self.guard
    }

    /// The state of the generator that draws where a mine goes.
    pub closed spec fn rng_state(&self) -> u64 {
        self.rng@
    }

    /// Whether the coordinate lies on the board.
    #[verifier::inline]
    pub open spec fn in_bounds(&self, c: Coordinate) -> bool {
        self.spec_grid().in_bounds(c)
    }

    /// The status of a cell.
    #[verifier::inline]
    pub open spec fn status(&self, c: Coordinate) -> Status {
        self.spec_state().status(c)
    }

    /// The cells that hold a mine.
    #[verifier::inline]
    pub open spec fn mines(&self) -> Set<Coordinate> {
        self.spec_grid().mines()
    }

    /// Every cell that holds no mine is uncovered.
    pub open spec fn spec_is_won(&self) -> bool {
        forall|c: Coordinate|
            #![trigger self.status(c)]
            self.in_bounds(c) && !self.mines().contains(c) ==> self.status(c) is Uncovered
    }

    /// The board is well formed, the statuses are those of its cells, the
    /// session is lost exactly when a mine lies uncovered, and while the
    /// first reveal is still to be made safe nothing is uncovered and the
    /// mines leave room for it.
    pub open spec fn wf(&self) -> bool {
        &&& self.spec_grid().wf()
        &&& self.spec_state().wf()
        &&& self.spec_state().spec_width() == self.spec_grid().spec_width()
        &&& self.spec_state().spec_height() == self.spec_grid().spec_height()
        &&& self.spec_is_lost() <==> exists|c: Coordinate|
            #![trigger self.status(c)]
            self.mines().contains(c) && self.status(c) is Uncovered
        &&& self.guarded() ==> {
            &&& self.spec_grid().has_room_to_clear()
            &&& forall|c: Coordinate|
                #![trigger self.status(c)]
                self.in_bounds(c) ==> !(self.status(c) is Uncovered)
        }
    }

    /// The session is at its start: every cell is covered and no mine has
    /// been hit.
    pub open spec fn untouched(&self) -> bool {
        &&& !self.spec_is_lost()
        &&& forall|c: Coordinate|
            #![trigger self.status(c)]
            self.in_bounds(c) ==> self.status(c) is Covered
    }

    /// The session is the one that `config` gives when the mines are placed
    /// by a generator that starts from `seed`.
    pub open spec fn opens(&self, config: BoardConfig, seed: u64) -> bool {
        &&& self.wf()
        &&& self.untouched()
        &&& self.spec_grid().spec_width() == config.width
        &&& self.spec_grid().spec_height() == config.height
        &&& self.spec_grid().spec_mine_count() == config.mine_count
        &&& self.mines() == placed_mines(config.width, config.height, config.mine_count, seed)
        &&& self.rng_state() == state_after_placing(
            config.width,
            config.height,
            config.mine_count,
            seed,
        )
        &&& self.guarded() == config.safe_first_click
    }

    /// Everything but the status of the cells is as in `other`.
    pub open spec fn same_board_as(&self, other: &BoardEngine) -> bool {
        &&& self.spec_grid() == other.spec_grid()
        &&& self.rng_state() == other.rng_state()
        &&& self.guarded() == other.guarded()
        &&& self.spec_is_lost() == other.spec_is_lost()
        &&& self.spec_state().spec_width() == other.spec_state().spec_width()
        &&& self.spec_state().spec_height() == other.spec_state().spec_height()
    }

    /// A new session. With a seed in `config` the mines are placed by a
    /// generator that starts from it; without one, from a seed that is
    /// drawn for this session. `InvalidConfig` if the configuration is not
    /// valid.
    pub fn new(config: BoardConfig) -> (r: Result<BoardEngine, BoardError>)
        ensures
            r is Err <==> !config.valid(),
            r is Err ==> r == Err::<BoardEngine, BoardError>(BoardError::InvalidConfig),
            r matches Ok(e) ==> match config.seed {
                Some(seed) => e.opens(config, seed),
                None => exists|seed: u64| #[trigger] e.opens(config, seed),
            },
    {
        match config.seed {
            Some(seed) => BoardEngine::with_seed(config, seed),
            None => {
                let seed: u64 = fresh_seed();
                BoardEngine::with_seed(config, seed)
            },
        }
    }

    /// A new session whose mines are placed by a generator that starts from
    /// `seed`, whatever seed `config` holds. `InvalidConfig` if the
    /// configuration is not valid.
    pub fn with_seed(config: BoardConfig, seed: u64) -> (r: Result<BoardEngine, BoardError>)
        ensures
            r is Err <==> !config.valid(),
            r is Err ==> r == Err::<BoardEngine, BoardError>(BoardError::InvalidConfig),
            r matches Ok(e) ==> e.opens(config, seed),
    {
        if !config.is_valid() {
            return Err(BoardError::InvalidConfig);
        }
        let mut rng = SeededRng::new(seed);
        match Grid::build_with(config.width, config.height, config.mine_count, &mut rng) {
            Ok(grid) => {
                let state = RevealState::new(config.width, config.height);
                Ok(BoardEngine { grid, state, rng, guard: config.safe_first_click, lost: false })
            },
            Err(e) => Err(e),
        }
    }

    /// A new session on a board that is already built. `seed` starts the
    /// generator that a safe first reveal draws from. `InvalidConfig` if
    /// the first reveal is to be safe and the mines leave no room for it.
    pub fn from_grid(grid: Grid, safe_first_click: bool, seed: u64) -> (r: Result<
        BoardEngine,
        BoardError,
    >)
        requires
            grid.wf(),
        ensures
            r is Err <==> safe_first_click && !grid.has_room_to_clear(),
            r is Err ==> r == Err::<BoardEngine, BoardError>(BoardError::InvalidConfig),
            r matches Ok(e) ==> {
                &&& e.wf()
                &&& e.untouched()
                &&& e.spec_grid() == grid
                &&& e.rng_state() == seed
                &&& e.guarded() == safe_first_click
            },
    {
        let config = BoardConfig {
            width: grid.width(),
            height: grid.height(),
            mine_count: grid.mine_count(),
            seed: Some(seed),
            safe_first_click,
        };
        proof {
            crate::grid::lemma_mines_fit(&grid);
        }
        if !config.is_valid() {
            return Err(BoardError::InvalidConfig);
        }
        let state = RevealState::new(grid.width(), grid.height());
        let rng = SeededRng::new(seed);
        Ok(BoardEngine { grid, state, rng, guard: safe_first_click, lost: false })
    }

    /// The board that is played on.
    pub fn grid(&self) -> (g: &Grid)
        ensures
            *g == self.spec_grid(),
    {
        &self.grid
    }

    /// The status of the cells.
    pub fn state(&self) -> (s: &RevealState)
        ensures
            *s == self.spec_state(),
    {
        &self.state
    }

    /// Whether a reveal has hit a mine. Once true it stays true.
    #[verifier::when_used_as_spec(spec_is_lost)]
    pub fn is_lost(&self) -> (b: bool)
        ensures
            b == self.spec_is_lost(),
    {
        self.lost
    }

    /// Whether every cell that holds no mine is uncovered. Mines may be
    /// covered or flagged.
    #[verifier::when_used_as_spec(spec_is_won)]
    pub fn is_won(&self) -> (b: bool)
        requires
            self.wf(),
        ensures
            b == self.spec_is_won(),
    {
        let w: u16 = self.grid.width();
        let h: u16 = self.grid.height();
        let mut y: u16 = 0;
        while y < h
            invariant
                self.wf(),
                w == self.spec_grid().spec_width(),
                h == self.spec_grid().spec_height(),
                y <= h,
                forall|c: Coordinate|
                    #![trigger self.status(c)]
                    self.in_bounds(c) && c.y < y && !self.mines().contains(c) ==> self.status(
                        c,
                    ) is Uncovered,
            decreases h - y,
        {
            let mut x: u16 = 0;
            while x < w
                invariant
                    self.wf(),
                    w == self.spec_grid().spec_width(),
                    h == self.spec_grid().spec_height(),
                    y < h,
                    x <= w,
                    forall|c: Coordinate|
                        #![trigger self.status(c)]
                        self.in_bounds(c) && (c.y < y || (c.y == y && c.x < x))
                            && !self.mines().contains(c) ==> self.status(c) is Uncovered,
                decreases w - x,
            {
                let c = Coordinate { x, y };
                let bomb: bool = match self.grid.tile_at(c) {
                    Ok(Tile::Bomb) => true,
                    _ => false,
                };
                let open: bool = match self.state.get(c) {
                    Status::Uncovered => true,
                    _ => false,
                };
                if !bomb && !open {
                    assert(self.in_bounds(c) && !self.mines().contains(c) && !(self.status(
                        c,
                    ) is Uncovered));
                    return false;
                }
                x = x + 1;
            }
            y = y + 1;
        }
        true
    }

    /// Flags a covered cell, or takes the flag off a flagged one. An
    /// uncovered cell is left as it is. `InvalidCoordinate` for a
    /// coordinate off the board. No other cell changes, nor the board.
    pub fn toggle_flag(&mut self, coord: Coordinate) -> (r: Result<FlagOutcome, BoardError>)
        requires
            old(self).wf(),
        ensures
            final(self).wf(),
            final(self).same_board_as(old(self)),
            !old(self).in_bounds(coord) ==> r == Err::<FlagOutcome, BoardError>(
                BoardError::InvalidCoordinate,
            ) && *final(self) == *old(self),
            old(self).in_bounds(coord) ==> r == Ok::<FlagOutcome, BoardError>(
                flag_outcome(old(self).status(coord)),
            ),
            old(self).in_bounds(coord) ==> final(self).spec_state()@ == old(
                self,
            ).spec_state()@.insert(coord, toggled(old(self).status(coord))),
            old(self).in_bounds(coord) ==> final(self).status(coord) == toggled(
                old(self).status(coord),
            ),
            old(self).in_bounds(coord) && old(self).status(coord) is Uncovered ==> *final(self)
                == *old(self),
            forall|c: Coordinate|
                old(self).in_bounds(c) && c != coord ==> #[trigger] final(self).status(c) == old(
                    self,
                ).status(c),
    {
        if !self.grid.contains(coord) {
            return Err(BoardError::InvalidCoordinate);
        }
        match self.state.get(coord) {
            Status::Covered => {
                self.state.mark(coord, Status::Flagged);
                proof {
                    self.lemma_lost_kept(old(self));
                }
                Ok(FlagOutcome::Flagged)
            },
            Status::Flagged => {
                self.state.mark(coord, Status::Covered);
                proof {
                    self.lemma_lost_kept(old(self));
                }
                Ok(FlagOutcome::Unflagged)
            },
            Status::Uncovered => Ok(FlagOutcome::Rejected),
        }
    }

    /// Whether a reveal at `coord` has to move mines away first: it is the
    /// session's first, it is to be safe, and a mine lies on `coord` or
    /// touches it.
    pub open spec fn relocation_due(&self, coord: Coordinate) -> bool {
        self.guarded() && exists|c: Coordinate| #[trigger]
            self.mines().contains(c) && c.near(coord)
    }

    /// What a reveal of the covered cell `coord` makes of a session: the
    /// session `after` it, and the outcome it reports.
    pub open spec fn reveals_to(
        &self,
        after: &BoardEngine,
        coord: Coordinate,
        outcome: RevealOutcome,
    ) -> bool {
        &&& !after.guarded()
        &&& after.spec_state().spec_width() == self.spec_state().spec_width()
        &&& after.spec_state().spec_height() == self.spec_state().spec_height()
        &&& if self.relocation_due(coord) {
            &&& cleared_from(&after.spec_grid(), &self.spec_grid(), coord)
            &&& after.mines() == cleared_mines(
                self.mines(),
                self.spec_grid().spec_width(),
                self.spec_grid().spec_height(),
                coord,
                self.rng_state(),
            )
            &&& after.rng_state() == state_after_clearing(
                self.mines(),
                self.spec_grid().spec_width(),
                self.spec_grid().spec_height(),
                coord,
                self.rng_state(),
            )
        } else {
            after.spec_grid() == self.spec_grid() && after.rng_state() == self.rng_state()
        }
        &&& if after.mines().contains(coord) {
            &&& outcome == RevealOutcome::HitMine
            &&& after.spec_is_lost()
            &&& forall|c: Coordinate|
                #![trigger after.status(c)]
                self.in_bounds(c) ==> after.status(c) == (if c == coord {
                    Status::Uncovered
                } else {
                    self.status(c)
                })
        } else {
            &&& outcome matches RevealOutcome::Uncovered(cells)
            &&& cells@ == fill_order(&after.spec_grid(), &self.spec_state(), coord)
            &&& cells@.no_duplicates()
            &&& cells@.len() > 0
            &&& cells@[0] == coord
            &&& cells@.to_set() == fill_region(&after.spec_grid(), &self.spec_state(), coord)
            &&& forall|c: Coordinate|
                #![trigger after.status(c)]
                self.in_bounds(c) ==> after.status(c) == (if cells@.contains(c) {
                    Status::Uncovered
                } else {
                    self.status(c)
                })
            &&& after.spec_is_lost() == self.spec_is_lost()
        }
    }

    /// Before the first reveal of a session that is to start safely: moves
    /// away the mines on and around `coord`, if there are any.
    fn settle_first_reveal(&mut self, coord: Coordinate)
        requires
            old(self).wf(),
            old(self).in_bounds(coord),
        ensures
            final(self).wf(),
            !final(self).guarded(),
            final(self).spec_state() == old(self).spec_state(),
            final(self).spec_is_lost() == old(self).spec_is_lost(),
            final(self).spec_grid().spec_width() == old(self).spec_grid().spec_width(),
            final(self).spec_grid().spec_height() == old(self).spec_grid().spec_height(),
            if old(self).relocation_due(coord) {
                &&& cleared_from(&final(self).spec_grid(), &old(self).spec_grid(), coord)
                &&& final(self).mines() == cleared_mines(
                    old(self).mines(),
                    old(self).spec_grid().spec_width(),
                    old(self).spec_grid().spec_height(),
                    coord,
                    old(self).rng_state(),
                )
                &&& final(self).rng_state() == state_after_clearing(
                    old(self).mines(),
                    old(self).spec_grid().spec_width(),
                    old(self).spec_grid().spec_height(),
                    coord,
                    old(self).rng_state(),
                )
            } else {
                final(self).spec_grid() == old(self).spec_grid() && final(self).rng_state() == old(
                    self,
                ).rng_state()
            },
            old(self).guarded() ==> forall|c: Coordinate| #[trigger]
                final(self).mines().contains(c) ==> !c.near(coord),
    {
        if self.guard {
            self.guard = false;
            if self.grid.mine_near(coord) {
                let cleared: Grid = self.grid.clear_zone(coord, &mut self.rng);
                self.grid = cleared;
            }
        }
    }

    /// Reveals a cell. `InvalidCoordinate` for a coordinate off the board.
    /// An uncovered or flagged cell is left as it is, and nothing else
    /// changes. A covered cell is uncovered. If it holds a mine, the session
    /// is lost and no other cell is uncovered. If it holds none, every cell
    /// is uncovered that can be reached from it by a walk over covered
    /// cells that passes from cell to touching cell and leaves empty cells
    /// only; the outcome lists the cells that were uncovered.
    ///
    /// In a session that is to start safely, the first reveal of a covered
    /// cell first moves away the mines on that cell and on the cells
    /// touching it, so that it hits no mine.
    pub fn reveal_cell(&mut self, coord: Coordinate) -> (r: Result<RevealOutcome, BoardError>)
        requires
            old(self).wf(),
        ensures
            final(self).wf(),
            !old(self).in_bounds(coord) ==> r == Err::<RevealOutcome, BoardError>(
                BoardError::InvalidCoordinate,
            ) && *final(self) == *old(self),
            old(self).in_bounds(coord) ==> r is Ok,
            old(self).in_bounds(coord) && old(self).status(coord) is Uncovered ==> r == Ok::<
                RevealOutcome,
                BoardError,
            >(RevealOutcome::AlreadyUncovered) && *final(self) == *old(self),
            old(self).in_bounds(coord) && old(self).status(coord) is Flagged ==> r == Ok::<
                RevealOutcome,
                BoardError,
            >(RevealOutcome::Flagged) && *final(self) == *old(self),
            old(self).in_bounds(coord) && old(self).status(coord) is Covered ==> old(
                self,
            ).reveals_to(final(self), coord, r->Ok_0),
            old(self).in_bounds(coord) && old(self).status(coord) is Covered && old(
                self,
            ).guarded() ==> r->Ok_0 is Uncovered,
    {
        if !self.grid.contains(coord) {
            return Err(BoardError::InvalidCoordinate);
        }
        match self.state.get(coord) {
            Status::Uncovered => {
                return Ok(RevealOutcome::AlreadyUncovered);
            },
            Status::Flagged => {
                return Ok(RevealOutcome::Flagged);
            },
            Status::Covered => {},
        }
        self.settle_first_reveal(coord);
        let bomb: bool = match self.grid.tile_at(coord) {
            Ok(Tile::Bomb) => true,
            _ => false,
        };
        if bomb {
            self.uncover_mine(coord);
            Ok(RevealOutcome::HitMine)
        } else {
            let cells: Vec<Coordinate> = self.uncover_region(coord);
            Ok(RevealOutcome::Uncovered(cells))
        }
    }

    /// Uncovers a covered cell that holds a mine: the session is lost.
    fn uncover_mine(&mut self, coord: Coordinate)
        requires
            old(self).wf(),
            !old(self).guarded(),
            old(self).in_bounds(coord),
            old(self).status(coord) is Covered,
            old(self).mines().contains(coord),
        ensures
            final(self).wf(),
            !final(self).guarded(),
            final(self).spec_grid() == old(self).spec_grid(),
            final(self).rng_state() == old(self).rng_state(),
            final(self).spec_state().spec_width() == old(self).spec_state().spec_width(),
            final(self).spec_state().spec_height() == old(self).spec_state().spec_height(),
            final(self).spec_is_lost(),
            forall|c: Coordinate|
                #![trigger final(self).status(c)]
                old(self).in_bounds(c) ==> final(self).status(c) == (if c == coord {
                    Status::Uncovered
                } else {
                    old(self).status(c)
                }),
    {
        self.state.mark(coord, Status::Uncovered);
        self.lost = true;
        assert(self.mines().contains(coord) && self.status(coord) is Uncovered);
    }

    /// Uncovers a covered cell that holds no mine, and what a reveal there
    /// reaches.
    fn uncover_region(&mut self, coord: Coordinate) -> (cells: Vec<Coordinate>)
        requires
            old(self).wf(),
            !old(self).guarded(),
            old(self).in_bounds(coord),
            old(self).status(coord) is Covered,
            !old(self).mines().contains(coord),
        ensures
            final(self).wf(),
            !final(self).guarded(),
            final(self).spec_grid() == old(self).spec_grid(),
            final(self).rng_state() == old(self).rng_state(),
            final(self).spec_state().spec_width() == old(self).spec_state().spec_width(),
            final(self).spec_state().spec_height() == old(self).spec_state().spec_height(),
            final(self).spec_is_lost() == old(self).spec_is_lost(),
            cells@ == fill_order(&old(self).spec_grid(), &old(self).spec_state(), coord),
            cells@.no_duplicates(),
            cells@.len() > 0,
            cells@[0] == coord,
            cells@.to_set() == fill_region(&old(self).spec_grid(), &old(self).spec_state(), coord),
            forall|c: Coordinate| #[trigger]
                cells@.contains(c) <==> fill_reaches(
                    &old(self).spec_grid(),
                    &old(self).spec_state(),
                    coord,
                    c,
                ),
            forall|c: Coordinate|
                #![trigger final(self).status(c)]
                old(self).in_bounds(c) ==> final(self).status(c) == (if cells@.contains(c) {
                    Status::Uncovered
                } else {
                    old(self).status(c)
                }),
    {
        let cells: Vec<Coordinate> = flood(&self.grid, &mut self.state, coord);
        proof {
            assert(cells@.to_set() =~= fill_region(&old(self).grid, &old(self).state, coord));
            assert forall|c: Coordinate|
                #![trigger self.status(c)]
                self.mines().contains(c) && self.status(c) is Uncovered implies old(
                self,
            ).status(c) is Uncovered by {
                if cells@.contains(c) {
                    crate::fill::lemma_fill_avoids_mines(
                        &old(self).grid,
                        &old(self).state,
                        coord,
                        c,
                    );
                }
            }
            if old(self).lost {
                let c = choose|c: Coordinate|
                    #![trigger old(self).status(c)]
                    old(self).mines().contains(c) && old(self).status(c) is Uncovered;
                assert(self.mines().contains(c) && self.status(c) is Uncovered);
            }
        }
        cells
    }

    /// Where the same mines lie uncovered in two sessions on one board,
    /// both are lost or neither is.
    proof fn lemma_lost_kept(&self, before: &BoardEngine)
        requires
            self.spec_grid() == before.spec_grid(),
            forall|c: Coordinate|
                #![trigger self.status(c)]
                self.in_bounds(c) ==> (self.status(c) is Uncovered <==> before.status(
                    c,
                ) is Uncovered),
        ensures
            (exists|c: Coordinate|
                #![trigger self.status(c)]
                self.mines().contains(c) && self.status(c) is Uncovered) <==> (exists|
                c: Coordinate,
            |
                #![trigger before.status(c)]
                before.mines().contains(c) && before.status(c) is Uncovered),
    {
        if exists|c: Coordinate|
            #![trigger self.status(c)]
            self.mines().contains(c) && self.status(c) is Uncovered {
            let c = choose|c: Coordinate|
                #![trigger self.status(c)]
                self.mines().contains(c) && self.status(c) is Uncovered;
            assert(before.mines().contains(c) && before.status(c) is Uncovered);
        }
        if exists|c: Coordinate|
            #![trigger before.status(c)]
            before.mines().contains(c) && before.status(c) is Uncovered {
            let c = choose|c: Coordinate|
                #![trigger before.status(c)]
                before.mines().contains(c) && before.status(c) is Uncovered;
            assert(self.mines().contains(c) && self.status(c) is Uncovered);
        }
    }
}

} // verus!
