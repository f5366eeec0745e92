//! What holds of boards and sessions, stated over their contracts.

use vstd::prelude::*;
use crate::coordinate::Coordinate;
use crate::engine::flag_outcome;
use crate::engine::toggled;
use crate::engine::BoardEngine;
use crate::engine::FlagOutcome;
use crate::engine::RevealOutcome;
use crate::fill::fill_reaches;
use crate::fill::fill_region;
use crate::fill::is_fill_path;
use crate::hints::lemma_adjacent_mines_counts;
use crate::hints::mine_here;
use crate::hints::touching_mines;
use crate::grid::Grid;
use crate::placement::lemma_distinct_cells_fit;
use crate::reveal_state::RevealState;
use crate::reveal_state::Status;
use crate::safe_click::cleared_from;
use crate::tile::Tile;

verus! {

/// On a board, a cell shows a mine exactly where one lies. Every other cell
/// shows the number of touching cells that hold a mine, from 1 to 8, or is
/// empty where there is none.
pub proof fn lemma_tiles_tell_the_mines(grid: &Grid, c: Coordinate)
    requires
        grid.wf(),
        grid.in_bounds(c),
    ensures
        grid.tile(c) is Bomb <==> grid.mines().contains(c),
        grid.tile(c) is Empty <==> !grid.mines().contains(c) && touching_mines(
            grid.mines(),
            grid.spec_width(),
            grid.spec_height(),
            c,
        ).len() == 0,
        grid.tile(c) matches Tile::BombNeighbor(n) ==> 1 <= n <= 8 && n == touching_mines(
            grid.mines(),
            grid.spec_width(),
            grid.spec_height(),
            c,
        ).len(),
{
    lemma_adjacent_mines_counts(grid.mines(), grid.spec_width(), grid.spec_height(), c);
}

/// What the cells show follows from where the mines are: two boards of one
/// size with the same mines show the same on every cell.
pub proof fn lemma_same_mines_same_tiles(a: &Grid, b: &Grid, c: Coordinate)
    requires
        a.wf(),
        b.wf(),
        a.spec_width() == b.spec_width(),
        a.spec_height() == b.spec_height(),
        a.mines() == b.mines(),
        a.in_bounds(c),
    ensures
        a.tile(c) == b.tile(c),
{
}

/// After the mines have been moved away from a cell, the cell is empty.
pub proof fn lemma_cleared_cell_is_empty(after: &Grid, before: &Grid, target: Coordinate)
    requires
        cleared_from(after, before, target),
        after.in_bounds(target),
    ensures
        after.tile(target) is Empty,
{
    let m = after.mines();
    let w = after.spec_width();
    let h = after.spec_height();
    assert forall|dx: int, dy: int| -1 <= dx <= 1 && -1 <= dy <= 1 implies #[trigger] mine_here(
        m,
        w,
        h,
        target.x + dx,
        target.y + dy,
    ) == 0 by {
        if 0 <= target.x + dx < w && 0 <= target.y + dy < h {
            let d = Coordinate { x: (target.x + dx) as u16, y: (target.y + dy) as u16 };
            assert(d.near(target));
        }
    }
    assert(mine_here(m, w, h, target.x - 1, target.y - 1) == 0);
    assert(mine_here(m, w, h, target.x + 0, target.y - 1) == 0);
    assert(mine_here(m, w, h, target.x + 1, target.y - 1) == 0);
    assert(mine_here(m, w, h, target.x - 1, target.y + 0) == 0);
    assert(mine_here(m, w, h, target.x + 1, target.y + 0) == 0);
    assert(mine_here(m, w, h, target.x - 1, target.y + 1) == 0);
    assert(mine_here(m, w, h, target.x + 0, target.y + 1) == 0);
    assert(mine_here(m, w, h, target.x + 1, target.y + 1) == 0);
    assert(target.near(target));
}

/// Flagging a cell twice leaves it as it was: a covered cell is flagged and
/// then covered again, a flagged cell is covered and then flagged again,
/// and an uncovered cell stays uncovered.
pub proof fn lemma_toggle_twice(status: Status)
    ensures
        toggled(toggled(status)) == status,
        status is Covered ==> flag_outcome(status) == FlagOutcome::Flagged && flag_outcome(
            toggled(status),
        ) == FlagOutcome::Unflagged,
{
}

/// A safe first reveal opens the cell and every cell of the board that
/// touches it: once the mines have been moved away from `target`, a reveal
/// there reaches each covered cell near it.
pub proof fn lemma_safe_reveal_opens_the_zone(
    after: &Grid,
    before: &Grid,
    state: &RevealState,
    target: Coordinate,
    c: Coordinate,
)
    requires
        cleared_from(after, before, target),
        after.in_bounds(target),
        after.in_bounds(c),
        c.near(target),
        state.status(target) is Covered,
        state.status(c) is Covered,
    ensures
        fill_reaches(after, state, target, c),
{
    lemma_cleared_cell_is_empty(after, before, target);
    if c == target {
        let p = seq![target];
        assert(is_fill_path(after, state, p) && p[0] == target && p.last() == c);
    } else {
        let p = seq![target, c];
        assert(is_fill_path(after, state, p) && p[0] == target && p.last() == c);
    }
}

/// A walk over the board: each cell lies on it and touches the next.
pub open spec fn is_walk(grid: &Grid, p: Seq<Coordinate>) -> bool {
    &&& p.len() > 0
    &&& forall|i: int| 0 <= i < p.len() ==> grid.in_bounds(#[trigger] p[i])
    &&& forall|i: int| 0 <= i < p.len() - 1 ==> (#[trigger] p[i]).touches(p[i + 1])
}

/// A reveal never crosses a flagged cell: where every walk over the board
/// from `origin` to `c` meets a cell that is not covered, a reveal at
/// `origin` does not reach `c`.
pub proof fn lemma_fill_stops_at_flags(
    grid: &Grid,
    state: &RevealState,
    origin: Coordinate,
    c: Coordinate,
)
    requires
        forall|p: Seq<Coordinate>|
            #![trigger is_walk(grid, p)]
            is_walk(grid, p) && p[0] == origin && p.last() == c ==> exists|i: int|
                0 <= i < p.len() && !(state.status(#[trigger] p[i]) is Covered),
    ensures
        !fill_reaches(grid, state, origin, c),
{
    if fill_reaches(grid, state, origin, c) {
        let p = choose|p: Seq<Coordinate>| #[trigger]
            is_fill_path(grid, state, p) && p[0] == origin && p.last() == c;
        assert(is_walk(grid, p));
        let i = choose|i: int| 0 <= i < p.len() && !(state.status(#[trigger] p[i]) is Covered);
        assert(state.status(p[i]) is Covered);
    }
}

/// The cells of a list that is the region of a reveal are the cells that
/// the reveal reaches.
pub proof fn lemma_region_members(
    cells: Seq<Coordinate>,
    grid: &Grid,
    state: &RevealState,
    origin: Coordinate,
)
    requires
        cells.to_set() == fill_region(grid, state, origin),
    ensures
        forall|c: Coordinate| #[trigger]
            cells.contains(c) <==> fill_reaches(grid, state, origin, c),
{
    assert forall|c: Coordinate| #[trigger]
        cells.contains(c) <==> fill_reaches(grid, state, origin, c) by {
        assert(cells.to_set().contains(c) == cells.contains(c));
        assert(fill_region(grid, state, origin).contains(c) == fill_reaches(
            grid,
            state,
            origin,
            c,
        ));
    }
}

/// A reveal of a covered cell leaves alone what lies behind flags: a cell
/// that every walk from the revealed cell meets a flag before, or any other
/// cell that is not covered, is not in the outcome and keeps its status.
pub proof fn lemma_reveal_stops_at_flags(
    before: &BoardEngine,
    after: &BoardEngine,
    coord: Coordinate,
    outcome: RevealOutcome,
    c: Coordinate,
)
    requires
        before.in_bounds(coord),
        before.in_bounds(c),
        before.status(coord) is Covered,
        before.reveals_to(after, coord, outcome),
        c != coord,
        forall|p: Seq<Coordinate>|
            #![trigger is_walk(&after.spec_grid(), p)]
            is_walk(&after.spec_grid(), p) && p[0] == coord && p.last() == c ==> exists|i: int|
                0 <= i < p.len() && !(before.spec_state().status(#[trigger] p[i]) is Covered),
    ensures
        !newly_uncovered(outcome, coord).contains(c),
        after.status(c) == before.status(c),
{
    let cells = newly_uncovered(outcome, coord);
    if after.mines().contains(coord) {
        if cells.contains(c) {
            let i = choose|i: int| 0 <= i < cells.len() && cells[i] == c;
        }
    } else {
        lemma_region_members(cells, &after.spec_grid(), &before.spec_state(), coord);
        lemma_fill_stops_at_flags(&after.spec_grid(), &before.spec_state(), coord, c);
    }
}

/// Once a mine has been hit the session stays lost, whatever is revealed
/// after.
pub proof fn lemma_lost_stays_lost(
    before: &BoardEngine,
    after: &BoardEngine,
    coord: Coordinate,
    outcome: RevealOutcome,
)
    requires
        before.spec_is_lost(),
        before.reveals_to(after, coord, outcome),
    ensures
        after.spec_is_lost(),
{
}

/// A session is lost exactly when a mine lies uncovered.
pub proof fn lemma_lost_means_a_mine_is_uncovered(engine: &BoardEngine)
    requires
        engine.wf(),
    ensures
        engine.spec_is_lost() <==> exists|c: Coordinate|
            #![trigger engine.spec_state().status(c)]
            engine.mines().contains(c) && engine.status(c) is Uncovered,
{
}

/// Flagging uncovers nothing: where a request to flag `coord` has led from
/// `before` to `after`, the same cells are uncovered in both.
pub proof fn lemma_flagging_uncovers_nothing(
    before: &BoardEngine,
    after: &BoardEngine,
    coord: Coordinate,
)
    requires
        before.wf(),
        after.same_board_as(before),
        before.in_bounds(coord) ==> after.status(coord) == toggled(before.status(coord)),
        forall|c: Coordinate|
            before.in_bounds(c) && c != coord ==> #[trigger] after.status(c) == before.status(c),
    ensures
        uncovers(
            before.spec_state().uncovered(),
            Seq::empty(),
            after.spec_state().uncovered(),
        ),
{
    let u0 = before.spec_state().uncovered();
    let u1 = after.spec_state().uncovered();
    assert forall|c: Coordinate| #[trigger] u1.contains(c) <==> u0.contains(c) by {
        if before.in_bounds(c) && c != coord {
            assert(after.status(c) == before.status(c));
        }
    }
}

/// A reveal reaches covered cells only: no flagged cell, and no cell that
/// was uncovered before.
pub proof fn lemma_fill_reaches_covered_only(
    grid: &Grid,
    state: &RevealState,
    origin: Coordinate,
    c: Coordinate,
)
    requires
        fill_reaches(grid, state, origin, c),
    ensures
        grid.in_bounds(c),
        state.status(c) is Covered,
{
    let p = choose|p: Seq<Coordinate>| #[trigger]
        is_fill_path(grid, state, p) && p[0] == origin && p.last() == c;
    assert(grid.in_bounds(p[p.len() - 1]));
}

/// The cells that an outcome reports as newly uncovered.
pub open spec fn newly_uncovered(outcome: RevealOutcome, coord: Coordinate) -> Seq<Coordinate> {
    match outcome {
        RevealOutcome::Uncovered(cells) => cells@,
        RevealOutcome::HitMine => seq![coord],
        _ => Seq::empty(),
    }
}

/// `cells` lists, each once, the cells that are uncovered in `after` and
/// were not in `before`; every cell uncovered in `before` is so in `after`.
pub open spec fn uncovers(
    before: Set<Coordinate>,
    cells: Seq<Coordinate>,
    after: Set<Coordinate>,
) -> bool {
    &&& cells.no_duplicates()
    &&& forall|c: Coordinate| #[trigger] cells.contains(c) ==> !before.contains(c)
    &&& forall|c: Coordinate| #[trigger]
        after.contains(c) <==> before.contains(c) || cells.contains(c)
}

/// What a reveal of a covered cell reports is what it uncovered: the cells
/// of its outcome were not uncovered before, are uncovered after, and no
/// other cell changed between uncovered and not.
pub proof fn lemma_reveal_uncovers(
    before: &BoardEngine,
    after: &BoardEngine,
    coord: Coordinate,
    outcome: RevealOutcome,
)
    requires
        before.wf(),
        after.wf(),
        before.in_bounds(coord),
        before.status(coord) is Covered,
        before.reveals_to(after, coord, outcome),
    ensures
        uncovers(
            before.spec_state().uncovered(),
            newly_uncovered(outcome, coord),
            after.spec_state().uncovered(),
        ),
{
    let cells = newly_uncovered(outcome, coord);
    let u0 = before.spec_state().uncovered();
    let u1 = after.spec_state().uncovered();
    if after.mines().contains(coord) {
        assert(cells[0] == coord);
        assert forall|c: Coordinate| #[trigger] cells.contains(c) implies !u0.contains(c) by {
            let i = choose|i: int| 0 <= i < cells.len() && cells[i] == c;
        }
        assert forall|c: Coordinate| #[trigger]
            u1.contains(c) <==> u0.contains(c) || cells.contains(c) by {
            if cells.contains(c) {
                let i = choose|i: int| 0 <= i < cells.len() && cells[i] == c;
            }
            if before.in_bounds(c) {
                assert(after.status(c) == (if c == coord {
                    Status::Uncovered
                } else {
                    before.status(c)
                }));
            }
        }
    } else {
        lemma_region_members(cells, &after.spec_grid(), &before.spec_state(), coord);
        assert forall|c: Coordinate| #[trigger] cells.contains(c) implies !u0.contains(c) by {
            lemma_fill_reaches_covered_only(
                &after.spec_grid(),
                &before.spec_state(),
                coord,
                c,
            );
        }
        assert forall|c: Coordinate| #[trigger]
            u1.contains(c) <==> u0.contains(c) || cells.contains(c) by {
            if cells.contains(c) {
                lemma_fill_reaches_covered_only(
                    &after.spec_grid(),
                    &before.spec_state(),
                    coord,
                    c,
                );
            }
            if before.in_bounds(c) {
                assert(after.status(c) == (if cells.contains(c) {
                    Status::Uncovered
                } else {
                    before.status(c)
                }));
            }
        }
    }
}

/// The cells that the first `k` steps of a game reported as newly
/// uncovered, in order.
pub open spec fn reported(steps: Seq<Seq<Coordinate>>, k: nat) -> Seq<Coordinate>
    decreases k,
{
    if k == 0 {
        Seq::empty()
    } else {
        reported(steps, (k - 1) as nat) + steps[k - 1]
    }
}

/// A game never uncovers a cell twice. Take the sets of uncovered cells
/// that a game passes through, and for each step the cells that it
/// reported as newly uncovered. Then no cell is reported twice over the
/// whole game, and all that was reported is no more than the board has
/// cells.
pub proof fn lemma_game_never_revisits(
    w: u16,
    h: u16,
    uncovered: Seq<Set<Coordinate>>,
    steps: Seq<Seq<Coordinate>>,
)
    requires
        uncovered.len() == steps.len() + 1,
        forall|i: int|
            0 <= i < steps.len() ==> uncovers(uncovered[i], #[trigger] steps[i], uncovered[i + 1]),
        forall|c: Coordinate| uncovered.last().contains(c) ==> c.x < w && c.y < h,
    ensures
        reported(steps, steps.len()).no_duplicates(),
        reported(steps, steps.len()).len() <= w * h,
{
    lemma_reported(uncovered, steps, steps.len());
    let all = reported(steps, steps.len());
    assert forall|i: int| 0 <= i < all.len() implies (#[trigger] all[i]).x < w && all[i].y < h by {
        assert(all.contains(all[i]));
        assert(uncovered[steps.len() as int].contains(all[i]));
        assert(uncovered.last().contains(all[i]));
    }
    lemma_distinct_cells_fit(all, w, h);
}

proof fn lemma_reported(uncovered: Seq<Set<Coordinate>>, steps: Seq<Seq<Coordinate>>, k: nat)
    requires
        uncovered.len() == steps.len() + 1,
        k <= steps.len(),
        forall|i: int|
            0 <= i < steps.len() ==> uncovers(uncovered[i], #[trigger] steps[i], uncovered[i + 1]),
    ensures
        reported(steps, k).no_duplicates(),
        forall|c: Coordinate| #[trigger]
            reported(steps, k).contains(c) ==> uncovered[k as int].contains(c),
    decreases k,
{
    if k > 0 {
        lemma_reported(uncovered, steps, (k - 1) as nat);
        let head = reported(steps, (k - 1) as nat);
        let tail = steps[k - 1];
        let all = head + tail;
        assert(uncovers(uncovered[k - 1], steps[k - 1], uncovered[k - 1 + 1]));
        assert forall|c: Coordinate| #[trigger]
            all.contains(c) implies uncovered[k as int].contains(c) by {
            let i = choose|i: int| 0 <= i < all.len() && all[i] == c;
            if i < head.len() {
                assert(head[i] == c);
                assert(head.contains(c));
            } else {
                assert(tail[i - head.len()] == c);
                assert(tail.contains(c));
            }
        }
        assert forall|i: int, j: int|
            0 <= i < all.len() && 0 <= j < all.len() && i != j implies all[i] != all[j] by {
            if i < head.len() {
                assert(head.contains(all[i]));
            } else {
                assert(tail.contains(tail[i - head.len()]));
            }
            if j < head.len() {
                assert(head.contains(all[j]));
            } else {
                assert(tail.contains(tail[j - head.len()]));
            }
        }
    }
}

} // verus!
