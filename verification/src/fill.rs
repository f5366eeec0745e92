//! What a reveal uncovers: the cells it reaches, and the order in which it
//! reaches them.

use vstd::prelude::*;
use crate::coordinate::Coordinate;
use crate::grid::Grid;
use crate::hints::lemma_touching_mine_counts;
use crate::hints::neighbor_cells;
use crate::lists::lemma_push_contains;
use crate::placement::lemma_distinct_cells_fit;
use crate::reveal_state::RevealState;
use crate::reveal_state::Status;
use crate::tile::Tile;

verus! {

/// A walk that a reveal can take: it stays on the board, every cell on it is
/// covered, each cell touches the next, and every cell but the last is
/// empty. A flagged or uncovered cell is on no such walk, and the walk ends
/// where it meets a hint.
pub open spec fn is_fill_path(grid: &Grid, state: &RevealState, p: Seq<Coordinate>) -> bool {
    &&& p.len() > 0
    &&& forall|i: int|
        0 <= i < p.len() ==> grid.in_bounds(#[trigger] p[i]) && state.status(p[i]) is Covered
    &&& forall|i: int|
        0 <= i < p.len() - 1 ==> grid.tile(#[trigger] p[i]) is Empty && p[i].touches(p[i + 1])
}

/// Whether a reveal at `origin` reaches `c`.
pub open spec fn fill_reaches(
    grid: &Grid,
    state: &RevealState,
    origin: Coordinate,
    c: Coordinate,
) -> bool {
    exists|p: Seq<Coordinate>| #[trigger]
        is_fill_path(grid, state, p) && p[0] == origin && p.last() == c
}

/// The cells that a reveal at `origin` uncovers.
pub open spec fn fill_region(grid: &Grid, state: &RevealState, origin: Coordinate) -> Set<
    Coordinate,
> {
    Set::new(|c: Coordinate| fill_reaches(grid, state, origin, c))
}

/// `found`, and after it those of the first `j` cells of `around` that are
/// covered and not listed before them.
#[verifier::opaque]
pub open spec fn with_new(
    state: &RevealState,
    found: Seq<Coordinate>,
    around: Seq<Coordinate>,
    j: nat,
) -> Seq<Coordinate>
    decreases j,
{
    if j == 0 {
        found
    } else {
        let before = with_new(state, found, around, (j - 1) as nat);
        let d = around[j - 1];
        if state.status(d) is Covered && !before.contains(d) {
            before.push(d)
        } else {
            before
        }
    }
}

/// The cells that a reveal at `origin` has listed once it has gone on from
/// the first `k` of them. It starts with `origin` alone. Going on from an
/// empty cell lists the covered cells that touch it and are not listed yet;
/// going on from any other cell lists nothing.
#[verifier::opaque]
pub open spec fn fill_steps(
    grid: &Grid,
    state: &RevealState,
    origin: Coordinate,
    k: nat,
) -> Seq<Coordinate>
    decreases k,
{
    if k == 0 {
        seq![origin]
    } else {
        let before = fill_steps(grid, state, origin, (k - 1) as nat);
        if k - 1 < before.len() && grid.tile(before[k - 1]) is Empty {
            let around = neighbor_cells(grid.spec_width(), grid.spec_height(), before[k - 1]);
            with_new(state, before, around, around.len())
        } else {
            before
        }
    }
}

/// The cells that a reveal at `origin` uncovers, in the order in which it
/// uncovers them: nearest cells first.
pub open spec fn fill_order(grid: &Grid, state: &RevealState, origin: Coordinate) -> Seq<
    Coordinate,
> {
    fill_steps(grid, state, origin, (grid.spec_width() * grid.spec_height()) as nat)
}

/// `with_new` looks at one more cell.
proof fn lemma_with_new_next(
    state: &RevealState,
    found: Seq<Coordinate>,
    around: Seq<Coordinate>,
    j: nat,
)
    ensures
        with_new(state, found, around, 0) == found,
        with_new(state, found, around, j + 1) == (if state.status(around[j as int]) is Covered
            && !with_new(state, found, around, j).contains(around[j as int]) {
            with_new(state, found, around, j).push(around[j as int])
        } else {
            with_new(state, found, around, j)
        }),
{
    reveal(with_new);
}

/// `fill_steps` goes on from one more cell.
proof fn lemma_fill_steps_next(grid: &Grid, state: &RevealState, origin: Coordinate, k: nat)
    ensures
        fill_steps(grid, state, origin, 0) == seq![origin],
        fill_steps(grid, state, origin, k + 1) == (if k < fill_steps(
            grid,
            state,
            origin,
            k,
        ).len() && grid.tile(fill_steps(grid, state, origin, k)[k as int]) is Empty {
            with_new(
                state,
                fill_steps(grid, state, origin, k),
                neighbor_cells(
                    grid.spec_width(),
                    grid.spec_height(),
                    fill_steps(grid, state, origin, k)[k as int],
                ),
                neighbor_cells(
                    grid.spec_width(),
                    grid.spec_height(),
                    fill_steps(grid, state, origin, k)[k as int],
                ).len(),
            )
        } else {
            fill_steps(grid, state, origin, k)
        }),
{
    reveal(fill_steps);
}

/// Once a reveal has gone on from every cell that it listed, going on
/// lists nothing more.
proof fn lemma_fill_steps_settle(
    grid: &Grid,
    state: &RevealState,
    origin: Coordinate,
    done: nat,
    k: nat,
)
    requires
        fill_steps(grid, state, origin, done).len() == done,
        done <= k,
    ensures
        fill_steps(grid, state, origin, k) == fill_steps(grid, state, origin, done),
    decreases k,
{
    if k > done {
        lemma_fill_steps_settle(grid, state, origin, done, (k - 1) as nat);
        lemma_fill_steps_next(grid, state, origin, (k - 1) as nat);
    }
}

/// Every covered cell of the board that touches an empty cell `c` is among
/// `found`.
spec fn expanded(grid: &Grid, start: &RevealState, found: Seq<Coordinate>, c: Coordinate) -> bool {
    grid.tile(c) is Empty ==> forall|d: Coordinate|
        #![trigger found.contains(d)]
        grid.in_bounds(d) && c.touches(d) && start.status(d) is Covered ==> found.contains(d)
}

/// A walk that reaches an empty cell goes on to each covered cell that
/// touches it.
proof fn lemma_reach_step(
    grid: &Grid,
    state: &RevealState,
    origin: Coordinate,
    c: Coordinate,
    d: Coordinate,
)
    requires
        fill_reaches(grid, state, origin, c),
        grid.tile(c) is Empty,
        c.touches(d),
        grid.in_bounds(d),
        state.status(d) is Covered,
    ensures
        fill_reaches(grid, state, origin, d),
{
    let p = choose|p: Seq<Coordinate>| #[trigger]
        is_fill_path(grid, state, p) && p[0] == origin && p.last() == c;
    let q = p.push(d);
    assert forall|i: int| 0 <= i < q.len() implies grid.in_bounds(#[trigger] q[i]) && state.status(
        q[i],
    ) is Covered by {
        if i < p.len() {
            assert(q[i] == p[i]);
        }
    }
    assert forall|i: int| 0 <= i < q.len() - 1 implies grid.tile(#[trigger] q[i]) is Empty
        && q[i].touches(q[i + 1]) by {
        assert(q[i] == p[i]);
        if i < p.len() - 1 {
            assert(q[i + 1] == p[i + 1]);
        }
    }
    assert(is_fill_path(grid, state, q) && q[0] == origin && q.last() == d);
}

/// A reveal that starts on a cell without a mine uncovers no mine.
pub proof fn lemma_fill_avoids_mines(
    grid: &Grid,
    state: &RevealState,
    origin: Coordinate,
    c: Coordinate,
)
    requires
        grid.wf(),
        !grid.mines().contains(origin),
        fill_reaches(grid, state, origin, c),
    ensures
        !grid.mines().contains(c),
{
    let p = choose|p: Seq<Coordinate>| #[trigger]
        is_fill_path(grid, state, p) && p[0] == origin && p.last() == c;
    if p.len() > 1 {
        let b = p[p.len() - 2];
        assert(grid.tile(b) is Empty && b.touches(p[p.len() - 2 + 1]));
        assert(grid.in_bounds(b));
        if grid.mines().contains(c) {
            lemma_touching_mine_counts(grid.mines(), grid.spec_width(), grid.spec_height(), b, c);
        }
    }
}

/// When every cell of `found` has been expanded, `found` holds every cell
/// of every walk that starts in it.
proof fn lemma_walk_found(
    grid: &Grid,
    state: &RevealState,
    found: Seq<Coordinate>,
    p: Seq<Coordinate>,
    j: int,
)
    requires
        is_fill_path(grid, state, p),
        found.contains(p[0]),
        forall|c: Coordinate| #[trigger] found.contains(c) ==> expanded(grid, state, found, c),
        0 <= j < p.len(),
    ensures
        found.contains(p[j]),
    decreases j,
{
    if j > 0 {
        lemma_walk_found(grid, state, found, p, j - 1);
        let c = p[j - 1];
        assert(grid.tile(c) is Empty && c.touches(p[j - 1 + 1]));
        assert(expanded(grid, state, found, c));
    }
}

/// Uncovers the cell at `origin` and everything that a reveal there
/// reaches, and returns the cells it uncovered, each once.
pub(crate) fn flood(grid: &Grid, state: &mut RevealState, origin: Coordinate) -> (found: Vec<
    Coordinate,
>)
    requires
        grid.wf(),
        old(state).wf(),
        old(state).spec_width() == grid.spec_width(),
        old(state).spec_height() == grid.spec_height(),
        grid.in_bounds(origin),
        old(state).status(origin) is Covered,
    ensures
        final(state).wf(),
        final(state).spec_width() == old(state).spec_width(),
        final(state).spec_height() == old(state).spec_height(),
        found@ == fill_order(grid, old(state), origin),
        found@.no_duplicates(),
        found@.len() > 0,
        found@[0] == origin,
        forall|c: Coordinate| #[trigger]
            found@.contains(c) <==> fill_reaches(grid, old(state), origin, c),
        forall|c: Coordinate|
            grid.in_bounds(c) ==> #[trigger] final(state).status(c) == (if found@.contains(c) {
                Status::Uncovered
            } else {
                old(state).status(c)
            }),
{
    let ghost start = *state;
    let w: u16 = grid.width();
    let h: u16 = grid.height();
    let mut found: Vec<Coordinate> = Vec::new();
    found.push(origin);
    state.mark(origin, Status::Uncovered);
    proof {
        let p = seq![origin];
        assert(is_fill_path(grid, &start, p) && p[0] == origin && p.last() == origin);
        assert(found@[0] == origin);
        lemma_fill_steps_next(grid, &start, origin, 0);
        assert(found@ =~= seq![origin]);
        assert forall|c: Coordinate| grid.in_bounds(c) implies #[trigger] state.status(c) == (
        if found@.contains(c) {
            Status::Uncovered
        } else {
            start.status(c)
        }) by {
            if found@.contains(c) {
                let i = choose|i: int| 0 <= i < found@.len() && found@[i] == c;
            }
        }
    }
    let mut head: usize = 0;
    while head < found.len()
        invariant
            grid.wf(),
            state.wf(),
            w == grid.spec_width(),
            h == grid.spec_height(),
            state.spec_width() == w,
            state.spec_height() == h,
            start.spec_width() == w,
            start.spec_height() == h,
            head <= found.len(),
            found@ == fill_steps(grid, &start, origin, head as nat),
            found@.len() > 0,
            found@[0] == origin,
            found@.no_duplicates(),
            forall|c: Coordinate|
                grid.in_bounds(c) ==> #[trigger] state.status(c) == (if found@.contains(c) {
                    Status::Uncovered
                } else {
                    start.status(c)
                }),
            forall|i: int|
                0 <= i < found@.len() ==> {
                    &&& grid.in_bounds(#[trigger] found@[i])
                    &&& start.status(found@[i]) is Covered
                    &&& fill_reaches(grid, &start, origin, found@[i])
                },
            forall|i: int| 0 <= i < head ==> expanded(grid, &start, found@, #[trigger] found@[i]),
        decreases w * h - head,
    {
        proof {
            lemma_distinct_cells_fit(found@, w, h);
        }
        let c: Coordinate = found[head];
        let tile = grid.tile_at(c);
        let empty: bool = match tile {
            Ok(Tile::Empty) => true,
            _ => false,
        };
        if empty {
            let around: Vec<Coordinate> = grid.neighbors_of(c);
            let ghost listed = found@;
            proof {
                lemma_with_new_next(&start, listed, around@, 0);
            }
            let mut k: usize = 0;
            while k < around.len()
                invariant
                    grid.wf(),
                    state.wf(),
                    w == grid.spec_width(),
                    h == grid.spec_height(),
                    state.spec_width() == w,
                    state.spec_height() == h,
                    start.spec_width() == w,
                    start.spec_height() == h,
                    head < found.len(),
                    c == found@[head as int],
                    grid.tile(c) is Empty,
                    k <= around.len(),
                    around@ == neighbor_cells(w, h, c),
                    listed == fill_steps(grid, &start, origin, head as nat),
                    found@ == with_new(&start, listed, around@, k as nat),
                    forall|d: Coordinate| #[trigger]
                        around@.contains(d) <==> (grid.in_bounds(d) && c.touches(d)),
                    found@.len() > 0,
                    found@[0] == origin,
                    found@.no_duplicates(),
                    forall|c: Coordinate|
                        grid.in_bounds(c) ==> #[trigger] state.status(c) == (if found@.contains(c) {
                            Status::Uncovered
                        } else {
                            start.status(c)
                        }),
                    forall|i: int|
                        0 <= i < found@.len() ==> {
                            &&& grid.in_bounds(#[trigger] found@[i])
                            &&& start.status(found@[i]) is Covered
                            &&& fill_reaches(grid, &start, origin, found@[i])
                        },
                    forall|i: int|
                        0 <= i < head ==> expanded(grid, &start, found@, #[trigger] found@[i]),
                    forall|j: int|
                        0 <= j < k && start.status(#[trigger] around@[j]) is Covered
                            ==> found@.contains(around@[j]),
                decreases around.len() - k,
            {
                let d: Coordinate = around[k];
                assert(around@.contains(d));
                let covered: bool = match state.get(d) {
                    Status::Covered => true,
                    _ => false,
                };
                proof {
                    lemma_with_new_next(&start, listed, around@, k as nat);
                    assert(covered <==> (start.status(d) is Covered && !found@.contains(d)));
                }
                if covered {
                    let ghost before = found@;
                    let ghost marks = *state;
                    state.mark(d, Status::Uncovered);
                    found.push(d);
                    proof {
                        lemma_push_contains(before, d);
                        lemma_reach_step(grid, &start, origin, c, d);
                        assert(!before.contains(d));
                        assert forall|i: int| 0 <= i < found@.len() implies {
                            &&& grid.in_bounds(#[trigger] found@[i])
                            &&& start.status(found@[i]) is Covered
                            &&& fill_reaches(grid, &start, origin, found@[i])
                        } by {
                            if i < before.len() {
                                assert(found@[i] == before[i]);
                            }
                        }
                        assert forall|i: int| 0 <= i < head implies expanded(
                            grid,
                            &start,
                            found@,
                            #[trigger] found@[i],
                        ) by {
                            assert(found@[i] == before[i]);
                            assert(expanded(grid, &start, before, before[i]));
                        }
                        assert forall|a: int, b: int|
                            0 <= a < found@.len() && 0 <= b < found@.len() && a != b implies
                            found@[a] != found@[b] by {
                            if a < before.len() {
                                assert(before.contains(found@[a]));
                            }
                            if b < before.len() {
                                assert(before.contains(found@[b]));
                            }
                        }
                    }
                }
                k = k + 1;
            }
            proof {
                assert forall|d: Coordinate|
                    grid.in_bounds(d) && c.touches(d) && start.status(
                        d,
                    ) is Covered implies #[trigger] found@.contains(d) by {
                    assert(around@.contains(d));
                    let j = choose|j: int| 0 <= j < around@.len() && around@[j] == d;
                    assert(start.status(around@[j]) is Covered);
                }
                assert(expanded(grid, &start, found@, c));
            }
        }
        proof {
            lemma_fill_steps_next(grid, &start, origin, head as nat);
        }
        head = head + 1;
    }
    proof {
        lemma_distinct_cells_fit(found@, w, h);
        lemma_fill_steps_settle(grid, &start, origin, head as nat, (w * h) as nat);
        assert forall|c: Coordinate| #[trigger] found@.contains(c) implies fill_reaches(
            grid,
            &start,
            origin,
            c,
        ) by {
            let i = choose|i: int| 0 <= i < found@.len() && found@[i] == c;
            assert(fill_reaches(grid, &start, origin, found@[i]));
        }
        assert forall|c: Coordinate| #[trigger] found@.contains(c) implies expanded(
            grid,
            &start,
            found@,
            c,
        ) by {
            let i = choose|i: int| 0 <= i < found@.len() && found@[i] == c;
            assert(expanded(grid, &start, found@, found@[i]));
        }
        assert forall|c: Coordinate|
            fill_reaches(grid, &start, origin, c) implies #[trigger] found@.contains(c) by {
            let p = choose|p: Seq<Coordinate>| #[trigger]
                is_fill_path(grid, &start, p) && p[0] == origin && p.last() == c;
            assert(found@.contains(found@[0]));
            lemma_walk_found(grid, &start, found@, p, p.len() - 1);
        }
    }
    found
}

} // verus!
