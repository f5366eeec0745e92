//! The listing of a board's cells, and the shuffle that draws where the
//! mines go.

use vstd::prelude::*;
use vstd::arithmetic::div_mod::lemma_div_pos_is_pos;
use vstd::arithmetic::div_mod::lemma_fundamental_div_mod;
use vstd::arithmetic::div_mod::lemma_fundamental_div_mod_converse;
use vstd::arithmetic::div_mod::lemma_mod_bound;
use vstd::arithmetic::div_mod::lemma_multiply_divide_lt;
use crate::coordinate::Coordinate;
use crate::plane::cell_index;
use crate::plane::lemma_cell_index_bound;
use crate::random::advance;
use crate::random::draw;
use crate::random::SeededRng;

verus! {

/// Every cell of a `w` by `h` board, row by row.
pub open spec fn board_cells(w: u16, h: u16) -> Seq<Coordinate> {
    Seq::new(
        (w * h) as nat,
        |i: int| Coordinate { x: (i % (w as int)) as u16, y: (i / (w as int)) as u16 },
    )
}

/// The listing of a board holds each of its cells once, at the cell's
/// row-major position, and nothing else.
pub proof fn lemma_board_cells(w: u16, h: u16)
    ensures
        board_cells(w, h).len() == w * h,
        board_cells(w, h).no_duplicates(),
        forall|c: Coordinate| #[trigger] board_cells(w, h).contains(c) <==> (c.x < w && c.y < h),
        forall|c: Coordinate|
            c.x < w && c.y < h ==> 0 <= cell_index(w as int, c.x as int, c.y as int) < w * h
                && board_cells(w, h)[cell_index(w as int, c.x as int, c.y as int)] == c,
{
    let s = board_cells(w, h);
    let wi = w as int;
    assert(w * h >= 0) by (nonlinear_arith);
    assert forall|i: int| 0 <= i < s.len() implies (#[trigger] s[i]).x < w && s[i].y < h
        && cell_index(wi, s[i].x as int, s[i].y as int) == i by {
        assert(w > 0) by (nonlinear_arith)
            requires
                0 <= i < w * h,
        ;
        lemma_mod_bound(i, wi);
        lemma_div_pos_is_pos(i, wi);
        lemma_multiply_divide_lt(i, wi, h as int);
        lemma_fundamental_div_mod(i, wi);
        assert(wi * (i / wi) == (i / wi) * wi) by (nonlinear_arith);
    }
    assert forall|c: Coordinate| c.x < w && c.y < h implies 0 <= cell_index(
        wi,
        c.x as int,
        c.y as int,
    ) < w * h && s[cell_index(wi, c.x as int, c.y as int)] == c by {
        let i = cell_index(wi, c.x as int, c.y as int);
        lemma_cell_index_bound(wi, h as int, c.x as int, c.y as int);
        lemma_fundamental_div_mod_converse(i, wi, c.y as int, c.x as int);
    }
    assert forall|c: Coordinate| #[trigger] s.contains(c) implies c.x < w && c.y < h by {
        let i = choose|i: int| 0 <= i < s.len() && s[i] == c;
        assert(s[i].x < w);
    }
    assert forall|c: Coordinate| c.x < w && c.y < h implies #[trigger] s.contains(c) by {
        assert(s[cell_index(wi, c.x as int, c.y as int)] == c);
    }
    assert forall|i: int, j: int| 0 <= i < s.len() && 0 <= j < s.len() && i != j implies s[i]
        != s[j] by {
        assert(cell_index(wi, s[i].x as int, s[i].y as int) == i);
        assert(cell_index(wi, s[j].x as int, s[j].y as int) == j);
    }
}

/// No list of distinct cells of a board is longer than the board has cells.
pub proof fn lemma_distinct_cells_fit(s: Seq<Coordinate>, w: u16, h: u16)
    requires
        s.no_duplicates(),
        forall|i: int| 0 <= i < s.len() ==> (#[trigger] s[i]).x < w && s[i].y < h,
    ensures
        s.len() <= w * h,
{
    let all = board_cells(w, h);
    lemma_board_cells(w, h);
    s.unique_seq_to_set();
    all.unique_seq_to_set();
    vstd::seq_lib::seq_to_set_is_finite(all);
    assert(s.to_set().subset_of(all.to_set())) by {
        assert forall|c: Coordinate| s.to_set().contains(c) implies all.to_set().contains(c) by {
            let i = choose|i: int| 0 <= i < s.len() && s[i] == c;
            assert(s[i].x < w);
            assert(all.contains(c));
        }
    }
    vstd::set_lib::lemma_len_subset(s.to_set(), all.to_set());
}

/// Every cell of the board, row by row.
pub fn all_cells(w: u16, h: u16) -> (v: Vec<Coordinate>)
    ensures
        v@ == board_cells(w, h),
{
    let mut v: Vec<Coordinate> = Vec::new();
    let mut y: u16 = 0;
    while y < h
        invariant
            y <= h,
            v.len() == y * w,
            forall|c: Coordinate|
                c.x < w && c.y < y ==> v@[cell_index(w as int, c.x as int, c.y as int)] == c,
        decreases h - y,
    {
        let mut x: u16 = 0;
        while x < w
            invariant
                y < h,
                x <= w,
                v.len() == y * w + x,
                forall|c: Coordinate|
                    c.x < w && (c.y < y || (c.y == y && c.x < x)) ==> v@[cell_index(
                        w as int,
                        c.x as int,
                        c.y as int,
                    )] == c,
            decreases w - x,
        {
            let ghost before = v@;
            v.push(Coordinate { x, y });
            proof {
                assert forall|c: Coordinate|
                    c.x < w && (c.y < y || (c.y == y && c.x < x + 1)) implies v@[cell_index(
                    w as int,
                    c.x as int,
                    c.y as int,
                )] == c by {
                    crate::plane::lemma_cell_index_order(
                        w as int,
                        c.x as int,
                        c.y as int,
                        x as int,
                        y as int,
                    );
                    assert(0 <= c.y * w) by (nonlinear_arith)
                        requires
                            0 <= c.y,
                            0 <= w,
                    ;
                    if c.y == y && c.x == x {
                    } else {
                        assert(before[cell_index(w as int, c.x as int, c.y as int)] == c);
                    }
                }
            }
            x = x + 1;
        }
        assert(y * w + w == (y + 1) * w) by (nonlinear_arith);
        y = y + 1;
    }
    proof {
        lemma_board_cells(w, h);
        let s = board_cells(w, h);
        assert(h * w == w * h) by (nonlinear_arith);
        assert forall|i: int| 0 <= i < s.len() implies v@[i] == s[i] by {
            let c = s[i];
            assert(s.contains(c));
            assert(s[cell_index(w as int, c.x as int, c.y as int)] == c);
        }
        assert(v@ =~= s);
    }
    v
}

/// The sequence with the items at positions `i` and `j` exchanged.
pub open spec fn swapped(s: Seq<Coordinate>, i: int, j: int) -> Seq<Coordinate> {
    s.update(i, s[j]).update(j, s[i])
}

/// The cells after the first `k` steps of a shuffle, and the generator's
/// state after them. Step number `i` draws one of the cells from position
/// `i` on and moves it to position `i`, so the first `k` cells are a sample
/// without replacement.
pub open spec fn dealt(cells: Seq<Coordinate>, state: u64, k: nat) -> (Seq<Coordinate>, u64)
    decreases k,
{
    if k == 0 {
        (cells, state)
    } else {
        let before = dealt(cells, state, (k - 1) as nat);
        let pick = k - 1 + draw(before.1, (cells.len() - (k - 1)) as u32);
        (swapped(before.0, k - 1, pick), advance(before.1))
    }
}

/// A draw stays below its bound.
pub proof fn lemma_draw_bound(state: u64, bound: u32)
    requires
        bound > 0,
    ensures
        draw(state, bound) < bound,
{
    lemma_mod_bound(crate::random::scramble(advance(state)) as int, bound as int);
}

/// Exchanging two items keeps the items and keeps them distinct.
pub proof fn lemma_swapped(s: Seq<Coordinate>, i: int, j: int)
    requires
        0 <= i < s.len(),
        0 <= j < s.len(),
    ensures
        swapped(s, i, j).len() == s.len(),
        forall|c: Coordinate| #[trigger] swapped(s, i, j).contains(c) <==> s.contains(c),
        s.no_duplicates() ==> swapped(s, i, j).no_duplicates(),
{
    let t = swapped(s, i, j);
    assert forall|c: Coordinate| #[trigger] t.contains(c) implies s.contains(c) by {
        let k = choose|k: int| 0 <= k < t.len() && t[k] == c;
        if k == i {
            assert(s[j] == c);
        } else if k == j {
            assert(s[i] == c);
        } else {
            assert(s[k] == c);
        }
    }
    assert forall|c: Coordinate| #[trigger] s.contains(c) implies t.contains(c) by {
        let k = choose|k: int| 0 <= k < s.len() && s[k] == c;
        if k == i {
            assert(t[j] == c);
        } else if k == j {
            assert(t[i] == c);
        } else {
            assert(t[k] == c);
        }
    }
    if s.no_duplicates() {
        assert forall|a: int, b: int| 0 <= a < t.len() && 0 <= b < t.len() && a != b implies t[a]
            != t[b] by {
            let sa = if a == i {
                j
            } else if a == j {
                i
            } else {
                a
            };
            let sb = if b == i {
                j
            } else if b == j {
                i
            } else {
                b
            };
            assert(t[a] == s[sa] && t[b] == s[sb] && sa != sb);
        }
    }
}

/// A shuffle permutes: it keeps the cells, and keeps them distinct.
pub proof fn lemma_dealt(cells: Seq<Coordinate>, state: u64, k: nat)
    requires
        k <= cells.len() <= u32::MAX,
    ensures
        dealt(cells, state, k).0.len() == cells.len(),
        forall|c: Coordinate| #[trigger]
            dealt(cells, state, k).0.contains(c) <==> cells.contains(c),
        cells.no_duplicates() ==> dealt(cells, state, k).0.no_duplicates(),
    decreases k,
{
    if k > 0 {
        lemma_dealt(cells, state, (k - 1) as nat);
        let before = dealt(cells, state, (k - 1) as nat);
        let bound = (cells.len() - (k - 1)) as u32;
        lemma_draw_bound(before.1, bound);
        lemma_swapped(before.0, k - 1, k - 1 + draw(before.1, bound));
    }
}

/// Shuffles the first `count` positions of `cells`: afterwards they hold a
/// sample of `count` of the cells, drawn without replacement.
pub fn deal(cells: &mut Vec<Coordinate>, count: u32, rng: &mut SeededRng)
    requires
        count <= old(cells).len() <= u32::MAX,
    ensures
        (final(cells)@, final(rng)@) == dealt(old(cells)@, old(rng)@, count as nat),
{
    let ghost start = cells@;
    let ghost seed = rng@;
    let n: usize = cells.len();
    let mut k: u32 = 0;
    while k < count
        invariant
            k <= count <= n,
            n == cells.len(),
            n == start.len(),
            n <= u32::MAX,
            (cells@, rng@) == dealt(start, seed, k as nat),
        decreases count - k,
    {
        let bound: u32 = (n - k as usize) as u32;
        let r: u32 = rng.next_below(bound);
        let j: usize = k as usize + r as usize;
        let a: Coordinate = cells[k as usize];
        let b: Coordinate = cells[j];
        let ghost before = cells@;
        cells.set(k as usize, b);
        cells.set(j, a);
        assert(cells@ =~= swapped(before, k as int, j as int));
        k = k + 1;
    }
}

} // verus!
