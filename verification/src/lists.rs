//! Facts on lists of distinct cells.

use vstd::prelude::*;
use crate::coordinate::Coordinate;

verus! {

/// A list with one more item holds that item and what it held before.
pub proof fn lemma_push_contains(s: Seq<Coordinate>, d: Coordinate)
    ensures
        forall|c: Coordinate| #[trigger] s.push(d).contains(c) <==> (s.contains(c) || c == d),
{
    let t = s.push(d);
    assert forall|c: Coordinate| #[trigger] t.contains(c) implies (s.contains(c) || c == d) by {
        let i = choose|i: int| 0 <= i < t.len() && t[i] == c;
        if i < s.len() {
            assert(s[i] == c);
        }
    }
    assert forall|c: Coordinate| (s.contains(c) || c == d) implies #[trigger] t.contains(c) by {
        if s.contains(c) {
            let i = choose|i: int| 0 <= i < s.len() && s[i] == c;
            assert(t[i] == c);
        } else {
            assert(t[s.len() as int] == c);
        }
    }
}

/// Appending an item that a list of distinct items lacks keeps them
/// distinct.
pub proof fn lemma_push_distinct(s: Seq<Coordinate>, d: Coordinate)
    requires
        s.no_duplicates(),
        !s.contains(d),
    ensures
        s.push(d).no_duplicates(),
{
    let t = s.push(d);
    assert forall|a: int, b: int| 0 <= a < t.len() && 0 <= b < t.len() && a != b implies t[a]
        != t[b] by {
        if a < s.len() {
            assert(s.contains(t[a]));
        }
        if b < s.len() {
            assert(s.contains(t[b]));
        }
    }
}

/// Taking one item out of a list of distinct items, by moving the last
/// item into its place, keeps the other items and keeps them distinct.
pub proof fn lemma_swap_remove(s: Seq<Coordinate>, j: int)
    requires
        s.no_duplicates(),
        0 <= j < s.len(),
    ensures
        s.update(j, s.last()).drop_last().no_duplicates(),
        forall|c: Coordinate| #[trigger]
            s.update(j, s.last()).drop_last().contains(c) <==> (s.contains(c) && c != s[j]),
{
    let t = s.update(j, s.last()).drop_last();
    let last = s.len() - 1;
    assert forall|c: Coordinate| #[trigger] t.contains(c) implies (s.contains(c) && c != s[j]) by {
        let i = choose|i: int| 0 <= i < t.len() && t[i] == c;
        if i == j {
            assert(s[last] == c);
        } else {
            assert(s[i] == c);
        }
    }
    assert forall|c: Coordinate| (s.contains(c) && c != s[j]) implies #[trigger] t.contains(c) by {
        let i = choose|i: int| 0 <= i < s.len() && s[i] == c;
        if i == last {
            assert(t[j] == c);
        } else {
            assert(t[i] == c);
        }
    }
    assert forall|a: int, b: int| 0 <= a < t.len() && 0 <= b < t.len() && a != b implies t[a]
        != t[b] by {
        let sa = if a == j {
            last
        } else {
            a
        };
        let sb = if b == j {
            last
        } else {
            b
        };
        assert(t[a] == s[sa] && t[b] == s[sb]);
    }
}

} // verus!
