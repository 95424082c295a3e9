//! Walks over a set of open cells, stepping between 4-adjacent cells.
//!
//! Dungeon connectivity and the cost field are both stated in these terms.

use vstd::prelude::*;

verus! {

/// A cell as a pair `(x, y)` of mathematical integers.
pub type Cell = (int, int);

/// The two cells share an edge.
pub open spec fn adjacent(a: Cell, b: Cell) -> bool {
    ||| (a.0 == b.0 && (a.1 == b.1 + 1 || a.1 + 1 == b.1))
    ||| (a.1 == b.1 && (a.0 == b.0 + 1 || a.0 + 1 == b.0))
}

/// `p` is a non-empty sequence of open cells in which each cell is adjacent
/// to the next.
pub open spec fn is_walk(open: Set<Cell>, p: Seq<Cell>) -> bool {
    &&& p.len() > 0
    &&& forall|i: int| 0 <= i < p.len() ==> open.contains(#[trigger] p[i])
    &&& forall|i: int| 0 <= i < p.len() - 1 ==> adjacent(#[trigger] p[i], p[i + 1])
}

/// `p` is a walk that starts at `a` and ends at `b`.
pub open spec fn walk_between(open: Set<Cell>, a: Cell, b: Cell, p: Seq<Cell>) -> bool {
    is_walk(open, p) && p[0] == a && p[p.len() - 1] == b
}

/// Some walk leads from `a` to `b`.
pub open spec fn joined(open: Set<Cell>, a: Cell, b: Cell) -> bool {
    exists|p: Seq<Cell>| #[trigger] walk_between(open, a, b, p)
}

/// An open cell is joined to itself.
pub proof fn lemma_joined_self(open: Set<Cell>, a: Cell)
    requires
        open.contains(a),
    ensures
        joined(open, a, a),
{
    let p = seq![a];
    assert(walk_between(open, a, a, p));
}

/// A walk can be extended by one step to an adjacent open cell.
pub proof fn lemma_walk_push(open: Set<Cell>, a: Cell, b: Cell, c: Cell, p: Seq<Cell>)
    requires
        walk_between(open, a, b, p),
        adjacent(b, c),
        open.contains(c),
    ensures
        walk_between(open, a, c, p.push(c)),
{
}

/// Joined cells stay joined after one more step.
pub proof fn lemma_joined_step(open: Set<Cell>, a: Cell, b: Cell, c: Cell)
    requires
        joined(open, a, b),
        adjacent(b, c),
        open.contains(c),
    ensures
        joined(open, a, c),
{
    let p = choose|p: Seq<Cell>| #[trigger] walk_between(open, a, b, p);
    lemma_walk_push(open, a, b, c, p);
}

/// Walks compose: the second continues where the first ends.
pub proof fn lemma_walk_concat(open: Set<Cell>, a: Cell, b: Cell, c: Cell, p: Seq<Cell>, q: Seq<Cell>)
    requires
        walk_between(open, a, b, p),
        walk_between(open, b, c, q),
    ensures
        walk_between(open, a, c, p + q.subrange(1, q.len() as int)),
        (p + q.subrange(1, q.len() as int)).len() == p.len() + q.len() - 1,
{
}

/// Being joined is transitive.
pub proof fn lemma_joined_trans(open: Set<Cell>, a: Cell, b: Cell, c: Cell)
    requires
        joined(open, a, b),
        joined(open, b, c),
    ensures
        joined(open, a, c),
{
    let p = choose|p: Seq<Cell>| #[trigger] walk_between(open, a, b, p);
    let q = choose|q: Seq<Cell>| #[trigger] walk_between(open, b, c, q);
    lemma_walk_concat(open, a, b, c, p, q);
}

/// Opening more cells keeps every walk.
pub proof fn lemma_joined_grow(open: Set<Cell>, more: Set<Cell>, a: Cell, b: Cell)
    requires
        joined(open, a, b),
        open.subset_of(more),
    ensures
        joined(more, a, b),
{
    let p = choose|p: Seq<Cell>| #[trigger] walk_between(open, a, b, p);
    assert(walk_between(more, a, b, p));
}

/// A fully open horizontal run joins its two ends.
pub proof fn lemma_joined_row(open: Set<Cell>, xa: int, xb: int, y: int)
    requires
        forall|x: int|
            (xa <= x <= xb || xb <= x <= xa) ==> open.contains(#[trigger] cell_at(x, y)),
    ensures
        joined(open, (xa, y), (xb, y)),
    decreases (if xa <= xb { xb - xa } else { xa - xb }),
{
    assert(open.contains(cell_at(xa, y)));
    if xa == xb {
        lemma_joined_self(open, (xa, y));
    } else {
        let prev = if xa < xb { xb - 1 } else { xb + 1 };
        lemma_joined_row(open, xa, prev, y);
        assert(open.contains(cell_at(xb, y)));
        lemma_joined_step(open, (xa, y), (prev, y), (xb, y));
    }
}

/// A fully open vertical run joins its two ends.
pub proof fn lemma_joined_column(open: Set<Cell>, x: int, ya: int, yb: int)
    requires
        forall|y: int|
            (ya <= y <= yb || yb <= y <= ya) ==> open.contains(#[trigger] cell_at(x, y)),
    ensures
        joined(open, (x, ya), (x, yb)),
    decreases (if ya <= yb { yb - ya } else { ya - yb }),
{
    assert(open.contains(cell_at(x, ya)));
    if ya == yb {
        lemma_joined_self(open, (x, ya));
    } else {
        let prev = if ya < yb { yb - 1 } else { yb + 1 };
        lemma_joined_column(open, x, ya, prev);
        assert(open.contains(cell_at(x, yb)));
        lemma_joined_step(open, (x, ya), (x, prev), (x, yb));
    }
}

/// The cell with the given coordinates.
pub open spec fn cell_at(x: int, y: int) -> Cell {
    (x, y)
}

/// Some walk of at most `steps` steps leads from `a` to `b`.
#[verifier::opaque]
pub open spec fn within(open: Set<Cell>, a: Cell, b: Cell, steps: nat) -> bool {
    exists|p: Seq<Cell>| #[trigger] walk_between(open, a, b, p) && p.len() <= steps + 1
}

/// `steps` is the length of a shortest walk from `a` to `b`.
pub open spec fn shortest(open: Set<Cell>, a: Cell, b: Cell, steps: nat) -> bool {
    within(open, a, b, steps) && (steps > 0 ==> !within(open, a, b, (steps - 1) as nat))
}

/// The length of a shortest walk from `a` to `b`, where there is a walk.
pub open spec fn steps_to(open: Set<Cell>, a: Cell, b: Cell) -> nat {
    choose|n: nat| shortest(open, a, b, n)
}

/// A walk of `p.len() - 1` steps shows that its end lies within that many
/// steps of its start.
pub proof fn lemma_within_walk(open: Set<Cell>, a: Cell, b: Cell, p: Seq<Cell>, steps: nat)
    requires
        walk_between(open, a, b, p),
        p.len() <= steps + 1,
    ensures
        within(open, a, b, steps),
{
    reveal(within);
}

/// The walk behind `within`.
pub proof fn lemma_within_witness(open: Set<Cell>, a: Cell, b: Cell, steps: nat) -> (p: Seq<Cell>)
    requires
        within(open, a, b, steps),
    ensures
        walk_between(open, a, b, p),
        p.len() <= steps + 1,
{
    reveal(within);
    choose|p: Seq<Cell>| #[trigger] walk_between(open, a, b, p) && p.len() <= steps + 1
}

/// Only the start lies within zero steps of the start.
pub proof fn lemma_within_zero(open: Set<Cell>, a: Cell, b: Cell)
    ensures
        within(open, a, b, 0) <==> (a == b && open.contains(a)),
{
    if within(open, a, b, 0) {
        lemma_within_witness(open, a, b, 0);
    }
    if a == b && open.contains(a) {
        lemma_within_walk(open, a, a, seq![a], 0);
    }
}

/// More steps reach at least as far.
pub proof fn lemma_within_more(open: Set<Cell>, a: Cell, b: Cell, steps: nat, more: nat)
    requires
        within(open, a, b, steps),
        steps <= more,
    ensures
        within(open, a, b, more),
{
    let p = lemma_within_witness(open, a, b, steps);
    lemma_within_walk(open, a, b, p, more);
}

/// One more step reaches every open neighbour.
pub proof fn lemma_within_step(open: Set<Cell>, a: Cell, b: Cell, c: Cell, steps: nat)
    requires
        within(open, a, b, steps),
        adjacent(b, c),
        open.contains(c),
    ensures
        within(open, a, c, steps + 1),
{
    let p = lemma_within_witness(open, a, b, steps);
    lemma_within_walk(open, a, c, p.push(c), steps + 1);
}

/// A cell that takes exactly `steps + 1` steps to reach has a neighbour that
/// takes exactly `steps`.
pub proof fn lemma_within_back(open: Set<Cell>, a: Cell, c: Cell, steps: nat) -> (b: Cell)
    requires
        within(open, a, c, steps + 1),
        !within(open, a, c, steps),
    ensures
        adjacent(b, c),
        open.contains(b),
        open.contains(c),
        shortest(open, a, b, steps),
{
    let p = lemma_within_witness(open, a, c, steps + 1);
    if p.len() <= steps + 1 {
        lemma_within_walk(open, a, c, p, steps);
    }
    let b = p[p.len() - 2];
    lemma_within_walk(open, a, b, p.subrange(0, p.len() - 1), steps);
    if steps > 0 && within(open, a, b, (steps - 1) as nat) {
        lemma_within_step(open, a, b, c, (steps - 1) as nat);
    }
    b
}

/// The length of a shortest walk is unique, and `steps_to` names it.
pub proof fn lemma_shortest_unique(open: Set<Cell>, a: Cell, b: Cell, n: nat)
    requires
        shortest(open, a, b, n),
    ensures
        steps_to(open, a, b) == n,
{
    let m = steps_to(open, a, b);
    if m < n {
        lemma_within_more(open, a, b, m, (n - 1) as nat);
    }
    if n < m {
        lemma_within_more(open, a, b, n, (m - 1) as nat);
    }
}

/// Along a shortest walk every cell is reached in as few steps as possible:
/// the cell at place `i` is exactly `i` steps from the start.
pub proof fn lemma_shortest_walk(open: Set<Cell>, a: Cell, b: Cell, p: Seq<Cell>, i: int)
    requires
        walk_between(open, a, b, p),
        shortest(open, a, b, (p.len() - 1) as nat),
        0 <= i < p.len(),
    ensures
        shortest(open, a, p[i], i as nat),
{
    lemma_within_walk(open, a, p[i], p.subrange(0, i + 1), i as nat);
    if i > 0 && within(open, a, p[i], (i - 1) as nat) {
        let q = lemma_within_witness(open, a, p[i], (i - 1) as nat);
        let rest = p.subrange(i, p.len() as int);
        let r = q + rest.subrange(1, rest.len() as int);
        lemma_within_walk(open, a, b, r, (p.len() - 2) as nat);
    }
}

} // verus!
