//! Wrap-around arithmetic: how a coordinate on an unbounded axis folds onto
//! an axis of `edge` cells, and how a pair of folded coordinates addresses a
//! cell in row-major order.

use vstd::arithmetic::div_mod::lemma_add_mod_noop_right;
use vstd::arithmetic::div_mod::lemma_fundamental_div_mod;
use vstd::arithmetic::div_mod::lemma_fundamental_div_mod_converse;
use vstd::arithmetic::div_mod::lemma_mod_bound;
use vstd::arithmetic::div_mod::lemma_mod_multiples_vanish;
use vstd::arithmetic::div_mod::lemma_small_mod;
use vstd::prelude::*;

verus! {

/// The cell of an axis of `edge` cells on which coordinate `c` falls. The
/// remainder is the non-negative one, so coordinates below zero fold back
/// from the far end.
pub open spec fn wrap(c: int, edge: nat) -> int {
    c % (edge as int)
}

/// The row-major address of the cell in column `x` of row `y`, both already
/// on the axis.
pub open spec fn cell_index(x: int, y: int, edge: nat) -> int {
    edge * y + x
}

/// A folded coordinate lies on the axis.
pub proof fn lemma_wrap_on_axis(c: int, edge: nat)
    requires
        edge >= 1,
    ensures
        0 <= wrap(c, edge) < edge,
{
    lemma_mod_bound(c, edge as int);
}

/// A coordinate already on the axis folds to itself.
pub proof fn lemma_wrap_fixed(c: int, edge: nat)
    requires
        0 <= c < edge,
    ensures
        wrap(c, edge) == c,
{
    lemma_small_mod(c as nat, edge);
}

/// Going round the axis any number of times, either way, changes nothing.
pub proof fn lemma_wrap_turns(c: int, turns: int, edge: nat)
    requires
        edge >= 1,
    ensures
        wrap(c + turns * edge, edge) == wrap(c, edge),
{
    lemma_mod_multiples_vanish(turns, c, edge as int);
    assert(turns * edge == edge * turns) by (nonlinear_arith);
}

/// Folding before a step gives the same cell as folding after it.
pub proof fn lemma_wrap_step(c: int, step: int, edge: nat)
    requires
        edge >= 1,
    ensures
        wrap(wrap(c, edge) + step, edge) == wrap(c + step, edge),
{
    lemma_add_mod_noop_right(step, c, edge as int);
}

/// Every pair of on-axis coordinates addresses a cell of the grid.
pub proof fn lemma_cell_index_in_grid(x: int, y: int, edge: nat)
    requires
        0 <= x < edge,
        0 <= y < edge,
    ensures
        0 <= cell_index(x, y, edge) < edge * edge,
{
    assert(0 <= edge * y && edge * y + edge <= edge * edge) by (nonlinear_arith)
        requires
            0 <= y < edge,
    ;
}

/// The address determines the coordinates: column is the remainder and row
/// the quotient by `edge`.
pub proof fn lemma_cell_index_splits(x: int, y: int, edge: nat)
    requires
        0 <= x < edge,
    ensures
        cell_index(x, y, edge) % (edge as int) == x,
        cell_index(x, y, edge) / (edge as int) == y,
{
    assert(edge * y == y * edge) by (nonlinear_arith);
    lemma_fundamental_div_mod_converse(cell_index(x, y, edge), edge as int, y, x);
}

/// Every address of the grid comes from exactly the pair of its remainder
/// and quotient, and both lie on the axis.
pub proof fn lemma_cell_index_joins(i: int, edge: nat)
    requires
        0 <= i < edge * edge,
    ensures
        0 <= i % (edge as int) < edge,
        0 <= i / (edge as int) < edge,
        cell_index(i % (edge as int), i / (edge as int), edge) == i,
{
    let e = edge as int;
    assert(e >= 1) by (nonlinear_arith)
        requires
            0 <= i < e * e,
            e >= 0,
    ;
    lemma_fundamental_div_mod(i, e);
    lemma_mod_bound(i, e);
    let q = i / e;
    assert(0 <= q < e) by (nonlinear_arith)
        requires
            0 <= i < e * e,
            e >= 1,
            i == e * q + i % e,
            0 <= i % e < e,
    ;
}

} // verus!
