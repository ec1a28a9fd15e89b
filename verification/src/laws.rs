//! What holds of every grid: facts about addressing, toggling, counting and
//! the generation step, each proved from the model's definitions.

use crate::grid::census;
use crate::grid::Grid;
use crate::grid::next_state;
use crate::wrap::lemma_cell_index_in_grid;
use crate::wrap::lemma_cell_index_joins;
use crate::wrap::lemma_cell_index_splits;
use crate::wrap::lemma_wrap_fixed;
use crate::wrap::lemma_wrap_on_axis;
use crate::wrap::lemma_wrap_step;
use crate::wrap::lemma_wrap_turns;
use crate::wrap::wrap;
use vstd::prelude::*;

verus! {

/// Wrap invariance: moving a coordinate by any whole number of edges, in
/// either direction and on either axis, addresses the same cell.
pub proof fn lemma_index_wrap_invariant(grid: Grid, x: int, y: int, k: int, m: int)
    requires
        grid.wf(),
    ensures
        grid.index(x, y) == grid.index(x + k * grid.edge, y + m * grid.edge),
{
    lemma_wrap_turns(x, k, grid.edge);
    lemma_wrap_turns(y, m, grid.edge);
}

/// Every pair of coordinates addresses a cell of the grid.
pub proof fn lemma_index_in_grid(grid: Grid, x: int, y: int)
    requires
        grid.wf(),
    ensures
        0 <= grid.index(x, y) < grid.cells.len(),
        grid.index(x, y) % (grid.edge as int) == wrap(x, grid.edge),
        grid.index(x, y) / (grid.edge as int) == wrap(y, grid.edge),
{
    lemma_wrap_on_axis(x, grid.edge);
    lemma_wrap_on_axis(y, grid.edge);
    lemma_cell_index_in_grid(wrap(x, grid.edge), wrap(y, grid.edge), grid.edge);
    lemma_cell_index_splits(wrap(x, grid.edge), wrap(y, grid.edge), grid.edge);
}

/// Coordinates that fall on the same column and row hold the same cell.
pub proof fn lemma_get_wraps(grid: Grid, x: int, y: int)
    requires
        grid.wf(),
    ensures
        grid.get(wrap(x, grid.edge), wrap(y, grid.edge)) == grid.get(x, y),
        grid.index(wrap(x, grid.edge), wrap(y, grid.edge)) == grid.index(x, y),
{
    lemma_wrap_on_axis(x, grid.edge);
    lemma_wrap_on_axis(y, grid.edge);
    lemma_wrap_fixed(wrap(x, grid.edge), grid.edge);
    lemma_wrap_fixed(wrap(y, grid.edge), grid.edge);
}

/// Toggling is its own inverse: toggling the same cell twice gives back the
/// grid as it was.
pub proof fn lemma_flip_twice_restores(grid: Grid, x: int, y: int)
    requires
        grid.wf(),
    ensures
        grid.flip(x, y).flip(x, y) == grid,
{
    lemma_index_in_grid(grid, x, y);
    assert(grid.flip(x, y).flip(x, y).cells =~= grid.cells);
}

/// Toggling changes the addressed cell and no other.
pub proof fn lemma_flip_changes_one_cell(grid: Grid, x: int, y: int, a: int, b: int)
    requires
        grid.wf(),
    ensures
        grid.flip(x, y).wf(),
        grid.flip(x, y).get(a, b) == if grid.index(a, b) == grid.index(x, y) {
            !grid.get(a, b)
        } else {
            grid.get(a, b)
        },
{
    lemma_index_in_grid(grid, x, y);
    lemma_index_in_grid(grid, a, b);
}

/// Counting one cell further down a list adds that cell's state to the
/// count.
pub proof fn lemma_live_among_next(grid: Grid, coords: Seq<(int, int)>, k: int)
    requires
        0 < k <= coords.len(),
    ensures
        grid.live_among(coords.take(k)) == grid.live_among(coords.take(k - 1)) + census(
            grid.get(coords[k - 1].0, coords[k - 1].1),
        ),
{
    assert(coords.take(k).drop_last() =~= coords.take(k - 1));
}

/// The count of live neighbours is the sum, over the eight cells around a
/// cell, of one for each that is alive.
pub proof fn lemma_live_neighbours_sum(grid: Grid, x: int, y: int)
    requires
        grid.wf(),
    ensures
        grid.live_neighbours(x, y) == census(grid.get(x - 1, y - 1)) + census(grid.get(x, y - 1))
            + census(grid.get(x + 1, y - 1)) + census(grid.get(x - 1, y)) + census(
            grid.get(x + 1, y),
        ) + census(grid.get(x - 1, y + 1)) + census(grid.get(x, y + 1)) + census(
            grid.get(x + 1, y + 1),
        ),
{
    let around = grid.neighbours(x, y);
    assert(around.len() == 8);
    assert(around.take(8) =~= around);
    assert(grid.live_among(around.take(0)) == 0);
    lemma_live_among_next(grid, around, 1);
    lemma_live_among_next(grid, around, 2);
    lemma_live_among_next(grid, around, 3);
    lemma_live_among_next(grid, around, 4);
    lemma_live_among_next(grid, around, 5);
    lemma_live_among_next(grid, around, 6);
    lemma_live_among_next(grid, around, 7);
    lemma_live_among_next(grid, around, 8);
    lemma_get_wraps(grid, x - 1, y - 1);
    lemma_get_wraps(grid, x, y - 1);
    lemma_get_wraps(grid, x + 1, y - 1);
    lemma_get_wraps(grid, x - 1, y);
    lemma_get_wraps(grid, x + 1, y);
    lemma_get_wraps(grid, x - 1, y + 1);
    lemma_get_wraps(grid, x, y + 1);
    lemma_get_wraps(grid, x + 1, y + 1);
}

/// No cell has more than eight live neighbours.
pub proof fn lemma_live_neighbours_at_most_eight(grid: Grid, x: int, y: int)
    requires
        grid.wf(),
    ensures
        grid.live_neighbours(x, y) <= 8,
{
    lemma_live_neighbours_sum(grid, x, y);
}

/// Coordinates that fall on the same column and row have the same cells
/// around them.
pub proof fn lemma_neighbours_wrap(grid: Grid, x: int, y: int)
    requires
        grid.wf(),
    ensures
        grid.neighbours(wrap(x, grid.edge), wrap(y, grid.edge)) == grid.neighbours(x, y),
{
    let e = grid.edge;
    lemma_wrap_step(x, -1, e);
    lemma_wrap_step(x, 0, e);
    lemma_wrap_step(x, 1, e);
    lemma_wrap_step(y, -1, e);
    lemma_wrap_step(y, 0, e);
    lemma_wrap_step(y, 1, e);
    assert(grid.neighbours(wrap(x, e), wrap(y, e)) =~= grid.neighbours(x, y));
}

/// The generation step, cell by cell: the next state of the cell on which
/// `(x, y)` falls follows the transition rule from its present state and its
/// present count of live neighbours. The step keeps the grid's size.
pub proof fn lemma_tick_cell(grid: Grid, x: int, y: int)
    requires
        grid.wf(),
    ensures
        grid.tick().wf(),
        grid.tick().edge == grid.edge,
        grid.tick().get(x, y) == next_state(grid.get(x, y), grid.live_neighbours(x, y)),
{
    lemma_index_in_grid(grid, x, y);
    lemma_neighbours_wrap(grid, x, y);
}

/// Isolated-cell extinction: a live cell with no live neighbour is dead in
/// the next generation.
pub proof fn lemma_isolated_cell_dies(grid: Grid, x: int, y: int)
    requires
        grid.wf(),
        grid.get(x, y),
        grid.live_neighbours(x, y) == 0,
    ensures
        !grid.tick().get(x, y),
{
    lemma_tick_cell(grid, x, y);
}

/// On an axis of `edge` cells, `c` falls on one of the two cells that start
/// at `c0`: on `c0` itself or on the cell after it.
pub open spec fn in_pair(c: int, c0: int, edge: nat) -> bool {
    wrap(c - c0, edge) < 2
}

/// The grid holds a two-by-two block of live cells whose first corner is the
/// cell on which `(x0, y0)` falls, and no other live cell.
pub open spec fn is_block(grid: Grid, x0: int, y0: int) -> bool {
    forall|x: int, y: int|
        0 <= x < grid.edge && 0 <= y < grid.edge ==> #[trigger] grid.get(x, y) == (in_pair(
            x,
            x0,
            grid.edge,
        ) && in_pair(y, y0, grid.edge))
}

/// Of three cells in a row on an axis of at least four cells: where the
/// middle one lies in the pair, exactly one of the outer two does; where it
/// does not, at most one of them does.
proof fn lemma_pair_among_three(c: int, c0: int, edge: nat)
    requires
        edge >= 4,
    ensures
        in_pair(c, c0, edge) ==> in_pair(c - 1, c0, edge) != in_pair(c + 1, c0, edge),
        !in_pair(c, c0, edge) ==> !(in_pair(c - 1, c0, edge) && in_pair(c + 1, c0, edge)),
{
    let d = wrap(c - c0, edge);
    lemma_wrap_on_axis(c - c0, edge);
    lemma_wrap_step(c - c0, -1, edge);
    lemma_wrap_step(c - c0, 1, edge);
    assert(c - 1 - c0 == (c - c0) + (-1));
    assert(c + 1 - c0 == (c - c0) + 1);
    if d >= 1 {
        lemma_wrap_fixed(d - 1, edge);
    } else {
        lemma_wrap_turns(-1, 1, edge);
        lemma_wrap_fixed(edge - 1, edge);
    }
    if d + 1 < edge {
        lemma_wrap_fixed(d + 1, edge);
    } else {
        lemma_wrap_turns(0, 1, edge);
        lemma_wrap_fixed(0, edge);
    }
}

/// In a grid that holds a block, a cell is alive exactly where both its
/// coordinates fall in the block's pair, whatever the coordinates.
proof fn lemma_block_cell(grid: Grid, x0: int, y0: int, x: int, y: int)
    requires
        grid.wf(),
        is_block(grid, x0, y0),
    ensures
        grid.get(x, y) == (in_pair(x, x0, grid.edge) && in_pair(y, y0, grid.edge)),
{
    let e = grid.edge;
    lemma_get_wraps(grid, x, y);
    lemma_wrap_on_axis(x, e);
    lemma_wrap_on_axis(y, e);
    lemma_wrap_step(x, -x0, e);
    lemma_wrap_step(y, -y0, e);
    assert(grid.get(wrap(x, e), wrap(y, e)) == (in_pair(wrap(x, e), x0, e) && in_pair(
        wrap(y, e),
        y0,
        e,
    )));
}

/// A block on a grid of edge four or more is the same in the next
/// generation.
pub proof fn lemma_block_survives_tick(grid: Grid, x0: int, y0: int)
    requires
        grid.wf(),
        grid.edge >= 4,
        is_block(grid, x0, y0),
    ensures
        grid.tick() == grid,
{
    let e = grid.edge;
    assert forall|i: int| 0 <= i < grid.cells.len() implies grid.tick().cells[i]
        == grid.cells[i] by {
        let x = i % (e as int);
        let y = i / (e as int);
        lemma_cell_index_joins(i, e);
        lemma_wrap_fixed(x, e);
        lemma_wrap_fixed(y, e);
        assert(grid.index(x, y) == i);
        lemma_live_neighbours_sum(grid, x, y);
        lemma_block_cell(grid, x0, y0, x - 1, y - 1);
        lemma_block_cell(grid, x0, y0, x, y - 1);
        lemma_block_cell(grid, x0, y0, x + 1, y - 1);
        lemma_block_cell(grid, x0, y0, x - 1, y);
        lemma_block_cell(grid, x0, y0, x, y);
        lemma_block_cell(grid, x0, y0, x + 1, y);
        lemma_block_cell(grid, x0, y0, x - 1, y + 1);
        lemma_block_cell(grid, x0, y0, x, y + 1);
        lemma_block_cell(grid, x0, y0, x + 1, y + 1);
        lemma_pair_among_three(x, x0, e);
        lemma_pair_among_three(y, y0, e);
    }
    assert(grid.tick().cells =~= grid.cells);
}

/// Block stability: a two-by-two block of live cells, alone on a grid of
/// edge four or more, is unchanged after any number of generations.
pub proof fn lemma_block_is_stable(grid: Grid, x0: int, y0: int, n: nat)
    requires
        grid.wf(),
        grid.edge >= 4,
        is_block(grid, x0, y0),
    ensures
        grid.ticks(n) == grid,
    decreases n,
{
    if n > 0 {
        lemma_block_is_stable(grid, x0, y0, (n - 1) as nat);
        lemma_block_survives_tick(grid, x0, y0);
    }
}

} // verus!
