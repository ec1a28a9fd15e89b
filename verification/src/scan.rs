//! The bookkeeping behind the operations that sweep the whole grid.
//!
//! A generation is computed in two passes: the first scans the grid column
//! by column and lists the cells that must change, the second toggles the
//! listed cells. Seeding is one pass in the same order. The predicates here
//! say what holds part-way through a pass; the lemmas carry a pass one step
//! on and tie its end to the model's next generation or seeded grid.

use crate::grid::drawn;
use crate::grid::Grid;
use crate::wrap::lemma_cell_index_in_grid;
use crate::wrap::lemma_cell_index_joins;
use crate::wrap::lemma_cell_index_splits;
use crate::wrap::lemma_wrap_fixed;
use vstd::prelude::*;

verus! {

/// Cell `(a, b)` is reached before cell `(x, y)` by a scan that takes the
/// columns in order and goes down each column row by row.
pub open spec fn scan_before(a: int, b: int, x: int, y: int) -> bool {
    a < x || (a == x && b < y)
}

/// Cell `(a, b)` is one of the first `k` entries of the list.
pub open spec fn listed(found: Seq<(usize, usize)>, k: int, a: int, b: int) -> bool {
    exists|j: int|
        0 <= j < k && j < found.len() && (#[trigger] found[j]).0 == a && found[j].1 == b
}

/// The list holds, in scan order and each once, exactly those cells reached
/// before `(x, y)` that the next generation of `grid` changes.
pub open spec fn scanned(grid: Grid, found: Seq<(usize, usize)>, x: int, y: int) -> bool {
    &&& forall|k: int|
        #![trigger found[k]]
        0 <= k < found.len() ==> {
            &&& found[k].0 < grid.edge
            &&& found[k].1 < grid.edge
            &&& scan_before(found[k].0 as int, found[k].1 as int, x, y)
            &&& grid.must_flip(found[k].0 as int, found[k].1 as int)
        }
    &&& forall|j: int, k: int|
        #![trigger found[j], found[k]]
        0 <= j < k < found.len() ==> scan_before(
            found[j].0 as int,
            found[j].1 as int,
            found[k].0 as int,
            found[k].1 as int,
        )
    &&& forall|a: int, b: int|
        0 <= a < grid.edge && 0 <= b < grid.edge && scan_before(a, b, x, y)
            && #[trigger] grid.must_flip(a, b) ==> listed(found, found.len() as int, a, b)
}

/// `now` is `before` with the first `k` listed cells toggled.
pub open spec fn applied(before: Grid, now: Grid, found: Seq<(usize, usize)>, k: int) -> bool {
    &&& now.edge == before.edge
    &&& now.cells.len() == before.cells.len()
    &&& forall|a: int, b: int|
        0 <= a < before.edge && 0 <= b < before.edge ==> #[trigger] now.get(a, b) == (before.get(
            a,
            b,
        ) != listed(found, k, a, b))
}

/// The first pass, one cell on: having judged `(x, y)`, and listed it if it
/// must change, the list is right for the scan up to the cell below.
pub proof fn lemma_scan_step(
    grid: Grid,
    found: Seq<(usize, usize)>,
    x: usize,
    y: usize,
    changes: bool,
)
    requires
        scanned(grid, found, x as int, y as int),
        x < grid.edge,
        y < grid.edge,
        changes == grid.must_flip(x as int, y as int),
    ensures
        scanned(
            grid,
            if changes {
                found.push((x, y))
            } else {
                found
            },
            x as int,
            y + 1,
        ),
{
    let grown = if changes {
        found.push((x, y))
    } else {
        found
    };
    assert forall|a: int, b: int|
        0 <= a < grid.edge && 0 <= b < grid.edge && scan_before(a, b, x as int, y + 1)
            && #[trigger] grid.must_flip(a, b) implies listed(grown, grown.len() as int, a, b) by {
        if scan_before(a, b, x as int, y as int) {
            assert(listed(found, found.len() as int, a, b));
            let j = choose|j: int|
                0 <= j < found.len() && (#[trigger] found[j]).0 == a && found[j].1 == b;
            assert(grown[j] == found[j]);
        } else {
            assert(a == x && b == y);
            assert(grown[found.len() as int] == (x, y));
        }
    }
}

/// The first pass, one column on: a column scanned to its end is a scan up
/// to the top of the next column.
pub proof fn lemma_scan_next_column(grid: Grid, found: Seq<(usize, usize)>, x: int)
    requires
        scanned(grid, found, x, grid.edge as int),
    ensures
        scanned(grid, found, x + 1, 0),
{
}

/// The second pass, one cell on: toggling the next listed cell accounts for
/// one more entry of the list.
pub proof fn lemma_apply_step(before: Grid, now: Grid, found: Seq<(usize, usize)>, k: int)
    requires
        before.wf(),
        scanned(before, found, before.edge as int, 0),
        applied(before, now, found, k),
        0 <= k < found.len(),
    ensures
        applied(before, now.flip(found[k].0 as int, found[k].1 as int), found, k + 1),
{
    let edge = before.edge;
    let fx = found[k].0 as int;
    let fy = found[k].1 as int;
    let then = now.flip(fx, fy);
    lemma_wrap_fixed(fx, edge);
    lemma_wrap_fixed(fy, edge);
    lemma_cell_index_in_grid(fx, fy, edge);
    lemma_cell_index_splits(fx, fy, edge);
    assert forall|a: int, b: int| 0 <= a < edge && 0 <= b < edge implies #[trigger] then.get(a, b)
        == (before.get(a, b) != listed(found, k + 1, a, b)) by {
        lemma_wrap_fixed(a, edge);
        lemma_wrap_fixed(b, edge);
        lemma_cell_index_in_grid(a, b, edge);
        lemma_cell_index_splits(a, b, edge);
        assert(now.get(a, b) == (before.get(a, b) != listed(found, k, a, b)));
        if a == fx && b == fy {
            if listed(found, k, a, b) {
                let j = choose|j: int|
                    0 <= j < k && j < found.len() && (#[trigger] found[j]).0 == a && found[j].1
                        == b;
                assert(scan_before(
                    found[j].0 as int,
                    found[j].1 as int,
                    found[k].0 as int,
                    found[k].1 as int,
                ));
            }
            assert(found[k].0 == a && found[k].1 == b);
            assert(listed(found, k + 1, a, b));
        } else {
            assert(now.index(a, b) != now.index(fx, fy));
            if listed(found, k + 1, a, b) {
                let j = choose|j: int|
                    0 <= j < k + 1 && j < found.len() && (#[trigger] found[j]).0 == a
                        && found[j].1 == b;
                assert(j != k);
                assert(listed(found, k, a, b));
            }
            if listed(found, k, a, b) {
                let j = choose|j: int|
                    0 <= j < k && j < found.len() && (#[trigger] found[j]).0 == a && found[j].1
                        == b;
                assert(found[j].0 == a && found[j].1 == b);
                assert(listed(found, k + 1, a, b));
            }
        }
    }
}

/// The end of the second pass: with every listed cell toggled, the grid is
/// the next generation.
pub proof fn lemma_applied_all(before: Grid, now: Grid, found: Seq<(usize, usize)>)
    requires
        before.wf(),
        scanned(before, found, before.edge as int, 0),
        applied(before, now, found, found.len() as int),
    ensures
        now == before.tick(),
{
    let edge = before.edge;
    let next = before.tick();
    assert forall|i: int| 0 <= i < now.cells.len() implies now.cells[i] == next.cells[i] by {
        let a = i % (edge as int);
        let b = i / (edge as int);
        lemma_cell_index_joins(i, edge);
        lemma_wrap_fixed(a, edge);
        lemma_wrap_fixed(b, edge);
        assert(now.index(a, b) == i);
        assert(before.index(a, b) == i);
        assert(now.get(a, b) == (before.get(a, b) != listed(found, found.len() as int, a, b)));
        if listed(found, found.len() as int, a, b) {
            let j = choose|j: int|
                0 <= j < found.len() && (#[trigger] found[j]).0 == a && found[j].1 == b;
            assert(before.must_flip(found[j].0 as int, found[j].1 as int));
        }
        assert(listed(found, found.len() as int, a, b) == before.must_flip(a, b));
        assert(next.cells[i] == before.next_cell(i));
    }
    assert(now.cells =~= next.cells);
}

/// `now` is `before` seeded with the draws of the cells reached before
/// `(x, y)`.
pub open spec fn seeded_upto(before: Grid, now: Grid, draws: Seq<bool>, x: int, y: int) -> bool {
    &&& now.edge == before.edge
    &&& now.cells.len() == before.cells.len()
    &&& forall|a: int, b: int|
        0 <= a < before.edge && 0 <= b < before.edge ==> #[trigger] now.get(a, b) == (before.get(
            a,
            b,
        ) != (scan_before(a, b, x, y) && drawn(draws, a * before.edge + b)))
}

/// Seeding, one cell on: toggling `(x, y)` where its draw says so accounts
/// for the scan up to the cell below.
pub proof fn lemma_seed_step(before: Grid, now: Grid, draws: Seq<bool>, x: int, y: int)
    requires
        before.wf(),
        0 <= x < before.edge,
        0 <= y < before.edge,
        seeded_upto(before, now, draws, x, y),
    ensures
        seeded_upto(
            before,
            if drawn(draws, x * before.edge + y) {
                now.flip(x, y)
            } else {
                now
            },
            draws,
            x,
            y + 1,
        ),
{
    let edge = before.edge;
    let then = if drawn(draws, x * edge + y) {
        now.flip(x, y)
    } else {
        now
    };
    lemma_wrap_fixed(x, edge);
    lemma_wrap_fixed(y, edge);
    lemma_cell_index_in_grid(x, y, edge);
    lemma_cell_index_splits(x, y, edge);
    assert forall|a: int, b: int| 0 <= a < edge && 0 <= b < edge implies #[trigger] then.get(a, b)
        == (before.get(a, b) != (scan_before(a, b, x, y + 1) && drawn(draws, a * edge + b))) by {
        lemma_wrap_fixed(a, edge);
        lemma_wrap_fixed(b, edge);
        lemma_cell_index_in_grid(a, b, edge);
        lemma_cell_index_splits(a, b, edge);
        assert(now.get(a, b) == (before.get(a, b) != (scan_before(a, b, x, y) && drawn(
            draws,
            a * edge + b,
        ))));
        if !(a == x && b == y) {
            assert(now.index(a, b) != now.index(x, y));
        }
    }
}

/// The end of seeding: with every cell's draw applied, the grid is the
/// seeded grid of the model.
pub proof fn lemma_seed_done(before: Grid, now: Grid, draws: Seq<bool>)
    requires
        before.wf(),
        seeded_upto(before, now, draws, before.edge as int, 0),
    ensures
        now == before.seeded(draws),
{
    let edge = before.edge;
    let goal = before.seeded(draws);
    assert forall|i: int| 0 <= i < now.cells.len() implies now.cells[i] == goal.cells[i] by {
        let a = i % (edge as int);
        let b = i / (edge as int);
        lemma_cell_index_joins(i, edge);
        lemma_wrap_fixed(a, edge);
        lemma_wrap_fixed(b, edge);
        assert(now.index(a, b) == i);
        assert(before.index(a, b) == i);
        assert(now.get(a, b) == (before.get(a, b) != (scan_before(a, b, edge as int, 0) && drawn(
            draws,
            a * edge + b,
        ))));
    }
    assert(now.cells =~= goal.cells);
}

} // verus!
