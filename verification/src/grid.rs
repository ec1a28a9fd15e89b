//! The mathematical model of a universe: a square of cells on a torus, and
//! what a generation does to it. Everything here is specification; the
//! executable universe is stated against it.

use crate::wrap::cell_index;
use crate::wrap::wrap;
use vstd::prelude::*;

verus! {

/// A square grid of `edge` by `edge` cells, stored row by row. A cell is
/// alive where `cells` holds `true` and dead where it holds `false`.
pub struct Grid {
    pub edge: nat,
    pub cells: Seq<bool>,
}

/// What one cell adds to a count of live cells.
pub open spec fn census(alive: bool) -> nat {
    if alive {
        1
    } else {
        0
    }
}

/// The transition rule: a live cell stays alive with two or three live
/// neighbours, a dead cell comes alive with exactly three, and every other
/// cell is dead in the next generation.
pub open spec fn next_state(alive: bool, live_neighbours: nat) -> bool {
    if alive {
        live_neighbours == 2 || live_neighbours == 3
    } else {
        live_neighbours == 3
    }
}

/// Whether draw number `n` of a list says to toggle: it does where the list
/// reaches that far and holds `true` there.
pub open spec fn drawn(draws: Seq<bool>, n: int) -> bool {
    0 <= n < draws.len() && draws[n]
}

/// A list of cell coordinates as mathematical integers.
pub open spec fn coordinates(cells: Seq<(usize, usize)>) -> Seq<(int, int)> {
    Seq::new(cells.len(), |k: int| (cells[k].0 as int, cells[k].1 as int))
}

impl Grid {
    /// The grid of the given edge with every cell dead.
    pub open spec fn dead(edge: nat) -> Grid {
        Grid { edge, cells: Seq::new(edge * edge, |i: int| false) }
    }

    /// A grid has at least one cell, and exactly `edge * edge` of them.
    pub open spec fn wf(self) -> bool {
        &&& self.edge >= 1
        &&& self.cells.len() == self.edge * self.edge
    }

    /// The address of the cell on which the coordinates fall once each is
    /// folded onto the grid.
    pub open spec fn index(self, x: int, y: int) -> int {
        cell_index(wrap(x, self.edge), wrap(y, self.edge), self.edge)
    }

    /// The state of the cell on which the coordinates fall.
    pub open spec fn get(self, x: int, y: int) -> bool {
        self.cells[self.index(x, y)]
    }

    /// The grid with the cell on which the coordinates fall toggled and
    /// every other cell as it was.
    pub open spec fn flip(self, x: int, y: int) -> Grid {
        Grid { edge: self.edge, cells: self.cells.update(self.index(x, y), !self.get(x, y)) }
    }

    /// The eight cells around a cell, each folded onto the grid: the row
    /// above from left to right, then left and right in the same row, then
    /// the row below from left to right.
    pub open spec fn neighbours(self, x: int, y: int) -> Seq<(int, int)> {
        let left = wrap(x - 1, self.edge);
        let mid = wrap(x, self.edge);
        let right = wrap(x + 1, self.edge);
        let above = wrap(y - 1, self.edge);
        let level = wrap(y, self.edge);
        let below = wrap(y + 1, self.edge);
        seq![
            (left, above),
            (mid, above),
            (right, above),
            (left, level),
            (right, level),
            (left, below),
            (mid, below),
            (right, below),
        ]
    }

    /// How many of the listed cells are alive, a cell counting once for each
    /// time it is listed.
    pub open spec fn live_among(self, coords: Seq<(int, int)>) -> nat
        decreases coords.len(),
    {
        if coords.len() == 0 {
            0
        } else {
            self.live_among(coords.drop_last()) + census(
                self.get(coords.last().0, coords.last().1),
            )
        }
    }

    /// How many of the eight cells around a cell are alive.
    pub open spec fn live_neighbours(self, x: int, y: int) -> nat {
        self.live_among(self.neighbours(x, y))
    }

    /// Whether the next generation changes the cell on which the
    /// coordinates fall.
    pub open spec fn must_flip(self, x: int, y: int) -> bool {
        next_state(self.get(x, y), self.live_neighbours(x, y)) != self.get(x, y)
    }

    /// The state, in the next generation, of the cell stored at address `i`.
    pub open spec fn next_cell(self, i: int) -> bool {
        let x = i % (self.edge as int);
        let y = i / (self.edge as int);
        next_state(self.cells[i], self.live_neighbours(x, y))
    }

    /// The next generation: every cell follows the transition rule, each
    /// judged by its neighbours in this generation.
    pub open spec fn tick(self) -> Grid {
        Grid { edge: self.edge, cells: Seq::new(self.cells.len(), |i: int| self.next_cell(i)) }
    }

    /// The grid seeded from a list of draws. The draws are taken in scan
    /// order, column by column and down each column, so that the draw for
    /// the cell in column `x` of row `y` is number `x * edge + y`. A cell
    /// is toggled where its draw is `true`; a cell whose draw the list does
    /// not reach is left as it is.
    pub open spec fn seeded(self, draws: Seq<bool>) -> Grid {
        Grid {
            edge: self.edge,
            cells: Seq::new(
                self.cells.len(),
                |i: int|
                    {
                        let x = i % (self.edge as int);
                        let y = i / (self.edge as int);
                        self.cells[i] != drawn(draws, x * self.edge + y)
                    },
            ),
        }
    }

    /// The grid after `n` generations.
    pub open spec fn ticks(self, n: nat) -> Grid
        decreases n,
    {
        if n == 0 {
            self
        } else {
            self.ticks((n - 1) as nat).tick()
        }
    }
}

} // verus!
