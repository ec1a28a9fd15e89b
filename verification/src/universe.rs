//! The executable universe: a square of cells packed into a bit-vector, with
//! wrap-around addressing, single-cell operations and the generation step.

use crate::bits::all_clear;
use crate::bits::bit_at;
use crate::bits::bit_count;
use crate::bits::bits_of;
use crate::bits::head_of;
use crate::bits::max_bits;
use crate::bits::PackedBits;
use crate::bits::set_bit;
use crate::bits::storage_words;
use crate::bits::word_bit;
use crate::grid::coordinates;
use crate::grid::Grid;
use crate::grid::next_state;
use crate::render::lemma_render_cell;
use crate::scan::applied;
use crate::scan::lemma_applied_all;
use crate::scan::lemma_apply_step;
use crate::scan::lemma_scan_next_column;
use crate::scan::lemma_scan_step;
use crate::scan::lemma_seed_done;
use crate::scan::lemma_seed_step;
use crate::scan::scanned;
use crate::scan::seeded_upto;
use crate::wrap::lemma_cell_index_in_grid;
use crate::wrap::lemma_wrap_on_axis;
use crate::wrap::lemma_wrap_step;
use crate::wrap::lemma_wrap_turns;
use vstd::prelude::*;

verus! {

/// Why a universe could not be built.
#[derive(Debug, Clone, Copy, PartialEq, Eq)]
pub enum BuildError {
    /// The edge was zero: such a grid has no cell to address.
    ZeroEdge,
    /// The grid would hold more cells than the cell store can address.
    TooLarge,
}

/// The transition rule for one cell, from its state and the number of live
/// cells around it: a live cell survives with two or three live neighbours,
/// a dead cell is born with exactly three, and any other cell is dead in the
/// next generation.
pub fn next_cell_state(alive: bool, live_neighbours: u8) -> (next: bool)
    ensures
        next == next_state(alive, live_neighbours as nat),
{
    match (alive, live_neighbours) {
        (true, 2) => true,
        (true, 3) => true,
        (true, _) => false,
        (false, 3) => true,
        (false, _) => false,
    }
}

/// A square universe of cells whose edges wrap around: the last column is
/// next to the first, and the last row next to the first.
pub struct Universe {
    edge_size: usize,
    cells: PackedBits,
}

impl View for Universe {
    type V = Grid;

    closed spec fn view(&self) -> Grid {
        Grid { edge: self.edge_size as nat, cells: bits_of(self.cells) }
    }
}

impl Universe {
    /// The cell store begins at the front of its first storage word.
    pub closed spec fn word_aligned(&self) -> bool {
        head_of(self.cells) == 0
    }

    /// What every universe satisfies from construction on: it is a grid of
    /// `edge * edge` cells with `edge >= 1`, small enough for the cell store,
    /// laid out from the front of the store's first word.
    pub open spec fn wf(&self) -> bool {
        &&& self@.wf()
        &&& self@.cells.len() <= max_bits()
        &&& self.word_aligned()
    }

    /// Builds a universe of `edge_size` by `edge_size` cells, all dead.
    ///
    /// An edge of zero is refused, and so is an edge whose square exceeds
    /// what the cell store can address.
    pub fn build_universe(edge_size: usize) -> (built: Result<Universe, BuildError>)
        ensures
            match built {
                Ok(universe) => {
                    &&& edge_size >= 1
                    &&& edge_size * edge_size <= max_bits()
                    &&& universe.wf()
                    &&& universe@ == Grid::dead(edge_size as nat)
                },
                Err(BuildError::ZeroEdge) => edge_size == 0,
                Err(BuildError::TooLarge) => edge_size >= 1 && edge_size * edge_size > max_bits(),
            },
    {
        if edge_size == 0 {
            return Err(BuildError::ZeroEdge);
        }
        let limit: usize = usize::MAX / 8;
        match edge_size.checked_mul(edge_size) {
            None => Err(BuildError::TooLarge),
            Some(count) => {
                if count > limit {
                    Err(BuildError::TooLarge)
                } else {
                    let cells = all_clear(count);
                    let universe = Universe { edge_size, cells };
                    assert(universe@.cells =~= Grid::dead(edge_size as nat).cells);
                    Ok(universe)
                }
            },
        }
    }

    /// The number of columns.
    pub fn width(&self) -> (w: usize)
        ensures
            w == self@.edge,
    {
        self.edge_size
    }

    /// The number of rows, which equals the number of columns.
    pub fn height(&self) -> (h: usize)
        ensures
            h == self@.edge,
    {
        self.edge_size
    }

    /// The number of cells that the cell store holds: the square of the
    /// edge.
    pub fn cell_count(&self) -> (count: usize)
        requires
            self.wf(),
        ensures
            count == self@.cells.len(),
            count == self@.edge * self@.edge,
    {
        bit_count(&self.cells)
    }

    /// The address of the cell on which `(x, y)` falls: each coordinate is
    /// reduced modulo the edge, and rows are stored one after another.
    pub fn index(&self, x: usize, y: usize) -> (i: usize)
        requires
            self.wf(),
        ensures
            i == self@.index(x as int, y as int),
            i < self@.cells.len(),
    {
        let column: usize = x % self.edge_size;
        let row: usize = y % self.edge_size;
        proof {
            lemma_wrap_on_axis(x as int, self@.edge);
            lemma_wrap_on_axis(y as int, self@.edge);
            lemma_cell_index_in_grid(column as int, row as int, self@.edge);
        }
        self.edge_size * row + column
    }

    /// The state of the cell on which `(x, y)` falls: `true` for alive.
    pub fn get(&self, x: usize, y: usize) -> (alive: bool)
        requires
            self.wf(),
        ensures
            alive == self@.get(x as int, y as int),
    {
        let i: usize = self.index(x, y);
        bit_at(&self.cells, i)
    }

    /// Toggles the cell stored at `index`.
    fn flip_index(&mut self, index: usize)
        requires
            old(self).wf(),
            index < old(self)@.cells.len(),
        ensures
            final(self).wf(),
            final(self)@.edge == old(self)@.edge,
            final(self)@.cells == old(self)@.cells.update(
                index as int,
                !old(self)@.cells[index as int],
            ),
    {
        let was: bool = bit_at(&self.cells, index);
        set_bit(&mut self.cells, index, !was);
    }

    /// Toggles the cell on which `(x, y)` falls: a live cell dies and a dead
    /// one comes alive. No other cell changes.
    pub fn flip(&mut self, x: usize, y: usize)
        requires
            old(self).wf(),
        ensures
            final(self).wf(),
            final(self)@ == old(self)@.flip(x as int, y as int),
    {
        let index: usize = self.index(x, y);
        self.flip_index(index);
    }

    /// The coordinates of the eight cells around `(x, y)`, each reduced
    /// modulo the edge: the row above from left to right, then the cell to
    /// the left and the cell to the right, then the row below from left to
    /// right.
    pub fn get_neighbour_indices(&self, x: usize, y: usize) -> (around: Vec<(usize, usize)>)
        requires
            self.wf(),
        ensures
            around@.len() == 8,
            coordinates(around@) == self@.neighbours(x as int, y as int),
    {
        let edge: usize = self.edge_size;
        let column: usize = x % edge;
        let row: usize = y % edge;
        proof {
            let e = self@.edge;
            assert(2 * edge <= usize::MAX) by (nonlinear_arith)
                requires
                    edge >= 1,
                    edge * edge <= usize::MAX / 8,
            ;
            lemma_wrap_step(x as int, e - 1, e);
            lemma_wrap_turns(x - 1, 1, e);
            lemma_wrap_step(x as int, 1, e);
            lemma_wrap_step(y as int, e - 1, e);
            lemma_wrap_turns(y - 1, 1, e);
            lemma_wrap_step(y as int, 1, e);
        }
        let row_above: usize = ((edge - 1) + row) % edge;
        let row_below: usize = (row + 1) % edge;
        let column_to_the_left: usize = ((edge - 1) + column) % edge;
        let column_to_the_right: usize = (column + 1) % edge;
        let around: Vec<(usize, usize)> = vec![
            (column_to_the_left, row_above),
            (column, row_above),
            (column_to_the_right, row_above),
            (column_to_the_left, row),
            (column_to_the_right, row),
            (column_to_the_left, row_below),
            (column, row_below),
            (column_to_the_right, row_below),
        ];
        assert(coordinates(around@) =~= self@.neighbours(x as int, y as int));
        around
    }

    /// How many of the eight cells around `(x, y)` are alive.
    pub fn get_amount_of_live_neighbours(&self, x: usize, y: usize) -> (live: u8)
        requires
            self.wf(),
        ensures
            live == self@.live_neighbours(x as int, y as int),
            live <= 8,
    {
        let around: Vec<(usize, usize)> = self.get_neighbour_indices(x, y);
        let ghost coords = coordinates(around@);
        assert(coords.len() == 8);
        let mut live: u8 = 0;
        let mut k: usize = 0;
        while k < around.len()
            invariant
                self.wf(),
                around@.len() == 8,
                k <= 8,
                coords == coordinates(around@),
                live <= k,
                live == self@.live_among(coords.take(k as int)),
            decreases around.len() - k,
        {
            let (cx, cy): (usize, usize) = around[k];
            proof {
                let upto = coords.take(k + 1);
                assert(upto.drop_last() =~= coords.take(k as int));
                assert(upto.last() == (cx as int, cy as int));
            }
            if self.get(cx, cy) {
                live = live + 1;
            }
            k = k + 1;
        }
        assert(coords.take(8) =~= coords);
        live
    }

    /// Whether the next generation changes the cell on which `(x, y)`
    /// falls.
    pub fn index_has_to_be_flipped(&self, x: usize, y: usize) -> (changes: bool)
        requires
            self.wf(),
        ensures
            changes == self@.must_flip(x as int, y as int),
    {
        let live_neighbours: u8 = self.get_amount_of_live_neighbours(x, y);
        let alive: bool = self.get(x, y);
        next_cell_state(alive, live_neighbours) != alive
    }

    /// Advances the universe by one generation. Every cell is judged by the
    /// generation before the call: the cells that must change are listed
    /// first, and only then toggled.
    pub fn tick(&mut self)
        requires
            old(self).wf(),
        ensures
            final(self).wf(),
            final(self)@ == old(self)@.tick(),
    {
        let ghost before = self@;
        let edge: usize = self.edge_size;
        let mut flip_indices: Vec<(usize, usize)> = Vec::new();
        for x in 0..edge
            invariant
                self.wf(),
                self@ == before,
                edge == before.edge,
                scanned(before, flip_indices@, x as int, 0),
        {
            for y in 0..edge
                invariant
                    self.wf(),
                    self@ == before,
                    edge == before.edge,
                    x < edge,
                    scanned(before, flip_indices@, x as int, y as int),
            {
                let changes: bool = self.index_has_to_be_flipped(x, y);
                proof {
                    lemma_scan_step(before, flip_indices@, x, y, changes);
                }
                if changes {
                    flip_indices.push((x, y));
                }
            }
            proof {
                lemma_scan_next_column(before, flip_indices@, x as int);
            }
        }
        for k in 0..flip_indices.len()
            invariant
                self.wf(),
                before.wf(),
                scanned(before, flip_indices@, before.edge as int, 0),
                applied(before, self@, flip_indices@, k as int),
        {
            let (x, y): (usize, usize) = flip_indices[k];
            proof {
                lemma_apply_step(before, self@, flip_indices@, k as int);
            }
            self.flip(x, y);
        }
        proof {
            lemma_applied_all(before, self@, flip_indices@);
        }
    }

    /// The storage words of the cell store, for a host that reads the cells
    /// bit by bit. Cell `i`, counted row by row, is bit `i % 16` of word
    /// `i / 16`, where bit `0` is a word's most significant bit. The bits of
    /// the last word beyond the last cell are not specified.
    pub fn cells(&self) -> (words: &[u16])
        requires
            self.wf(),
        ensures
            words@.len() == (self@.cells.len() + 15) / 16,
            forall|i: int|
                0 <= i < self@.cells.len() ==> word_bit(words@[i / 16], (i % 16) as nat)
                    == #[trigger] self@.cells[i],
    {
        storage_words(&self.cells)
    }

    /// The picture of the universe as text: a full block for each live
    /// cell, a light shade for each dead one, and a line break after the
    /// last cell of every row.
    pub fn to_string(&self) -> (text: String)
        requires
            self.wf(),
        ensures
            text@ == self@.render(),
    {
        let mut text: String = String::new();
        let count: usize = self.cell_count();
        proof {
            assert(count >= 1) by (nonlinear_arith)
                requires
                    self@.edge >= 1,
                    count == self@.edge * self@.edge,
            ;
            reveal_strlit("\u{2588}");
            reveal_strlit("\u{2591}");
            reveal_strlit("\n");
        }
        for pos in 0..count
            invariant
                self.wf(),
                count == self@.cells.len(),
                "\u{2588}"@ == seq!['\u{2588}'],
                "\u{2591}"@ == seq!['\u{2591}'],
                "\n"@ == seq!['\n'],
                text@.len() == pos + (pos as int) / (self@.edge as int),
                text@.len() <= self@.render().len(),
                pos == count ==> text@.len() == self@.render().len(),
                forall|j: int| 0 <= j < text@.len() ==> text@[j] == self@.render()[j],
        {
            proof {
                lemma_render_cell(self@, pos as int);
            }
            let alive: bool = bit_at(&self.cells, pos);
            if alive {
                text.append("\u{2588}");
            } else {
                text.append("\u{2591}");
            }
            if pos % self.edge_size == self.edge_size - 1 {
                text.append("\n");
            }
        }
        assert(text@ =~= self@.render());
        text
    }

    /// Seeds the universe from a list of draws. The cells are visited
    /// column by column and down each column, each taking the next draw of
    /// the list, and a cell is toggled where its draw is `true`. Cells that
    /// the list does not reach are left as they are.
    pub fn seed_with(&mut self, draws: &Vec<bool>)
        requires
            old(self).wf(),
        ensures
            final(self).wf(),
            final(self)@ == old(self)@.seeded(draws@),
    {
        let ghost before = self@;
        let edge: usize = self.edge_size;
        for x in 0..edge
            invariant
                self.wf(),
                before.wf(),
                edge == before.edge,
                seeded_upto(before, self@, draws@, x as int, 0),
        {
            for y in 0..edge
                invariant
                    self.wf(),
                    before.wf(),
                    edge == before.edge,
                    x < edge,
                    seeded_upto(before, self@, draws@, x as int, y as int),
            {
                proof {
                    lemma_cell_index_in_grid(y as int, x as int, before.edge);
                    lemma_seed_step(before, self@, draws@, x as int, y as int);
                }
                let n: usize = x * edge + y;
                if n < draws.len() && draws[n] {
                    self.flip(x, y);
                }
            }
        }
        proof {
            lemma_seed_done(before, self@, draws@);
        }
    }
}

} // verus!
