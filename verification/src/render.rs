//! The text picture of a grid: one glyph per cell and one line per row.

use crate::grid::Grid;
use crate::wrap::cell_index;
use crate::wrap::lemma_cell_index_joins;
use vstd::arithmetic::div_mod::lemma_fundamental_div_mod_converse;
use vstd::prelude::*;

verus! {

/// The glyph of a cell: a full block for a live cell, a light shade for a
/// dead one.
pub open spec fn glyph(alive: bool) -> char {
    if alive {
        '\u{2588}'
    } else {
        '\u{2591}'
    }
}

impl Grid {
    /// The character at position `j` of the picture. A row takes `edge + 1`
    /// characters: the glyphs of its cells from the first column to the
    /// last, then a line break.
    pub open spec fn render_char(self, j: int) -> char {
        let row = j / ((self.edge + 1) as int);
        let column = j % ((self.edge + 1) as int);
        if column == self.edge {
            '\n'
        } else {
            glyph(self.cells[cell_index(column, row, self.edge)])
        }
    }

    /// The picture of the grid: its rows from first to last, each ended by
    /// a line break.
    pub open spec fn render(self) -> Seq<char> {
        Seq::new(self.edge * (self.edge + 1), |j: int| self.render_char(j))
    }
}

/// Where the cell stored at `pos` stands in the picture, and what follows
/// it: after `pos` cells the picture is `pos + pos / edge` characters long,
/// the next character is the cell's glyph, and a line break comes after it
/// exactly where the cell ends its row.
pub proof fn lemma_render_cell(grid: Grid, pos: int)
    requires
        grid.wf(),
        0 <= pos < grid.cells.len(),
    ensures
        ({
            let e = grid.edge as int;
            let at = pos + pos / e;
            &&& 0 <= at < grid.render().len()
            &&& grid.render()[at] == glyph(grid.cells[pos])
            &&& pos % e == e - 1 ==> {
                &&& at + 1 < grid.render().len()
                &&& grid.render()[at + 1] == '\n'
                &&& (pos + 1) / e == pos / e + 1
            }
            &&& pos % e != e - 1 ==> (pos + 1) / e == pos / e
            &&& pos + 1 == grid.cells.len() ==> pos % e == e - 1 && at + 2 == grid.render().len()
        }),
{
    let e = grid.edge as int;
    let row = pos / e;
    let column = pos % e;
    let at = pos + row;
    lemma_cell_index_joins(pos, grid.edge);
    assert(at == row * (e + 1) + column) by (nonlinear_arith)
        requires
            pos == e * row + column,
            at == pos + row,
    ;
    assert(row * (e + 1) + (e + 1) <= e * (e + 1)) by (nonlinear_arith)
        requires
            0 <= row < e,
    ;
    lemma_fundamental_div_mod_converse(at, e + 1, row, column);
    if column == e - 1 {
        lemma_fundamental_div_mod_converse(at + 1, e + 1, row, e);
        assert(pos + 1 == (row + 1) * e + 0) by (nonlinear_arith)
            requires
                pos == e * row + column,
                column == e - 1,
        ;
        lemma_fundamental_div_mod_converse(pos + 1, e, row + 1, 0);
    } else {
        assert(pos + 1 == row * e + (column + 1)) by (nonlinear_arith)
            requires
                pos == e * row + column,
        ;
        lemma_fundamental_div_mod_converse(pos + 1, e, row, column + 1);
    }
    if pos + 1 == grid.cells.len() {
        assert(row == e - 1 && column == e - 1) by (nonlinear_arith)
            requires
                pos == e * row + column,
                pos + 1 == e * e,
                0 <= row < e,
                0 <= column < e,
        ;
        assert(at + 2 == e * (e + 1)) by (nonlinear_arith)
            requires
                at == pos + row,
                pos + 1 == e * e,
                row == e - 1,
        ;
    }
}

} // verus!
