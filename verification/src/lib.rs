//! Conway's Game of Life on a square grid whose edges wrap around.

pub mod bits;
pub mod grid;
pub mod laws;
pub mod random;
pub mod render;
mod scan;
pub mod universe;
pub mod wrap;

use crate::grid::Grid;
use crate::random::draw;
use crate::random::thread_generator;
use crate::universe::Universe;
use vstd::pervasive::unreached;
use vstd::prelude::*;

verus! {

/// The edge of the universes that [`create_empty_universe`] and
/// [`create_random_universe`] make.
pub const DEFAULT_EDGE: usize = 40;

/// A universe of forty by forty cells, all dead.
pub fn create_empty_universe() -> (universe: Universe)
    ensures
        universe.wf(),
        universe@ == Grid::dead(DEFAULT_EDGE as nat),
{
    match Universe::build_universe(DEFAULT_EDGE) {
        Ok(universe) => universe,
        Err(_) => unreached(),
    }
}

/// A universe of forty by forty cells, each alive or dead by a random draw
/// of its own. The draws are made in scan order, column by column and down
/// each column, and handed to [`Universe::seed_with`].
pub fn create_random_universe() -> (universe: Universe)
    ensures
        universe.wf(),
        universe@.edge == DEFAULT_EDGE,
{
    let mut universe: Universe = create_empty_universe();
    let mut generator = thread_generator();
    let mut draws: Vec<bool> = Vec::new();
    for x in 0..universe.width()
        invariant
            universe.wf(),
            universe@.edge == DEFAULT_EDGE,
    {
        for y in 0..universe.height()
            invariant
                universe.wf(),
                universe@.edge == DEFAULT_EDGE,
        {
            let outcome: bool = draw(&mut generator);
            draws.push(outcome);
        }
    }
    universe.seed_with(&draws);
    universe
}

} // verus!
