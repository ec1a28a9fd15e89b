use game_of_life::create_empty_universe;
use game_of_life::create_random_universe;
use game_of_life::universe::BuildError;
use game_of_life::universe::Universe;
use game_of_life::DEFAULT_EDGE;

#[test]
fn built_universe_is_square_and_all_dead() {
    for edge in 1..=9usize {
        let universe = Universe::build_universe(edge).unwrap();
        assert_eq!(universe.width(), edge);
        assert_eq!(universe.height(), edge);
        assert_eq!(universe.cell_count(), edge * edge);
        for x in 0..edge {
            for y in 0..edge {
                assert_eq!(universe.get(x, y), false);
            }
        }
    }
}

#[test]
fn edge_of_zero_is_refused() {
    assert_eq!(Universe::build_universe(0).err(), Some(BuildError::ZeroEdge));
}

#[test]
fn edge_whose_square_overflows_is_refused() {
    assert_eq!(
        Universe::build_universe(usize::MAX).err(),
        Some(BuildError::TooLarge)
    );
}

#[test]
fn edge_whose_square_exceeds_the_store_is_refused() {
    // The square of this edge still fits in a `usize`, but is more than an
    // eighth of its range.
    let edge = 1usize << (usize::BITS / 2 - 1);
    assert!(edge.checked_mul(edge).is_some());
    assert_eq!(Universe::build_universe(edge).err(), Some(BuildError::TooLarge));
}

#[test]
fn smallest_universe_has_one_cell() {
    let universe = Universe::build_universe(1).unwrap();
    assert_eq!(universe.cell_count(), 1);
    assert_eq!(universe.get(0, 0), false);
    assert_eq!(universe.get(17, 23), false);
}

#[test]
fn empty_universe_has_the_default_edge() {
    let universe = create_empty_universe();
    assert_eq!(DEFAULT_EDGE, 40);
    assert_eq!(universe.width(), 40);
    assert_eq!(universe.height(), 40);
    assert_eq!(universe.cell_count(), 1600);
    assert_eq!(universe.to_string().chars().filter(|c| *c == '█').count(), 0);
}

#[test]
fn random_universe_has_the_default_edge() {
    let universe = create_random_universe();
    assert_eq!(universe.width(), 40);
    assert_eq!(universe.height(), 40);
    assert_eq!(universe.cell_count(), 1600);
    let text = universe.to_string();
    assert_eq!(text.chars().count(), 40 * 41);
    let live = text.chars().filter(|c| *c == '█').count();
    let dead = text.chars().filter(|c| *c == '░').count();
    assert_eq!(live + dead, 1600);
}

#[test]
fn seeding_takes_draws_column_by_column() {
    let mut universe = Universe::build_universe(3).unwrap();
    // Draw number x * 3 + y decides the cell in column x of row y.
    let draws = vec![false, true, false, false, false, true, true, false, false];
    universe.seed_with(&draws);
    for x in 0..3 {
        for y in 0..3 {
            let expected = (x, y) == (0, 1) || (x, y) == (1, 2) || (x, y) == (2, 0);
            assert_eq!(universe.get(x, y), expected);
        }
    }
    assert_eq!(universe.to_string(), "░░█\n█░░\n░█░\n");
}

#[test]
fn seeding_toggles_live_cells_and_ignores_missing_draws() {
    let mut universe = Universe::build_universe(2).unwrap();
    universe.flip(0, 0);
    universe.flip(1, 1);
    // Draws for (0, 0) and (0, 1) only; the second column gets none.
    universe.seed_with(&vec![true, true]);
    assert_eq!(universe.get(0, 0), false);
    assert_eq!(universe.get(0, 1), true);
    assert_eq!(universe.get(1, 0), false);
    assert_eq!(universe.get(1, 1), true);
}

#[test]
fn seeding_ignores_surplus_draws() {
    let mut universe = Universe::build_universe(1).unwrap();
    universe.seed_with(&vec![true, true, true]);
    assert_eq!(universe.get(0, 0), true);
}
