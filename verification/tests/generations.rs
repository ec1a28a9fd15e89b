use game_of_life::universe::next_cell_state;
use game_of_life::universe::Universe;

fn live_cells_of(universe: &Universe) -> Vec<(usize, usize)> {
    let mut live = Vec::new();
    for x in 0..universe.width() {
        for y in 0..universe.height() {
            if universe.get(x, y) {
                live.push((x, y));
            }
        }
    }
    live
}

#[test]
fn rule_covers_every_state_and_count() {
    let survives = [false, false, true, true, false, false, false, false, false];
    let born = [false, false, false, true, false, false, false, false, false];
    for count in 0..=8u8 {
        assert_eq!(next_cell_state(true, count), survives[count as usize]);
        assert_eq!(next_cell_state(false, count), born[count as usize]);
    }
}

#[test]
fn change_is_flagged_where_the_rule_differs_from_the_state() {
    let mut universe = Universe::build_universe(5).unwrap();
    universe.flip(1, 1);
    universe.flip(1, 2);
    universe.flip(1, 3);
    assert_eq!(universe.index_has_to_be_flipped(1, 1), true);
    assert_eq!(universe.index_has_to_be_flipped(1, 2), false);
    assert_eq!(universe.index_has_to_be_flipped(1, 3), true);
    assert_eq!(universe.index_has_to_be_flipped(0, 2), true);
    assert_eq!(universe.index_has_to_be_flipped(2, 2), true);
    assert_eq!(universe.index_has_to_be_flipped(0, 0), false);
    assert_eq!(universe.index_has_to_be_flipped(4, 4), false);
}

#[test]
fn isolated_cell_dies_wherever_it_stands() {
    for x in 0..5 {
        for y in 0..5 {
            let mut universe = Universe::build_universe(5).unwrap();
            universe.flip(x, y);
            assert_eq!(universe.get_amount_of_live_neighbours(x, y), 0);
            universe.tick();
            assert_eq!(live_cells_of(&universe), vec![]);
        }
    }
}

#[test]
fn lone_cell_on_the_smallest_grids_dies() {
    let mut one = Universe::build_universe(1).unwrap();
    one.flip(0, 0);
    one.tick();
    assert_eq!(one.get(0, 0), false);
    let mut two = Universe::build_universe(2).unwrap();
    two.flip(0, 0);
    two.tick();
    assert_eq!(live_cells_of(&two), vec![]);
}

#[test]
fn block_across_the_corner_is_stable() {
    let mut universe = Universe::build_universe(6).unwrap();
    universe.flip(5, 5);
    universe.flip(0, 5);
    universe.flip(5, 0);
    universe.flip(0, 0);
    let before = universe.to_string();
    for _ in 0..5 {
        universe.tick();
        assert_eq!(universe.to_string(), before);
    }
    assert_eq!(
        live_cells_of(&universe),
        vec![(0, 0), (0, 5), (5, 0), (5, 5)]
    );
}

#[test]
fn blinker_turns_and_turns_back() {
    let mut universe = Universe::build_universe(5).unwrap();
    universe.flip(1, 1);
    universe.flip(1, 2);
    universe.flip(1, 3);
    assert_eq!(universe.to_string(), "░░░░░\n░█░░░\n░█░░░\n░█░░░\n░░░░░\n");
    universe.tick();
    assert_eq!(live_cells_of(&universe), vec![(0, 2), (1, 2), (2, 2)]);
    assert_eq!(universe.to_string(), "░░░░░\n░░░░░\n███░░\n░░░░░\n░░░░░\n");
    universe.tick();
    assert_eq!(live_cells_of(&universe), vec![(1, 1), (1, 2), (1, 3)]);
    assert_eq!(universe.to_string(), "░░░░░\n░█░░░\n░█░░░\n░█░░░\n░░░░░\n");
}

#[test]
fn last_row_and_column_take_part_in_a_generation() {
    let mut universe = Universe::build_universe(5).unwrap();
    universe.flip(4, 0);
    universe.flip(4, 1);
    universe.flip(4, 2);
    universe.tick();
    assert_eq!(live_cells_of(&universe), vec![(0, 1), (3, 1), (4, 1)]);

    let mut universe = Universe::build_universe(5).unwrap();
    universe.flip(0, 4);
    universe.flip(1, 4);
    universe.flip(2, 4);
    universe.tick();
    assert_eq!(live_cells_of(&universe), vec![(1, 0), (1, 3), (1, 4)]);
}

#[test]
fn glider_moves_one_cell_diagonally_in_four_generations() {
    let mut universe = Universe::build_universe(5).unwrap();
    let glider = [(0, 2), (1, 2), (2, 2), (2, 1), (1, 0)];
    for (x, y) in glider {
        universe.flip(x, y);
    }
    for _ in 0..4 {
        universe.tick();
    }
    assert_eq!(
        live_cells_of(&universe),
        vec![(1, 3), (2, 1), (2, 3), (3, 2), (3, 3)]
    );
    for (x, y) in glider {
        assert_eq!(universe.get(x + 1, y + 1), true);
    }
    assert_eq!(universe.to_string(), "░░░░░\n░░█░░\n░░░█░\n░███░\n░░░░░\n");
}

#[test]
fn glider_returns_after_going_round_the_grid() {
    let mut universe = Universe::build_universe(5).unwrap();
    for (x, y) in [(0, 2), (1, 2), (2, 2), (2, 1), (1, 0)] {
        universe.flip(x, y);
    }
    let start = universe.to_string();
    for generation in 1..=20 {
        universe.tick();
        assert_eq!(universe.to_string() == start, generation == 20);
    }
    assert_eq!(universe.to_string(), "░█░░░\n░░█░░\n███░░\n░░░░░\n░░░░░\n");
}

#[test]
fn generation_reads_only_the_generation_before() {
    // A row of three across the whole width of a three-wide torus: each of
    // its cells has two live neighbours and stays, and every other cell has
    // three and is born. Had a cell been read after a change, the rows
    // judged last would have seen more than three.
    let mut universe = Universe::build_universe(3).unwrap();
    universe.flip(0, 1);
    universe.flip(1, 1);
    universe.flip(2, 1);
    universe.tick();
    assert_eq!(universe.to_string(), "███\n███\n███\n");
    universe.tick();
    assert_eq!(universe.to_string(), "░░░\n░░░\n░░░\n");
}

#[test]
fn corner_of_three_grows_into_a_block() {
    let mut universe = Universe::build_universe(4).unwrap();
    universe.flip(0, 0);
    universe.flip(1, 0);
    universe.flip(0, 1);
    universe.tick();
    assert_eq!(universe.to_string(), "██░░\n██░░\n░░░░\n░░░░\n");
    universe.tick();
    assert_eq!(universe.to_string(), "██░░\n██░░\n░░░░\n░░░░\n");
}
