use game_of_life::universe::Universe;

fn live_cells(universe: &Universe) -> usize {
    let mut count = 0;
    for x in 0..universe.width() {
        for y in 0..universe.height() {
            if universe.get(x, y) {
                count += 1;
            }
        }
    }
    count
}

#[test]
fn get_amount_of_live_neighbours_works() {
    let mut universe = Universe::build_universe(4).unwrap();
    assert_eq!(universe.get_amount_of_live_neighbours(0, 0), 0);
    universe.flip(0, 1);
    assert_eq!(universe.get_amount_of_live_neighbours(0, 0), 1);
    universe.flip(0, 3);
    assert_eq!(universe.get_amount_of_live_neighbours(0, 0), 2);
    universe.flip(1, 3);
    assert_eq!(universe.get_amount_of_live_neighbours(0, 0), 3);
    universe.flip(3, 3);
    assert_eq!(universe.get_amount_of_live_neighbours(0, 0), 4);
}

#[test]
fn get_neighbour_indices_wraps_correctly() {
    let universe = Universe::build_universe(5).unwrap();
    assert_eq!(
        universe.get_neighbour_indices(0, 0),
        vec![
            (4, 4),
            (0, 4),
            (1, 4),
            (4, 0),
            (1, 0),
            (4, 1),
            (0, 1),
            (1, 1)
        ]
    );
    assert_eq!(
        universe.get_neighbour_indices(4, 4),
        vec![
            (3, 3),
            (4, 3),
            (0, 3),
            (3, 4),
            (0, 4),
            (3, 0),
            (4, 0),
            (0, 0)
        ]
    );
}

#[test]
fn build_universe_has_correct_size() {
    let universe = Universe::build_universe(5).unwrap();
    assert_eq!(universe.cell_count(), 25);
}

#[test]
fn get_with_large_index_wraps() {
    let mut universe = Universe::build_universe(4).unwrap();
    universe.flip(4, 4);
    assert_eq!(universe.get(0, 0), true);
}

#[test]
fn universe_can_flip_cell() {
    let mut universe = Universe::build_universe(2).unwrap();
    universe.flip(0, 1);
    assert_eq!(universe.get(0, 1), true);
}

#[test]
fn lone_cell_dies_in_one_tick() {
    let mut universe = Universe::build_universe(3).unwrap();
    universe.flip(1, 1);
    universe.tick();
    assert_eq!(universe.get(1, 1), false);
}

#[test]
fn blocks_are_stable() {
    let mut universe = Universe::build_universe(4).unwrap();
    universe.flip(0, 0);
    universe.flip(0, 1);
    universe.flip(1, 1);
    universe.flip(1, 0);
    universe.tick();
    universe.tick();
    universe.tick();
    universe.tick();
    universe.tick();

    assert_eq!(universe.get(0, 0), true);
    assert_eq!(universe.get(1, 1), true);
    assert_eq!(universe.get(1, 0), true);
    assert_eq!(universe.get(0, 1), true);
    assert_eq!(live_cells(&universe), 4);
}

#[test]
fn blinkers_are_stable() {
    let mut universe = Universe::build_universe(5).unwrap();

    universe.flip(1, 1);
    universe.flip(1, 2);
    universe.flip(1, 3);

    universe.tick();

    assert_eq!(universe.get(0, 2), true);
    assert_eq!(universe.get(1, 2), true);
    assert_eq!(universe.get(2, 2), true);

    universe.tick();

    assert_eq!(universe.get(1, 1), true);
    assert_eq!(universe.get(1, 2), true);
    assert_eq!(universe.get(1, 3), true);
}

#[test]
fn gliders_wrap() {
    let mut universe = Universe::build_universe(5).unwrap();

    universe.flip(0, 2);
    universe.flip(1, 2);
    universe.flip(2, 2);
    universe.flip(2, 1);
    universe.flip(1, 0);

    (0..20).for_each(|x| {
        universe.tick();
        println!("{}{}", universe.to_string(), x);
    });

    assert_eq!(universe.get(0, 2), true);
    assert_eq!(universe.get(1, 2), true);
    assert_eq!(universe.get(2, 2), true);
    assert_eq!(universe.get(2, 1), true);
    assert_eq!(universe.get(1, 0), true);
}
