use game_of_life::universe::Universe;

#[test]
fn picture_has_one_line_per_row() {
    let mut universe = Universe::build_universe(3).unwrap();
    assert_eq!(universe.to_string(), "░░░\n░░░\n░░░\n");
    universe.flip(0, 0);
    universe.flip(2, 1);
    universe.flip(1, 2);
    assert_eq!(universe.to_string(), "█░░\n░░█\n░█░\n");
    let one = Universe::build_universe(1).unwrap();
    assert_eq!(one.to_string(), "░\n");
}

#[test]
fn storage_words_are_packed_most_significant_bit_first() {
    let mut universe = Universe::build_universe(5).unwrap();
    assert_eq!(universe.cells().len(), 2);
    assert_eq!(universe.cells()[0], 0);
    assert_eq!(universe.cells()[1] & 0xff80, 0);
    universe.flip(0, 0);
    assert_eq!(universe.cells()[0], 0x8000);
    universe.flip(4, 0);
    assert_eq!(universe.cells()[0], 0x8800);
    universe.flip(0, 3);
    assert_eq!(universe.cells()[0], 0x8801);
    universe.flip(1, 3);
    assert_eq!(universe.cells()[0], 0x8801);
    assert_eq!(universe.cells()[1] & 0xff80, 0x8000);
    universe.flip(4, 4);
    assert_eq!(universe.cells()[1] & 0xff80, 0x8080);
    universe.flip(0, 0);
    assert_eq!(universe.cells()[0], 0x0801);
}

#[test]
fn storage_words_cover_every_cell() {
    for edge in 1..=9usize {
        let mut universe = Universe::build_universe(edge).unwrap();
        assert_eq!(universe.cells().len(), (edge * edge + 15) / 16);
        universe.flip(edge - 1, edge - 1);
        let last = edge * edge - 1;
        let words = universe.cells();
        for i in 0..edge * edge {
            let bit = words[i / 16] & (0x8000u16 >> (i % 16)) != 0;
            assert_eq!(bit, i == last);
        }
    }
}

#[test]
fn cell_count_is_the_square_of_the_edge() {
    let universe = Universe::build_universe(12).unwrap();
    assert_eq!(universe.cell_count(), 144);
    assert_eq!(universe.width() * universe.height(), 144);
}
