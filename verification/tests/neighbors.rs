use game_of_life::grid::{neighbors_of, SIZE};
use game_of_life::neighbors::NeighborIndex;

#[test]
fn the_table_holds_what_is_found_from_row_and_column() {
    let table = NeighborIndex::new();
    for index in 0..SIZE {
        assert_eq!(*table.neighbors(index), neighbors_of(index), "cell {}", index);
    }
}

#[test]
fn the_table_wraps_at_the_corners() {
    let table = NeighborIndex::new();
    assert_eq!(
        *table.neighbors(0),
        [79 * 128, 79 * 128 + 1, 1, 128 + 1, 128, 128 + 127, 127, 79 * 128 + 127]
    );
    assert_eq!(
        *table.neighbors(127),
        [79 * 128 + 127, 79 * 128, 0, 128, 128 + 127, 128 + 126, 126, 79 * 128 + 126]
    );
}

#[test]
fn two_tables_are_the_same() {
    let first = NeighborIndex::new();
    let second = NeighborIndex::new();
    for index in 0..SIZE {
        assert_eq!(first.neighbors(index), second.neighbors(index));
    }
}
