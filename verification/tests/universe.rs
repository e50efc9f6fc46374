use game_of_life::grid::SIZE;
use game_of_life::{Cell, Universe};

fn blank_universe() -> Universe {
    let mut universe = Universe::new();
    universe.clear();
    universe
}

fn live_cells(universe: &Universe) -> Vec<(usize, usize)> {
    let cells = universe.get_cells();
    let mut live = Vec::new();
    for (index, cell) in cells.iter().enumerate() {
        if *cell == Cell::Alive {
            live.push((index / 128, index % 128));
        }
    }
    live
}

fn generation_after(cells: &[Cell]) -> Vec<Cell> {
    let mut next = Vec::with_capacity(cells.len());
    for index in 0..cells.len() {
        let row = (index / 128) as i64;
        let column = (index % 128) as i64;
        let mut count = 0;
        for step_row in [-1i64, 0, 1] {
            for step_column in [-1i64, 0, 1] {
                if step_row == 0 && step_column == 0 {
                    continue;
                }
                let r = (row + step_row).rem_euclid(80) as usize;
                let c = (column + step_column).rem_euclid(128) as usize;
                if cells[r * 128 + c] == Cell::Alive {
                    count += 1;
                }
            }
        }
        let alive = cells[index] == Cell::Alive;
        let lives = (alive && (count == 2 || count == 3)) || (!alive && count == 3);
        next.push(if lives { Cell::Alive } else { Cell::Dead });
    }
    next
}

#[test]
fn a_new_universe_is_alive_at_multiples_of_two_and_of_seven() {
    let universe = Universe::new();
    let cells = universe.get_cells();
    assert_eq!(cells.len(), 10240);
    for (index, cell) in cells.iter().enumerate() {
        let expected = if index % 2 == 0 || index % 7 == 0 { Cell::Alive } else { Cell::Dead };
        assert_eq!(*cell, expected, "cell {}", index);
    }
    assert_eq!(cells[0], Cell::Alive);
    assert_eq!(cells[1], Cell::Dead);
    assert_eq!(cells[7], Cell::Alive);
    assert_eq!(cells[9], Cell::Dead);
    assert_eq!(cells[10239], Cell::Dead);
    assert_eq!(live_cells(&universe).len(), 5851);
}

#[test]
fn width_and_height_are_fixed() {
    assert_eq!(Universe::width(), 128);
    assert_eq!(Universe::height(), 80);
    assert_eq!(SIZE, 128 * 80);
}

#[test]
fn clear_makes_every_cell_dead() {
    let mut universe = Universe::new();
    universe.clear();
    assert!(universe.get_cells().iter().all(|cell| *cell == Cell::Dead));
    assert_eq!(universe.get_cells().len(), 10240);
}

#[test]
fn clear_twice_is_clear_once() {
    let mut universe = Universe::new();
    universe.clear();
    universe.clear();
    assert!(live_cells(&universe).is_empty());
}

#[test]
fn nothing_comes_from_a_cleared_grid() {
    let mut universe = Universe::new();
    universe.tick();
    universe.clear();
    universe.tick();
    assert!(live_cells(&universe).is_empty());
    universe.tick();
    assert!(live_cells(&universe).is_empty());
}

#[test]
fn toggle_cell_flips_one_cell() {
    let mut universe = blank_universe();
    universe.toggle_cell(3, 4);
    assert_eq!(live_cells(&universe), vec![(3, 4)]);
    universe.toggle_cell(79, 127);
    assert_eq!(live_cells(&universe), vec![(3, 4), (79, 127)]);
    universe.toggle_cell(3, 4);
    assert_eq!(live_cells(&universe), vec![(79, 127)]);
}

#[test]
fn toggle_cell_wraps_its_address() {
    let mut universe = blank_universe();
    universe.toggle_cell(-1, -1);
    assert_eq!(live_cells(&universe), vec![(79, 127)]);
    universe.toggle_cell(80, 128);
    assert_eq!(live_cells(&universe), vec![(0, 0), (79, 127)]);
    universe.toggle_cell(79, -1);
    assert_eq!(live_cells(&universe), vec![(0, 0)]);
    universe.toggle_cell(-80, 128);
    assert!(live_cells(&universe).is_empty());
}

#[test]
fn toggle_twice_restores_the_cell_and_touches_no_other() {
    let mut universe = Universe::new();
    let before = universe.get_cells().to_vec();
    for (row, col) in [(0, 0), (5, 9), (79, 127), (-1, 3), (80, 200), (-80, -128), (159, 255)] {
        universe.toggle_cell(row, col);
        let once = universe.get_cells().to_vec();
        let changed: Vec<usize> = (0..SIZE).filter(|i| once[*i] != before[*i]).collect();
        assert_eq!(changed.len(), 1, "row {} col {}", row, col);
        universe.toggle_cell(row, col);
        assert_eq!(universe.get_cells(), before.as_slice(), "row {} col {}", row, col);
    }
}

#[test]
fn a_glider_has_five_cells() {
    let mut universe = blank_universe();
    universe.insert_glider_at(5, 5);
    assert_eq!(live_cells(&universe), vec![(4, 5), (5, 6), (6, 4), (6, 5), (6, 6)]);
}

#[test]
fn a_glider_moves_one_down_and_one_right_in_four_generations() {
    let mut universe = blank_universe();
    universe.insert_glider_at(5, 5);
    for _ in 0..4 {
        universe.tick();
    }
    assert_eq!(live_cells(&universe), vec![(5, 6), (6, 7), (7, 5), (7, 6), (7, 7)]);

    let mut moved = blank_universe();
    moved.insert_glider_at(6, 6);
    assert_eq!(universe.get_cells(), moved.get_cells());
}

#[test]
fn a_glider_goes_through_its_four_phases() {
    let mut universe = blank_universe();
    universe.insert_glider_at(5, 5);
    universe.tick();
    assert_eq!(live_cells(&universe), vec![(5, 4), (5, 6), (6, 5), (6, 6), (7, 5)]);
    universe.tick();
    assert_eq!(live_cells(&universe), vec![(5, 6), (6, 4), (6, 6), (7, 5), (7, 6)]);
    universe.tick();
    assert_eq!(live_cells(&universe), vec![(5, 5), (6, 6), (6, 7), (7, 5), (7, 6)]);
}

#[test]
fn a_glider_moves_across_the_edges() {
    let mut universe = blank_universe();
    universe.insert_glider_at(79, 127);
    for _ in 0..4 {
        universe.tick();
    }
    let mut moved = blank_universe();
    moved.insert_glider_at(80, 128);
    assert_eq!(universe.get_cells(), moved.get_cells());

    let mut at_origin = blank_universe();
    at_origin.insert_glider_at(0, 0);
    assert_eq!(universe.get_cells(), at_origin.get_cells());
    assert_eq!(live_cells(&universe), vec![(0, 1), (1, 0), (1, 1), (1, 127), (79, 0)]);
}

#[test]
fn a_glider_comes_back_after_a_full_turn_of_the_torus() {
    let mut universe = blank_universe();
    universe.insert_glider_at(10, 10);
    let start = universe.get_cells().to_vec();
    let turns = 4 * 128 * 80 / 16;
    for _ in 0..turns {
        universe.tick();
    }
    assert_eq!(universe.get_cells(), start.as_slice());
}

#[test]
fn inserting_a_glider_twice_takes_it_away() {
    let mut universe = Universe::new();
    let before = universe.get_cells().to_vec();
    universe.insert_glider_at(20, 30);
    assert_ne!(universe.get_cells(), before.as_slice());
    universe.insert_glider_at(20, 30);
    assert_eq!(universe.get_cells(), before.as_slice());
}

#[test]
fn inserting_a_glider_on_live_cells_kills_them() {
    let mut universe = blank_universe();
    universe.set_cells(&[(6, 5), (0, 0)]);
    universe.insert_glider_at(5, 5);
    assert_eq!(live_cells(&universe), vec![(0, 0), (4, 5), (5, 6), (6, 4), (6, 6)]);
}

#[test]
fn a_pulsar_has_forty_eight_cells() {
    let mut universe = blank_universe();
    universe.insert_pulsar_at(20, 20);
    let live = live_cells(&universe);
    assert_eq!(live.len(), 48);
    for a in [1i64, 6] {
        for b in [2i64, 3, 4] {
            for (sign_a, sign_b) in [(1, 1), (1, -1), (-1, 1), (-1, -1)] {
                let first = ((20 + sign_a * a) as usize, (20 + sign_b * b) as usize);
                let second = ((20 + sign_b * b) as usize, (20 + sign_a * a) as usize);
                assert!(live.contains(&first), "{:?}", first);
                assert!(live.contains(&second), "{:?}", second);
            }
        }
    }
}

#[test]
fn a_pulsar_comes_back_every_three_generations() {
    let mut universe = blank_universe();
    universe.insert_pulsar_at(20, 20);
    let start = universe.get_cells().to_vec();
    universe.tick();
    assert_ne!(universe.get_cells(), start.as_slice());
    assert_eq!(live_cells(&universe).len(), 56);
    universe.tick();
    assert_ne!(universe.get_cells(), start.as_slice());
    assert_eq!(live_cells(&universe).len(), 72);
    universe.tick();
    assert_eq!(universe.get_cells(), start.as_slice());
}

#[test]
fn a_pulsar_wraps_around_the_corner() {
    let mut universe = blank_universe();
    universe.insert_pulsar_at(0, 0);
    let live = live_cells(&universe);
    assert_eq!(live.len(), 48);
    assert!(live.contains(&(1, 2)));
    assert!(live.contains(&(79, 126)));
    assert!(live.contains(&(74, 4)));
    assert!(live.contains(&(4, 122)));
    let start = universe.get_cells().to_vec();
    for _ in 0..3 {
        universe.tick();
    }
    assert_eq!(universe.get_cells(), start.as_slice());
}

#[test]
fn inserting_a_pulsar_twice_takes_it_away() {
    let mut universe = Universe::new();
    let before = universe.get_cells().to_vec();
    universe.insert_pulsar_at(-74, 249);
    assert_ne!(universe.get_cells(), before.as_slice());
    universe.insert_pulsar_at(-74, 249);
    assert_eq!(universe.get_cells(), before.as_slice());
}

#[test]
fn set_cells_makes_the_listed_cells_alive() {
    let mut universe = blank_universe();
    universe.set_cells(&[(1, 2), (2, 3), (3, 1), (3, 2), (3, 3)]);
    assert_eq!(live_cells(&universe), vec![(1, 2), (2, 3), (3, 1), (3, 2), (3, 3)]);
}

#[test]
fn set_cells_leaves_the_other_cells() {
    let mut universe = Universe::new();
    let before = universe.get_cells().to_vec();
    universe.set_cells(&[(0, 1), (0, 2), (40, 65)]);
    let after = universe.get_cells();
    for index in 0..SIZE {
        if index == 1 || index == 2 || index == 40 * 128 + 65 {
            assert_eq!(after[index], Cell::Alive);
        } else {
            assert_eq!(after[index], before[index], "cell {}", index);
        }
    }
}

#[test]
fn set_cells_keeps_a_live_cell_alive() {
    let mut universe = blank_universe();
    universe.set_cells(&[(4, 4)]);
    universe.set_cells(&[(4, 4), (4, 4)]);
    assert_eq!(live_cells(&universe), vec![(4, 4)]);
}

#[test]
fn set_cells_wraps_its_addresses() {
    let mut universe = blank_universe();
    universe.set_cells(&[(-1, -1), (80, 128), (159, 255), (-80, -128)]);
    assert_eq!(live_cells(&universe), vec![(0, 0), (79, 127)]);
}

#[test]
fn set_cells_with_no_cells_changes_nothing() {
    let mut universe = Universe::new();
    let before = universe.get_cells().to_vec();
    universe.set_cells(&[]);
    assert_eq!(universe.get_cells(), before.as_slice());
}

#[test]
fn an_inner_cell_follows_the_rule_for_every_count() {
    let around = [(9, 10), (9, 11), (10, 11), (11, 11), (11, 10), (11, 9), (10, 9), (9, 9)];
    for count in 0..=8usize {
        for start in [Cell::Dead, Cell::Alive] {
            let mut universe = blank_universe();
            universe.set_cells(&around[..count]);
            if start == Cell::Alive {
                universe.set_cells(&[(10, 10)]);
            }
            universe.tick();
            let expected = match (start, count) {
                (Cell::Alive, 2) | (Cell::Alive, 3) | (Cell::Dead, 3) => Cell::Alive,
                _ => Cell::Dead,
            };
            let center = universe.get_cells()[10 * 128 + 10];
            assert_eq!(center, expected, "start {:?} count {}", start, count);
        }
    }
}

#[test]
fn an_inner_cell_follows_the_rule_for_every_neighbourhood() {
    let around = [(9, 10), (9, 11), (10, 11), (11, 11), (11, 10), (11, 9), (10, 9), (9, 9)];
    for pattern in 0..256u32 {
        let chosen: Vec<(i32, i32)> =
            (0..8).filter(|k| pattern & (1 << k) != 0).map(|k| around[k]).collect();
        let count = chosen.len();
        for start in [Cell::Dead, Cell::Alive] {
            let mut universe = blank_universe();
            universe.set_cells(&chosen);
            if start == Cell::Alive {
                universe.toggle_cell(10, 10);
            }
            universe.tick();
            let expected = if count == 3 || (count == 2 && start == Cell::Alive) {
                Cell::Alive
            } else {
                Cell::Dead
            };
            assert_eq!(universe.get_cells()[10 * 128 + 10], expected);
        }
    }
}

#[test]
fn a_corner_cell_counts_its_neighbours_across_the_edges() {
    let mut universe = blank_universe();
    universe.set_cells(&[(79, 127), (0, 127), (79, 0)]);
    universe.tick();
    assert_eq!(universe.get_cells()[0], Cell::Alive);
    assert_eq!(live_cells(&universe), vec![(0, 0), (0, 127), (79, 0), (79, 127)]);
}

#[test]
fn a_block_stays_as_it_is() {
    let mut universe = blank_universe();
    universe.set_cells(&[(10, 10), (10, 11), (11, 10), (11, 11)]);
    let start = universe.get_cells().to_vec();
    for _ in 0..5 {
        universe.tick();
        assert_eq!(universe.get_cells(), start.as_slice());
    }
}

#[test]
fn a_blinker_turns_across_the_edge() {
    let mut universe = blank_universe();
    universe.set_cells(&[(0, 127), (0, 0), (0, 1)]);
    universe.tick();
    assert_eq!(live_cells(&universe), vec![(0, 0), (1, 0), (79, 0)]);
    universe.tick();
    assert_eq!(live_cells(&universe), vec![(0, 0), (0, 1), (0, 127)]);
}

#[test]
fn a_lone_cell_dies() {
    let mut universe = blank_universe();
    universe.toggle_cell(40, 64);
    universe.tick();
    assert!(live_cells(&universe).is_empty());
}

#[test]
fn tick_gives_the_generation_that_the_rule_gives_cell_by_cell() {
    let mut universe = Universe::new();
    for generation in 0..12 {
        let expected = generation_after(universe.get_cells());
        universe.tick();
        assert_eq!(universe.get_cells(), expected.as_slice(), "generation {}", generation);
    }
}

#[test]
fn tick_reads_only_the_generation_before() {
    let mut universe = blank_universe();
    universe.insert_pulsar_at(40, 64);
    universe.tick();
    universe.clear();
    universe.insert_glider_at(5, 5);
    let expected = generation_after(universe.get_cells());
    universe.tick();
    assert_eq!(universe.get_cells(), expected.as_slice());
}

#[test]
fn edits_after_a_tick_are_seen_at_once() {
    let mut universe = blank_universe();
    universe.tick();
    universe.toggle_cell(1, 1);
    assert_eq!(live_cells(&universe), vec![(1, 1)]);
    universe.tick();
    universe.set_cells(&[(2, 2)]);
    assert_eq!(live_cells(&universe), vec![(2, 2)]);
}

#[test]
fn randomize_gives_each_cell_what_its_draw_gives() {
    let mut draws = [0u64; SIZE];
    for index in 0..SIZE {
        let number = (index % 100) as f64 / 100.0;
        draws[index] = number.to_bits();
    }
    let mut universe = Universe::new();
    universe.randomize(&draws);
    let cells = universe.get_cells();
    for index in 0..SIZE {
        let expected = if index % 100 < 30 { Cell::Alive } else { Cell::Dead };
        assert_eq!(cells[index], expected, "cell {}", index);
    }
}

#[test]
fn randomize_with_draws_at_the_limit() {
    let mut draws = [0.3f64.to_bits(); SIZE];
    draws[0] = 0.3f64.to_bits() - 1;
    draws[10239] = 0;
    let mut universe = blank_universe();
    universe.randomize(&draws);
    assert_eq!(live_cells(&universe), vec![(0, 0), (79, 127)]);
}

#[test]
fn randomize_forgets_what_was_there() {
    let all_dead = [0.9f64.to_bits(); SIZE];
    let all_alive = [0.1f64.to_bits(); SIZE];
    let mut universe = Universe::new();
    universe.randomize(&all_dead);
    assert!(live_cells(&universe).is_empty());
    universe.randomize(&all_alive);
    assert_eq!(live_cells(&universe).len(), SIZE);
    universe.tick();
    assert!(live_cells(&universe).is_empty());
}

#[test]
fn cells_are_handed_out_as_bytes() {
    let mut universe = blank_universe();
    universe.set_cells(&[(0, 0), (0, 5), (79, 127)]);
    let bytes = universe.cells();
    assert_eq!(bytes.len(), 10240);
    for (index, byte) in bytes.iter().enumerate() {
        let expected = if index == 0 || index == 5 || index == 10239 { 1 } else { 0 };
        assert_eq!(*byte, expected, "cell {}", index);
    }
}

#[test]
fn bytes_and_cells_show_the_same_grid() {
    let mut universe = Universe::new();
    for _ in 0..3 {
        universe.tick();
        let bytes = universe.cells();
        let cells = universe.get_cells();
        for index in 0..SIZE {
            assert_eq!(bytes[index], cells[index].as_byte());
        }
    }
}

#[test]
fn two_universes_with_the_same_history_hold_the_same_cells() {
    let mut first = Universe::new();
    let mut second = Universe::new();
    assert_eq!(first.get_cells(), second.get_cells());
    for round in 0..6 {
        first.tick();
        second.tick();
        assert_eq!(first.get_cells(), second.get_cells());
        first.toggle_cell(round, 2 * round);
        second.toggle_cell(round, 2 * round);
        assert_eq!(first.get_cells(), second.get_cells());
        first.insert_glider_at(10 * round, 20 * round);
        second.insert_glider_at(10 * round, 20 * round);
        assert_eq!(first.get_cells(), second.get_cells());
        first.insert_pulsar_at(70 - round, 100 + round);
        second.insert_pulsar_at(70 - round, 100 + round);
        assert_eq!(first.get_cells(), second.get_cells());
        first.set_cells(&[(round, round), (-round, -round)]);
        second.set_cells(&[(round, round), (-round, -round)]);
        assert_eq!(first.get_cells(), second.get_cells());
    }
    first.clear();
    second.clear();
    assert_eq!(first.get_cells(), second.get_cells());
}

#[test]
fn the_cells_do_not_depend_on_which_buffer_holds_them() {
    let mut ticked_once = blank_universe();
    ticked_once.tick();
    ticked_once.insert_glider_at(30, 30);
    let mut ticked_twice = blank_universe();
    ticked_twice.tick();
    ticked_twice.tick();
    ticked_twice.insert_glider_at(30, 30);
    for _ in 0..8 {
        assert_eq!(ticked_once.get_cells(), ticked_twice.get_cells());
        ticked_once.tick();
        ticked_twice.tick();
    }
}
