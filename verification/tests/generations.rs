use game_of_life::{Seed, Universe};

fn board(width: u32, height: u32, alive: &[(u32, u32)]) -> Universe {
    let mut universe = Universe::new(width, height, &Seed::Dead).unwrap();
    universe.set_cells(alive);
    universe
}

fn live_cells(universe: &Universe) -> Vec<(u32, u32)> {
    let mut found = Vec::new();
    for row in 0..universe.height() {
        for column in 0..universe.width() {
            if universe.cell_at(row, column) {
                found.push((row, column));
            }
        }
    }
    found
}

#[test]
fn neighbor_count_of_an_inner_cell() {
    let universe = board(5, 5, &[(1, 1), (1, 2), (1, 3), (2, 1), (2, 3), (3, 1), (3, 2), (3, 3)]);
    assert_eq!(universe.live_neighbor_count(2, 2), 8);
    assert_eq!(universe.live_neighbor_count(1, 1), 2);
    assert_eq!(universe.live_neighbor_count(0, 0), 1);
    assert_eq!(universe.live_neighbor_count(2, 1), 4);
    assert_eq!(universe.live_neighbor_count(4, 4), 1);
}

#[test]
fn neighbor_count_does_not_count_the_cell_itself() {
    let universe = board(5, 5, &[(2, 2)]);
    assert_eq!(universe.live_neighbor_count(2, 2), 0);
    assert_eq!(universe.live_neighbor_count(1, 1), 1);
}

#[test]
fn first_cell_counts_the_last_cell_across_the_corner() {
    for (width, height) in [(3u32, 3u32), (4, 7), (9, 5), (64, 64)] {
        let universe = board(width, height, &[(height - 1, width - 1)]);
        assert_eq!(universe.live_neighbor_count(0, 0), 1);
        let opposite = board(width, height, &[(0, 0)]);
        assert_eq!(opposite.live_neighbor_count(height - 1, width - 1), 1);
    }
}

#[test]
fn edges_wrap_in_both_directions() {
    let universe = board(5, 4, &[(3, 2), (1, 4), (0, 0)]);
    assert_eq!(universe.live_neighbor_count(0, 2), 1);
    assert_eq!(universe.live_neighbor_count(0, 1), 2);
    assert_eq!(universe.live_neighbor_count(1, 0), 2);
    assert_eq!(universe.live_neighbor_count(3, 4), 1);
    assert_eq!(universe.live_neighbor_count(0, 4), 2);
}

#[test]
fn a_single_cell_board_is_its_own_neighbor_eight_times() {
    let mut universe = board(1, 1, &[(0, 0)]);
    assert_eq!(universe.live_neighbor_count(0, 0), 8);
    universe.tick();
    assert_eq!(universe.get_cells(), vec![false]);
    universe.tick();
    assert_eq!(universe.get_cells(), vec![false]);
}

#[test]
fn a_single_row_counts_cells_under_several_offsets() {
    let universe = board(4, 1, &[(0, 1)]);
    assert_eq!(universe.live_neighbor_count(0, 0), 3);
    assert_eq!(universe.live_neighbor_count(0, 1), 2);
    assert_eq!(universe.live_neighbor_count(0, 2), 3);
    assert_eq!(universe.live_neighbor_count(0, 3), 0);
    let mut next = board(4, 1, &[(0, 1)]);
    next.tick();
    assert_eq!(next.get_cells(), vec![true, true, true, false]);
}

#[test]
fn a_single_column_counts_cells_under_several_offsets() {
    let mut universe = board(1, 3, &[(0, 0)]);
    assert_eq!(universe.live_neighbor_count(0, 0), 2);
    assert_eq!(universe.live_neighbor_count(1, 0), 3);
    assert_eq!(universe.live_neighbor_count(2, 0), 3);
    universe.tick();
    assert_eq!(universe.get_cells(), vec![true, true, true]);
    universe.tick();
    assert_eq!(universe.get_cells(), vec![false, false, false]);
}

#[test]
fn a_two_by_two_board_counts_each_neighbor_twice_or_more() {
    let universe = board(2, 2, &[(0, 1)]);
    assert_eq!(universe.live_neighbor_count(0, 0), 2);
    assert_eq!(universe.live_neighbor_count(1, 0), 4);
    assert_eq!(universe.live_neighbor_count(1, 1), 2);
    assert_eq!(universe.live_neighbor_count(0, 1), 0);
}

#[test]
fn a_lonely_cell_dies() {
    let mut universe = board(5, 5, &[(2, 2)]);
    universe.tick();
    assert_eq!(live_cells(&universe), vec![]);
}

#[test]
fn a_cell_with_one_neighbor_dies() {
    let mut universe = board(6, 6, &[(2, 2), (2, 3)]);
    universe.tick();
    assert_eq!(live_cells(&universe), vec![]);
}

#[test]
fn a_cell_with_two_neighbors_lives_on() {
    let mut universe = board(7, 7, &[(2, 2), (3, 3), (4, 4)]);
    universe.tick();
    assert_eq!(live_cells(&universe), vec![(3, 3)]);
}

#[test]
fn a_cell_with_three_neighbors_lives_on() {
    let mut universe = board(7, 7, &[(3, 3), (2, 2), (2, 4), (4, 3)]);
    assert_eq!(universe.live_neighbor_count(3, 3), 3);
    universe.tick();
    assert!(universe.cell_at(3, 3));
}

#[test]
fn a_crowded_cell_dies() {
    let mut universe = board(7, 7, &[(3, 3), (2, 2), (2, 4), (4, 2), (4, 4)]);
    assert_eq!(universe.live_neighbor_count(3, 3), 4);
    universe.tick();
    assert!(!universe.cell_at(3, 3));
    assert_eq!(live_cells(&universe), vec![(2, 3), (3, 2), (3, 4), (4, 3)]);
}

#[test]
fn a_dead_cell_with_three_neighbors_comes_alive() {
    let mut universe = board(6, 6, &[(1, 1), (1, 2), (2, 1)]);
    assert!(!universe.cell_at(2, 2));
    universe.tick();
    assert_eq!(live_cells(&universe), vec![(1, 1), (1, 2), (2, 1), (2, 2)]);
}

#[test]
fn a_dead_cell_with_two_or_four_neighbors_stays_dead() {
    let mut two = board(7, 7, &[(2, 2), (4, 4)]);
    two.tick();
    assert!(!two.cell_at(3, 3));
    let mut four = board(7, 7, &[(2, 2), (2, 4), (4, 2), (4, 4)]);
    four.tick();
    assert!(!four.cell_at(3, 3));
}

#[test]
fn a_block_is_a_still_life() {
    let block = [(1, 1), (1, 2), (2, 1), (2, 2)];
    let mut universe = board(6, 6, &block);
    let start = universe.get_cells();
    for _ in 0..10 {
        universe.tick();
        assert_eq!(universe.get_cells(), start);
    }
    assert_eq!(live_cells(&universe), block.to_vec());
}

#[test]
fn a_block_on_the_smallest_roomy_board_is_a_still_life() {
    for top in 0..3 {
        for left in 0..3 {
            let block = [(top, left), (top, left + 1), (top + 1, left), (top + 1, left + 1)];
            let mut universe = board(4, 4, &block);
            let start = universe.get_cells();
            for _ in 0..5 {
                universe.tick();
                assert_eq!(universe.get_cells(), start);
            }
        }
    }
}

#[test]
fn a_blinker_turns_and_returns() {
    let across = vec![(2, 1), (2, 2), (2, 3)];
    let down = vec![(1, 2), (2, 2), (3, 2)];
    let mut universe = board(5, 5, &across);
    universe.tick();
    assert_eq!(live_cells(&universe), down);
    universe.tick();
    assert_eq!(live_cells(&universe), across);
    universe.tick();
    assert_eq!(live_cells(&universe), down);
    universe.tick();
    assert_eq!(live_cells(&universe), across);
}

#[test]
fn a_blinker_that_starts_upright_turns_and_returns() {
    let down = vec![(3, 4), (4, 4), (5, 4)];
    let across = vec![(4, 3), (4, 4), (4, 5)];
    let mut universe = board(9, 8, &down);
    universe.tick();
    assert_eq!(live_cells(&universe), across);
    universe.tick();
    assert_eq!(live_cells(&universe), down);
}

#[test]
fn a_glider_moves_one_cell_diagonally_in_four_generations() {
    let mut universe = board(8, 8, &[(0, 1), (1, 2), (2, 0), (2, 1), (2, 2)]);
    for _ in 0..4 {
        universe.tick();
    }
    assert_eq!(live_cells(&universe), vec![(1, 2), (2, 3), (3, 1), (3, 2), (3, 3)]);
}

#[test]
fn a_glider_crosses_the_edge() {
    let mut universe = board(5, 5, &[(0, 1), (1, 2), (2, 0), (2, 1), (2, 2)]);
    let start = universe.get_cells();
    for _ in 0..20 {
        universe.tick();
    }
    assert_eq!(universe.get_cells(), start);
}

#[test]
fn a_generation_is_computed_from_the_one_before() {
    let mut universe = board(4, 4, &[(0, 0), (0, 1), (0, 2)]);
    universe.tick();
    assert_eq!(live_cells(&universe), vec![(0, 1), (1, 1), (3, 1)]);
}

#[test]
fn equal_boards_have_equal_generations() {
    let pattern: Vec<bool> = (0..144u32).map(|i| (i * i + 3 * i) % 7 < 3).collect();
    let mut first = Universe::new(12, 12, &Seed::Pattern(pattern.clone())).unwrap();
    let mut second = Universe::new(12, 12, &Seed::Pattern(pattern)).unwrap();
    for _ in 0..25 {
        first.tick();
        second.tick();
        assert_eq!(first.get_cells(), second.get_cells());
        assert_eq!(first.render(), second.render());
    }
}

#[test]
fn tick_keeps_the_dimensions() {
    let mut universe = board(7, 3, &[(1, 1), (1, 2), (1, 3)]);
    universe.tick();
    assert_eq!(universe.width(), 7);
    assert_eq!(universe.height(), 3);
    assert_eq!(universe.get_cells().len(), 21);
}

#[test]
fn a_full_board_dies_of_overcrowding() {
    let mut universe = Universe::new(5, 5, &Seed::Pattern(vec![true; 25])).unwrap();
    universe.tick();
    assert_eq!(universe.get_cells(), vec![false; 25]);
}

#[test]
fn a_dead_board_stays_dead() {
    let mut universe = board(6, 4, &[]);
    universe.tick();
    assert_eq!(universe.get_cells(), vec![false; 24]);
}
