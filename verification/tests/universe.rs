use game_of_life::universe::next_cell;
use game_of_life::Universe;

fn dead(width: u32, height: u32) -> Universe {
    Universe::new(width, height, &[])
}

fn with_cells(width: u32, height: u32, cells: &[(u32, u32)]) -> Universe {
    let mut universe = dead(width, height);
    universe.set_cells(cells);
    universe
}

fn is_live(universe: &Universe, row: u32, col: u32) -> bool {
    let index = (row * universe.width() + col) as usize;
    universe.get_cells()[index]
}

fn live_cells(universe: &Universe) -> Vec<(u32, u32)> {
    let mut found = Vec::new();
    for row in 0..universe.height() {
        for col in 0..universe.width() {
            if is_live(universe, row, col) {
                found.push((row, col));
            }
        }
    }
    found
}

#[test]
fn new_takes_cells_from_seed_in_row_major_order() {
    let seed = [true, false, false, false, true, true];
    let universe = Universe::new(3, 2, &seed);
    assert_eq!(universe.width(), 3);
    assert_eq!(universe.height(), 2);
    assert_eq!(universe.get_cells().len(), 6);
    assert_eq!(live_cells(&universe), vec![(0, 0), (1, 1), (1, 2)]);
    assert!(universe.is_well_formed());
}

#[test]
fn new_leaves_cells_without_seed_dead() {
    let universe = Universe::new(2, 2, &[true, true, true]);
    assert_eq!(live_cells(&universe), vec![(0, 0), (0, 1), (1, 0)]);
}

#[test]
fn new_ignores_seed_past_the_last_cell() {
    let universe = Universe::new(1, 2, &[false, true, true, true]);
    assert_eq!(universe.get_cells().len(), 2);
    assert_eq!(live_cells(&universe), vec![(1, 0)]);
}

#[test]
fn new_with_zero_dimension_is_empty() {
    let mut universe = Universe::new(0, 5, &[true, true]);
    assert_eq!(universe.width(), 0);
    assert_eq!(universe.height(), 5);
    assert_eq!(universe.get_cells().len(), 0);
    assert!(universe.is_well_formed());
    universe.tick();
    assert_eq!(universe.get_cells().len(), 0);

    let mut universe = Universe::new(5, 0, &[true]);
    assert_eq!(universe.get_cells().len(), 0);
    universe.tick();
    assert_eq!(universe.render(), "");
}

#[test]
fn new_accepts_the_largest_cell_count_that_fits() {
    let universe = Universe::new(65_535, 1, &[]);
    assert_eq!(universe.get_cells().len(), 65_535);
    assert!(universe.is_well_formed());
}

#[test]
fn reset_clears_every_cell() {
    let mut universe = Universe::new(4, 3, &[true; 12]);
    assert_eq!(live_cells(&universe).len(), 12);
    universe.reset_universe();
    assert_eq!(live_cells(&universe), vec![]);
    assert_eq!(universe.get_cells().len(), (universe.width() * universe.height()) as usize);
    assert_eq!(universe.get_cells().count_ones(..), 0);
}

#[test]
fn setters_change_only_the_dimension_field() {
    let mut universe = Universe::new(2, 2, &[true, true, true, true]);
    universe.set_width(5);
    assert_eq!(universe.width(), 5);
    assert_eq!(universe.height(), 2);
    assert_eq!(universe.get_cells().len(), 4);
    assert_eq!(universe.get_cells().count_ones(..), 4);
    assert!(!universe.is_well_formed());

    universe.set_height(3);
    assert_eq!(universe.width(), 5);
    assert_eq!(universe.height(), 3);
    assert_eq!(universe.get_cells().len(), 4);
    assert!(!universe.is_well_formed());
}

#[test]
fn reset_after_resize_rebuilds_the_storage() {
    let mut universe = Universe::new(2, 2, &[true, true, true, true]);
    universe.set_width(5);
    universe.set_height(3);
    universe.reset_universe();
    assert!(universe.is_well_formed());
    assert_eq!(universe.get_cells().len(), 15);
    assert_eq!(live_cells(&universe), vec![]);
    universe.toggle_cell(2, 4);
    assert_eq!(live_cells(&universe), vec![(2, 4)]);
}

#[test]
fn well_formedness_is_lost_and_regained_by_resizing() {
    let mut universe = dead(3, 4);
    assert!(universe.is_well_formed());
    universe.set_width(4);
    assert!(!universe.is_well_formed());
    universe.set_height(3);
    assert!(universe.is_well_formed());
}

#[test]
fn toggle_flips_one_cell() {
    let mut universe = dead(3, 3);
    universe.toggle_cell(1, 2);
    assert_eq!(live_cells(&universe), vec![(1, 2)]);
    universe.toggle_cell(0, 0);
    assert_eq!(live_cells(&universe), vec![(0, 0), (1, 2)]);
    universe.toggle_cell(1, 2);
    assert_eq!(live_cells(&universe), vec![(0, 0)]);
}

#[test]
fn toggle_twice_restores_the_cell() {
    let seed = [true, false, true, false, false, true];
    for row in 0..2 {
        for col in 0..3 {
            let mut universe = Universe::new(3, 2, &seed);
            let before = universe.get_cells().clone();
            universe.toggle_cell(row, col);
            assert_ne!(universe.get_cells(), &before);
            universe.toggle_cell(row, col);
            assert_eq!(universe.get_cells(), &before);
        }
    }
}

#[test]
fn set_cells_adds_to_the_live_cells() {
    let mut universe = dead(3, 3);
    universe.toggle_cell(1, 1);
    universe.set_cells(&[(0, 0)]);
    assert!(is_live(&universe, 1, 1));
    assert!(is_live(&universe, 0, 0));
    assert_eq!(live_cells(&universe), vec![(0, 0), (1, 1)]);
}

#[test]
fn set_cells_keeps_a_listed_live_cell_live() {
    let mut universe = with_cells(3, 3, &[(2, 1)]);
    universe.set_cells(&[(2, 1), (2, 1), (0, 2)]);
    assert_eq!(live_cells(&universe), vec![(0, 2), (2, 1)]);
}

#[test]
fn set_cells_with_no_pairs_changes_nothing() {
    let mut universe = Universe::new(2, 2, &[false, true, true, false]);
    universe.set_cells(&[]);
    assert_eq!(live_cells(&universe), vec![(0, 1), (1, 0)]);
}

#[test]
fn neighbor_count_wraps_across_the_corner() {
    let universe = with_cells(5, 4, &[(0, 0), (3, 4)]);
    assert_eq!(universe.live_neighbor_count(0, 0), 1);
    assert_eq!(universe.live_neighbor_count(3, 4), 1);
}

#[test]
fn neighbor_count_wraps_across_the_top_edge() {
    let universe = with_cells(5, 4, &[(0, 0), (3, 0)]);
    assert_eq!(universe.live_neighbor_count(0, 0), 1);
    assert_eq!(universe.live_neighbor_count(3, 0), 1);
}

#[test]
fn neighbor_count_wraps_across_the_left_edge() {
    let universe = with_cells(5, 4, &[(1, 0), (1, 4), (2, 4), (0, 4)]);
    assert_eq!(universe.live_neighbor_count(1, 0), 3);
}

#[test]
fn neighbor_count_counts_both_wrapped_neighbors_of_the_corner() {
    let universe = with_cells(5, 4, &[(3, 4), (3, 0)]);
    assert_eq!(universe.live_neighbor_count(0, 0), 2);
}

#[test]
fn neighbor_count_leaves_out_the_cell_itself() {
    let universe = with_cells(3, 3, &[(1, 1)]);
    assert_eq!(universe.live_neighbor_count(1, 1), 0);
    assert_eq!(universe.live_neighbor_count(0, 0), 1);
}

#[test]
fn neighbor_count_reaches_eight() {
    let universe = Universe::new(3, 3, &[true; 9]);
    for row in 0..3 {
        for col in 0..3 {
            assert_eq!(universe.live_neighbor_count(row, col), 8);
        }
    }
}

#[test]
fn neighbor_count_is_zero_on_a_dead_grid() {
    let universe = dead(4, 4);
    assert_eq!(universe.live_neighbor_count(2, 3), 0);
}

#[test]
fn neighbor_count_on_a_single_cell_grid() {
    // With one row and one column the step back is the step of zero, so
    // four of the nine pairs of steps are the cell itself and are left
    // out; the other five wrap around to the cell.
    let universe = with_cells(1, 1, &[(0, 0)]);
    assert_eq!(universe.live_neighbor_count(0, 0), 5);
}

#[test]
fn neighbor_count_on_a_single_row() {
    let universe = with_cells(4, 1, &[(0, 0), (0, 1)]);
    // Seen from (0, 1): the cell to the left three times, itself once.
    assert_eq!(universe.live_neighbor_count(0, 1), 4);
    // Seen from (0, 3): the cell to the right, (0, 0), three times.
    assert_eq!(universe.live_neighbor_count(0, 3), 3);
}

#[test]
fn neighbor_count_on_two_rows_counts_the_other_row_twice() {
    let universe = with_cells(4, 2, &[(1, 1)]);
    assert_eq!(universe.live_neighbor_count(0, 1), 2);
    assert_eq!(universe.live_neighbor_count(0, 0), 2);
    assert_eq!(universe.live_neighbor_count(1, 0), 1);
}

#[test]
fn rule_table() {
    assert!(!next_cell(true, 0));
    assert!(!next_cell(true, 1));
    assert!(next_cell(true, 2));
    assert!(next_cell(true, 3));
    assert!(!next_cell(true, 4));
    assert!(!next_cell(true, 8));
    assert!(next_cell(false, 3));
    assert!(!next_cell(false, 0));
    assert!(!next_cell(false, 2));
    assert!(!next_cell(false, 4));
    assert!(!next_cell(false, 8));
}

#[test]
fn lone_cell_dies() {
    let mut universe = with_cells(3, 3, &[(1, 1)]);
    universe.tick();
    assert!(!is_live(&universe, 1, 1));
    assert_eq!(live_cells(&universe), vec![]);
}

#[test]
fn blinker_oscillates_with_period_two() {
    let horizontal = vec![(2, 1), (2, 2), (2, 3)];
    let vertical = vec![(1, 2), (2, 2), (3, 2)];
    let mut universe = with_cells(5, 5, &horizontal);
    universe.tick();
    assert_eq!(live_cells(&universe), vertical);
    universe.tick();
    assert_eq!(live_cells(&universe), horizontal);
    universe.tick();
    assert_eq!(live_cells(&universe), vertical);
}

#[test]
fn block_is_stable() {
    let block = vec![(1, 1), (1, 2), (2, 1), (2, 2)];
    let mut universe = with_cells(4, 4, &block);
    for _ in 0..10 {
        universe.tick();
        assert_eq!(live_cells(&universe), block);
    }
}

#[test]
fn block_is_stable_on_a_larger_grid() {
    let block = vec![(3, 4), (3, 5), (4, 4), (4, 5)];
    let mut universe = with_cells(8, 7, &block);
    for _ in 0..25 {
        universe.tick();
    }
    assert_eq!(live_cells(&universe), block);
}

#[test]
fn block_at_the_border_is_stable() {
    let block = vec![(0, 0), (0, 1), (1, 0), (1, 1)];
    let mut universe = with_cells(4, 4, &block);
    for _ in 0..5 {
        universe.tick();
    }
    assert_eq!(live_cells(&universe), block);
}

#[test]
fn horizontal_triple_turns_vertical() {
    let mut universe = Universe::new(4, 4, &[true, false, true, true, false, true]);
    universe.reset_universe();
    assert_eq!(live_cells(&universe), vec![]);
    universe.set_cells(&[(1, 1), (1, 2), (1, 3)]);
    universe.tick();
    assert_eq!(live_cells(&universe), vec![(0, 2), (1, 2), (2, 2)]);
}

#[test]
fn birth_across_the_edges() {
    // Three live cells around the corner of the torus give birth at (0, 0).
    let mut universe = with_cells(5, 5, &[(4, 4), (4, 0), (0, 4)]);
    universe.tick();
    assert!(is_live(&universe, 0, 0));
    assert_eq!(live_cells(&universe), vec![(0, 0), (0, 4), (4, 0), (4, 4)]);
}

#[test]
fn crowded_cell_dies() {
    let mut universe = with_cells(5, 5, &[(2, 2), (1, 1), (1, 2), (1, 3), (2, 1)]);
    assert_eq!(universe.live_neighbor_count(2, 2), 4);
    universe.tick();
    assert!(!is_live(&universe, 2, 2));
}

#[test]
fn tick_reads_only_the_old_generation() {
    // In scan order (1, 1) is decided before (1, 2). It dies, and (1, 2)
    // must still count it.
    let mut universe = with_cells(6, 6, &[(1, 1), (1, 2), (1, 3), (2, 3)]);
    assert_eq!(universe.live_neighbor_count(1, 1), 1);
    assert_eq!(universe.live_neighbor_count(1, 2), 3);
    universe.tick();
    assert!(!is_live(&universe, 1, 1));
    assert!(is_live(&universe, 1, 2));
    assert_eq!(live_cells(&universe), vec![(0, 2), (1, 2), (1, 3), (2, 3)]);
}

#[test]
fn tick_on_a_full_grid_kills_everything() {
    let mut universe = Universe::new(4, 4, &[true; 16]);
    universe.tick();
    assert_eq!(live_cells(&universe), vec![]);
}

#[test]
fn tick_on_a_single_cell_grid() {
    let mut universe = with_cells(1, 1, &[(0, 0)]);
    universe.tick();
    assert_eq!(live_cells(&universe), vec![]);
}

#[test]
fn render_draws_one_glyph_per_cell() {
    let universe = Universe::new(3, 2, &[true, false, false, false, true, true]);
    assert_eq!(universe.render(), "\u{25FB}\u{25FC}\u{25FC}\n\u{25FC}\u{25FB}\u{25FB}\n");
}

#[test]
fn render_of_a_dead_grid() {
    let universe = dead(2, 2);
    assert_eq!(universe.render(), "◼◼\n◼◼\n");
}

#[test]
fn render_of_rows_without_columns() {
    let universe = dead(0, 3);
    assert_eq!(universe.render(), "\n\n\n");
}

#[test]
fn render_follows_a_tick() {
    let mut universe = with_cells(4, 4, &[(1, 1), (1, 2), (1, 3)]);
    universe.tick();
    assert_eq!(universe.render(), "◼◼◻◼\n◼◼◻◼\n◼◼◻◼\n◼◼◼◼\n");
}

#[test]
fn cells_packs_thirty_two_cells_to_a_word() {
    let universe = with_cells(6, 6, &[(0, 0), (0, 5), (5, 3)]);
    // Index 0 and 5 lie in the first word; index 33 is bit 1 of the second.
    assert_eq!(universe.cells(), &[0b10_0001u32, 0b10u32][..]);
}

#[test]
fn cells_of_an_empty_universe() {
    let universe = dead(0, 0);
    assert_eq!(universe.cells().len(), 0);
}

#[test]
fn cells_has_one_word_for_thirty_two_cells() {
    let universe = Universe::new(8, 4, &[true; 32]);
    assert_eq!(universe.cells(), &[u32::MAX][..]);
    let universe = Universe::new(11, 3, &[true; 33]);
    assert_eq!(universe.cells(), &[u32::MAX, 1u32][..]);
}

#[test]
fn get_cells_reads_the_current_generation() {
    let mut universe = with_cells(3, 3, &[(0, 1), (2, 2)]);
    assert_eq!(universe.get_cells().ones().collect::<Vec<usize>>(), vec![1, 8]);
    universe.toggle_cell(0, 1);
    assert_eq!(universe.get_cells().ones().collect::<Vec<usize>>(), vec![8]);
}
