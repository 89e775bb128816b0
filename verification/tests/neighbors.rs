use game_of_life::Universe;

fn blank(width: u32, height: u32) -> Universe {
    let mut universe = Universe::new();
    universe.set_width(width);
    universe.set_height(height);
    universe
}

fn counts(universe: &Universe) -> Vec<u8> {
    let mut all = Vec::new();
    for row in 0..universe.height() {
        for col in 0..universe.width() {
            all.push(universe.live_neighbor_count(row, col));
        }
    }
    all
}

#[test]
fn live_cell_at_origin_is_a_neighbor_of_the_other_corners() {
    let mut universe = blank(6, 4);
    universe.set_cells(&[(0, 0)]);
    assert_eq!(universe.live_neighbor_count(3, 5), 1);
    assert_eq!(universe.live_neighbor_count(3, 0), 1);
    assert_eq!(universe.live_neighbor_count(0, 5), 1);
    assert_eq!(universe.live_neighbor_count(0, 0), 0);
}

#[test]
fn live_cells_at_the_other_corners_are_neighbors_of_the_origin() {
    let mut universe = blank(6, 4);
    universe.set_cells(&[(3, 5)]);
    assert_eq!(universe.live_neighbor_count(0, 0), 1);
    universe.set_cells(&[(3, 0)]);
    assert_eq!(universe.live_neighbor_count(0, 0), 2);
    universe.set_cells(&[(0, 5)]);
    assert_eq!(universe.live_neighbor_count(0, 0), 3);
}

#[test]
fn top_row_wraps_to_bottom_row_and_left_column_to_right_column() {
    let mut universe = blank(5, 5);
    universe.set_cells(&[(4, 2)]);
    assert_eq!(universe.live_neighbor_count(0, 1), 1);
    assert_eq!(universe.live_neighbor_count(0, 2), 1);
    assert_eq!(universe.live_neighbor_count(0, 3), 1);
    assert_eq!(universe.live_neighbor_count(1, 2), 0);
    let mut universe = blank(5, 5);
    universe.set_cells(&[(2, 4)]);
    assert_eq!(universe.live_neighbor_count(1, 0), 1);
    assert_eq!(universe.live_neighbor_count(2, 0), 1);
    assert_eq!(universe.live_neighbor_count(3, 0), 1);
    assert_eq!(universe.live_neighbor_count(2, 1), 0);
}

#[test]
fn neighbor_counts_of_a_corner_shape_on_three_by_three() {
    let mut universe = blank(3, 3);
    universe.set_cells(&[(0, 0), (0, 1), (1, 0)]);
    assert_eq!(counts(&universe), vec![2, 2, 3, 2, 3, 3, 3, 3, 3]);
}

#[test]
fn neighbor_counts_of_a_corner_shape_on_four_by_four() {
    let mut universe = blank(4, 4);
    universe.set_cells(&[(1, 1), (1, 2), (2, 1)]);
    assert_eq!(
        counts(&universe),
        vec![1, 2, 2, 1, 2, 2, 2, 1, 2, 2, 3, 1, 1, 1, 1, 0]
    );
}

#[test]
fn neighbor_counts_of_a_lone_cell_on_three_by_three() {
    let mut universe = blank(3, 3);
    universe.set_cells(&[(1, 1)]);
    assert_eq!(counts(&universe), vec![1, 1, 1, 1, 0, 1, 1, 1, 1]);
}

#[test]
fn a_full_grid_gives_eight_neighbors_everywhere() {
    let mut universe = blank(4, 3);
    universe.reinitialize(&vec![true; 12]);
    assert_eq!(counts(&universe), vec![8; 12]);
}

#[test]
fn neighbor_counts_of_the_seed_pattern() {
    let universe = Universe::new();
    assert_eq!(universe.live_neighbor_count(0, 0), 4);
    assert_eq!(universe.live_neighbor_count(63, 63), 7);
    assert_eq!(universe.live_neighbor_count(10, 11), 6);
}

#[test]
fn narrow_grids_count_a_cell_once_per_offset_that_reaches_it() {
    let mut universe = blank(1, 1);
    assert_eq!(universe.live_neighbor_count(0, 0), 0);
    universe.toggle_cell(0, 0);
    assert_eq!(universe.live_neighbor_count(0, 0), 5);

    let mut universe = blank(3, 1);
    universe.toggle_cell(0, 0);
    assert_eq!(counts(&universe), vec![1, 3, 3]);

    let mut universe = blank(1, 3);
    universe.toggle_cell(0, 0);
    assert_eq!(counts(&universe), vec![1, 3, 3]);

    let mut universe = blank(2, 2);
    universe.toggle_cell(0, 0);
    assert_eq!(counts(&universe), vec![0, 2, 2, 4]);
}

#[test]
fn reset_leaves_no_live_neighbor_anywhere() {
    let mut universe = Universe::new();
    universe.reset();
    for row in 0..64 {
        for col in 0..64 {
            assert_eq!(universe.live_neighbor_count(row, col), 0);
        }
    }
}
