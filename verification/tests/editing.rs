use game_of_life::Universe;

fn is_alive(universe: &Universe, row: u32, col: u32) -> bool {
    universe.get_cells()[universe.get_index(row, col)]
}

#[test]
fn toggle_cell_flips_one_cell() {
    let mut universe = Universe::new();
    let before = universe.get_cells().clone();
    assert!(!is_alive(&universe, 0, 1));
    universe.toggle_cell(0, 1);
    assert!(is_alive(&universe, 0, 1));
    for i in 0..64 * 64 {
        if i != 1 {
            assert_eq!(universe.get_cells()[i], before[i], "cell {}", i);
        }
    }
    assert!(is_alive(&universe, 0, 0));
    universe.toggle_cell(0, 0);
    assert!(!is_alive(&universe, 0, 0));
}

#[test]
fn toggle_cell_twice_restores_the_universe() {
    let mut universe = Universe::new();
    let before = universe.get_cells().clone();
    universe.toggle_cell(17, 42);
    assert_ne!(universe.get_cells(), &before);
    universe.toggle_cell(17, 42);
    assert_eq!(universe.get_cells(), &before);
}

#[test]
fn toggle_cell_reaches_the_last_cell() {
    let mut universe = Universe::new();
    assert!(is_alive(&universe, 63, 63));
    universe.toggle_cell(63, 63);
    assert!(!universe.get_cells()[4095]);
}

#[test]
fn set_cells_marks_listed_cells_and_keeps_the_others() {
    let mut universe = Universe::new();
    universe.set_width(4);
    universe.set_height(3);
    universe.set_cells(&[(0, 1), (2, 3)]);
    universe.set_cells(&[(1, 0), (0, 1)]);
    let cells = universe.get_cells();
    let alive: Vec<usize> = (0..12).filter(|&i| cells[i]).collect();
    assert_eq!(alive, vec![1, 4, 11]);
}

#[test]
fn set_cells_with_an_empty_list_changes_nothing() {
    let mut universe = Universe::new();
    let before = universe.get_cells().clone();
    universe.set_cells(&[]);
    assert_eq!(universe.get_cells(), &before);
}

#[test]
fn set_cells_accepts_repeated_coordinates() {
    let mut universe = Universe::new();
    universe.reset();
    universe.set_cells(&[(5, 5), (5, 5), (5, 5)]);
    assert_eq!(universe.get_cells().count_ones(..), 1);
    assert!(is_alive(&universe, 5, 5));
}

#[test]
fn reset_kills_every_cell_and_keeps_dimensions() {
    let mut universe = Universe::new();
    universe.set_width(9);
    universe.set_cells(&[(3, 3), (63, 8)]);
    universe.reset();
    assert_eq!(universe.width(), 9);
    assert_eq!(universe.height(), 64);
    assert_eq!(universe.get_cells().len(), 9 * 64);
    assert_eq!(universe.get_cells().count_ones(..), 0);
}

#[test]
fn reset_twice_is_reset_once() {
    let mut universe = Universe::new();
    universe.reset();
    let once = universe.get_cells().clone();
    universe.reset();
    assert_eq!(universe.get_cells(), &once);
}

#[test]
fn set_width_clears_the_cells() {
    let mut universe = Universe::new();
    universe.set_width(10);
    assert_eq!(universe.width(), 10);
    assert_eq!(universe.height(), 64);
    assert_eq!(universe.get_cells().len(), 640);
    assert_eq!(universe.get_cells().count_ones(..), 0);
}

#[test]
fn set_width_to_the_same_width_still_clears() {
    let mut universe = Universe::new();
    universe.set_width(64);
    assert_eq!(universe.width(), 64);
    assert_eq!(universe.get_cells().len(), 4096);
    assert_eq!(universe.get_cells().count_ones(..), 0);
}

#[test]
fn set_height_clears_the_cells() {
    let mut universe = Universe::new();
    universe.set_height(2);
    assert_eq!(universe.width(), 64);
    assert_eq!(universe.height(), 2);
    assert_eq!(universe.get_cells().len(), 128);
    assert_eq!(universe.get_cells().count_ones(..), 0);
}

#[test]
fn resize_can_grow_the_universe() {
    let mut universe = Universe::new();
    universe.set_width(100);
    universe.set_height(80);
    assert_eq!(universe.get_cells().len(), 8000);
    assert_eq!(universe.get_cells().count_ones(..), 0);
    universe.toggle_cell(79, 99);
    assert!(universe.get_cells()[7999]);
}
