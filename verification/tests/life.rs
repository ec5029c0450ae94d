use game_of_life::board::Board;
use game_of_life::grid::Grid;

#[test]
fn new_grid_has_no_life() {
    let g = Grid::new(4, 4);
    assert!(g.iter_alive().is_empty());
}

#[test]
fn new_board_has_no_life() {
    let b = Board::new(4, 4);
    assert!(b.iter_alive().is_empty());
}

#[test]
fn add_life_is_idempotent() {
    let mut g = Grid::new(5, 5);
    g.add_life(3, 1);
    g.add_life(3, 1);
    assert_eq!(g.iter_alive(), vec![(3, 1)]);
}

#[test]
fn duplicate_seeding_is_idempotent() {
    let mut g = Grid::new(8, 8);
    g.add_lives(&vec![(2, 3), (2, 3), (5, 5)]);
    assert_eq!(g.iter_alive(), vec![(2, 3), (5, 5)]);
}

#[test]
fn duplicate_seeding_does_not_double_count_neighbors() {
    let mut g = Grid::new(8, 8);
    g.add_lives(&vec![(2, 3), (2, 3), (5, 5)]);
    // (3, 3) sees the cell at (2, 3) once, not twice.
    assert_eq!(g.count_live_neighbors(3, 3), 1);
    // Two far-apart lone cells both die on the next step.
    assert!(g.next_step().iter_alive().is_empty());
}

#[test]
fn iter_alive_is_in_row_major_order() {
    let mut g = Grid::new(6, 6);
    g.add_lives(&vec![(5, 4), (0, 2), (3, 2), (1, 0)]);
    assert_eq!(g.iter_alive(), vec![(1, 0), (0, 2), (3, 2), (5, 4)]);
}

#[test]
fn block_is_stable() {
    let mut g = Grid::new(6, 6);
    g.add_lives(&vec![(1, 1), (2, 1), (1, 2), (2, 2)]);
    let next = g.next_step();
    assert_eq!(next.iter_alive(), vec![(1, 1), (2, 1), (1, 2), (2, 2)]);
}

#[test]
fn board_block_is_stable() {
    let mut b = Board::new(6, 6);
    b.add_lives(&vec![(1, 1), (2, 1), (1, 2), (2, 2)]);
    let next = b.next_step();
    assert_eq!(next.iter_alive(), vec![(1, 1), (2, 1), (1, 2), (2, 2)]);
}

#[test]
fn blinker_oscillates_with_period_two() {
    let mut g = Grid::new(5, 5);
    g.add_lives(&vec![(1, 2), (2, 2), (3, 2)]);
    let g1 = g.next_step();
    assert_eq!(g1.iter_alive(), vec![(2, 1), (2, 2), (2, 3)]);
    let g2 = g1.next_step();
    assert_eq!(g2.iter_alive(), vec![(1, 2), (2, 2), (3, 2)]);
}

#[test]
fn board_blinker_oscillates_with_period_two() {
    let mut b = Board::new(5, 5);
    b.add_lives(&vec![(1, 2), (2, 2), (3, 2)]);
    let b1 = b.next_step();
    assert_eq!(b1.iter_alive(), vec![(2, 1), (2, 2), (2, 3)]);
    let b2 = b1.next_step();
    assert_eq!(b2.iter_alive(), vec![(1, 2), (2, 2), (3, 2)]);
}

#[test]
fn lone_cell_dies() {
    let mut g = Grid::new(5, 5);
    g.add_life(2, 2);
    assert_eq!(g.count_live_neighbors(2, 2), 0);
    assert!(g.next_step().iter_alive().is_empty());
}

#[test]
fn dead_cell_with_three_neighbors_is_born() {
    // Three cells of a block: the fourth corner has exactly 3 live
    // neighbors and comes alive, completing the block.
    let mut g = Grid::new(6, 6);
    g.add_lives(&vec![(1, 1), (2, 1), (1, 2)]);
    assert_eq!(g.count_live_neighbors(2, 2), 3);
    let next = g.next_step();
    assert_eq!(next.iter_alive(), vec![(1, 1), (2, 1), (1, 2), (2, 2)]);
}

#[test]
fn wrap_counts_opposite_corner_as_diagonal_neighbor() {
    let mut g = Grid::new(5, 5);
    g.add_life(4, 4);
    assert_eq!(g.count_live_neighbors(0, 0), 1);
}

#[test]
fn wrap_counts_row_start_as_neighbor_of_row_end() {
    let mut g = Grid::new(5, 5);
    g.add_life(0, 0);
    assert_eq!(g.count_live_neighbors(4, 0), 1);
}

#[test]
fn blinker_wraps_across_the_edge() {
    // A horizontal blinker crossing the left/right seam still flips to
    // vertical: toroidal wrap joins column 4 to column 0.
    let mut g = Grid::new(5, 5);
    g.add_lives(&vec![(4, 2), (0, 2), (1, 2)]);
    let next = g.next_step();
    assert_eq!(next.iter_alive(), vec![(0, 1), (0, 2), (0, 3)]);
}

#[test]
fn single_column_cell_is_its_own_neighbor() {
    // With width 1, the offsets (-1, 0) and (1, 0) both wrap back to the
    // cell's own column, so a lone cell sees itself twice.
    let mut g = Grid::new(1, 3);
    g.add_life(0, 1);
    assert_eq!(g.count_live_neighbors(0, 1), 2);
    // Each empty row cell sees the lone cell three times, so both are born
    // while the lone cell survives with a tally of 2.
    let next = g.next_step();
    assert_eq!(next.iter_alive(), vec![(0, 0), (0, 1), (0, 2)]);
}

#[test]
fn one_by_one_cell_neighbors_itself_eight_times() {
    let mut g = Grid::new(1, 1);
    g.add_life(0, 0);
    assert_eq!(g.count_live_neighbors(0, 0), 8);
    assert!(g.next_step().iter_alive().is_empty());
}

#[test]
fn next_step_preserves_dimensions() {
    let mut g = Grid::new(7, 4);
    g.add_lives(&vec![(0, 0), (3, 2), (6, 3)]);
    let next = g.next_step();
    assert_eq!(next.width(), 7);
    assert_eq!(next.height(), 4);
}

#[test]
fn board_next_step_preserves_dimensions() {
    let mut b = Board::new(9, 3);
    b.add_lives(&vec![(8, 2), (4, 1)]);
    let next = b.next_step();
    assert_eq!(next.width(), 9);
    assert_eq!(next.height(), 3);
}

#[test]
fn next_step_does_not_mutate_the_receiver() {
    let mut g = Grid::new(5, 5);
    g.add_lives(&vec![(1, 2), (2, 2), (3, 2)]);
    let before = g.iter_alive();
    let _ = g.next_step();
    assert_eq!(g.iter_alive(), before);
}

#[test]
fn stepping_equal_grids_gives_equal_live_sets() {
    let seed = vec![(1, 1), (2, 1), (3, 1), (4, 4), (5, 5), (5, 6), (6, 5)];
    let mut a = Grid::new(9, 8);
    a.add_lives(&seed);
    let mut b = Grid::new(9, 8);
    b.add_lives(&seed);
    assert_eq!(a.next_step().iter_alive(), b.next_step().iter_alive());
}

#[test]
fn board_and_grid_agree() {
    let seed = vec![(1, 1), (2, 1), (3, 1), (3, 2), (2, 3), (7, 7), (7, 8), (8, 7), (8, 8)];
    let mut g = Grid::new(10, 10);
    g.add_lives(&seed);
    let mut b = Board::new(10, 10);
    b.add_lives(&seed);
    let mut g1 = g.next_step();
    let mut b1 = b.next_step();
    for _ in 0..3 {
        assert_eq!(g1.iter_alive(), b1.iter_alive());
        g1 = g1.next_step();
        b1 = b1.next_step();
    }
    assert_eq!(g1.iter_alive(), b1.iter_alive());
}
