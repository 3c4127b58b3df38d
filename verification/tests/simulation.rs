use torus_life::board::{Board, CellState};

fn board_with_alive(width: usize, height: usize, alive: &[(usize, usize)]) -> Board {
    let mut board = Board::from_shape(width, height).unwrap();
    for &(x, y) in alive {
        board.cells[y * width + x].current = CellState::Alive;
    }
    board
}

fn alive_positions(board: &Board) -> Vec<(usize, usize)> {
    let mut found = Vec::new();
    for y in 0..board.height {
        for x in 0..board.width {
            if board.cells[y * board.width + x].current == CellState::Alive {
                found.push((x, y));
            }
        }
    }
    found
}

#[test]
fn from_shape_rejects_zero_width() {
    assert!(Board::from_shape(0, 5).is_err());
}

#[test]
fn from_shape_rejects_zero_height() {
    assert!(Board::from_shape(5, 0).is_err());
}

#[test]
fn from_shape_starts_long_dead() {
    let board = Board::from_shape(3, 2).unwrap();
    assert_eq!(board.width, 3);
    assert_eq!(board.height, 2);
    assert_eq!(board.cells.len(), 6);
    for cell in &board.cells {
        assert_eq!(cell.current, CellState::Dead(u8::MAX));
        assert_eq!(cell.next, CellState::Dead(u8::MAX));
    }
}

#[test]
fn index_wraps_negative_coordinates() {
    let board = Board::from_shape(5, 4).unwrap();
    assert_eq!(board.index_by_position(0, 0), 0);
    assert_eq!(board.index_by_position(4, 3), 19);
    assert_eq!(board.index_by_position(-1, -1), 19);
    assert_eq!(board.index_by_position(5, 4), 0);
    assert_eq!(board.index_by_position(2, 1), 7);
}

#[test]
fn index_is_periodic() {
    let board = Board::from_shape(5, 4).unwrap();
    let base = board.index_by_position(2, 1);
    assert_eq!(board.index_by_position(2 + 5, 1), base);
    assert_eq!(board.index_by_position(2, 1 + 4), base);
}

#[test]
fn neighbor_count_of_block() {
    let board = board_with_alive(4, 4, &[(1, 1), (2, 1), (1, 2), (2, 2)]);
    assert_eq!(board.count_cells_around_position(1, 1, CellState::Alive), 3);
    assert_eq!(board.count_cells_around_position(2, 2, CellState::Alive), 3);
    assert_eq!(board.count_cells_around_position(0, 0, CellState::Alive), 1);
    assert_eq!(board.count_cells_around_position(3, 3, CellState::Alive), 1);
}

#[test]
fn neighbor_count_reaches_eight() {
    let board = board_with_alive(
        5,
        5,
        &[(1, 1), (2, 1), (3, 1), (1, 2), (2, 2), (3, 2), (1, 3), (2, 3), (3, 3)],
    );
    assert_eq!(board.count_cells_around_position(2, 2, CellState::Alive), 8);
}

#[test]
fn one_by_one_torus_is_its_own_neighborhood() {
    let board = board_with_alive(1, 1, &[(0, 0)]);
    assert_eq!(board.count_cells_around_position(0, 0, CellState::Alive), 8);
}

#[test]
fn neighbor_count_by_exact_dead_age() {
    let board = board_with_alive(4, 4, &[(1, 1)]);
    assert_eq!(board.count_cells_around_position(0, 0, CellState::Dead(u8::MAX)), 7);
    assert_eq!(board.count_cells_around_position(0, 0, CellState::Dead(3)), 0);
}

#[test]
fn still_life_block_in_the_interior() {
    let mut board = board_with_alive(4, 4, &[(1, 1), (2, 1), (1, 2), (2, 2)]);
    board.compute_one_step();
    assert_eq!(alive_positions(&board), vec![(1, 1), (2, 1), (1, 2), (2, 2)]);
}

#[test]
fn still_life_block_across_the_wrap_edge() {
    let mut board = board_with_alive(4, 4, &[(3, 3), (0, 3), (3, 0), (0, 0)]);
    board.compute_one_step();
    assert_eq!(alive_positions(&board), vec![(0, 0), (3, 0), (0, 3), (3, 3)]);
}

#[test]
fn birth_on_exactly_three_neighbors() {
    let mut board = board_with_alive(5, 5, &[(1, 1), (2, 1), (3, 1)]);
    assert_eq!(board.cells[2 * 5 + 2].current, CellState::Dead(u8::MAX));
    board.compute_one_step();
    assert_eq!(board.cells[2 * 5 + 2].current, CellState::Alive);
}

#[test]
fn no_birth_on_two_neighbors_age_grows() {
    let mut board = board_with_alive(5, 5, &[(1, 1), (3, 1)]);
    board.cells[2 * 5 + 2].current = CellState::Dead(7);
    board.compute_one_step();
    assert_eq!(board.cells[2 * 5 + 2].current, CellState::Dead(8));
}

#[test]
fn no_birth_on_four_neighbors_age_grows() {
    let mut board = board_with_alive(5, 5, &[(1, 1), (3, 1), (1, 3), (3, 3)]);
    board.cells[2 * 5 + 2].current = CellState::Dead(7);
    board.compute_one_step();
    assert_eq!(board.cells[2 * 5 + 2].current, CellState::Dead(8));
}

#[test]
fn age_saturates_at_the_maximum() {
    let mut board = Board::from_shape(4, 4).unwrap();
    board.cells[0].current = CellState::Dead(u8::MAX - 1);
    board.compute_one_step();
    assert_eq!(board.cells[0].current, CellState::Dead(u8::MAX));
    board.compute_one_step();
    board.compute_one_step();
    for cell in &board.cells {
        assert_eq!(cell.current, CellState::Dead(u8::MAX));
    }
}

#[test]
fn lonely_cell_dies_at_age_one() {
    let mut board = board_with_alive(4, 4, &[(1, 1)]);
    board.compute_one_step();
    assert_eq!(board.cells[1 * 4 + 1].current, CellState::Dead(1));
}

#[test]
fn overcrowded_cell_dies_at_age_one() {
    let mut board = board_with_alive(5, 5, &[(2, 2), (1, 1), (3, 1), (1, 3), (3, 3)]);
    board.compute_one_step();
    assert_eq!(board.cells[2 * 5 + 2].current, CellState::Dead(1));
}

#[test]
fn step_leaves_previous_generation_in_next() {
    let mut board = board_with_alive(3, 3, &[(1, 1)]);
    board.compute_one_step();
    assert_eq!(board.cells[1 * 3 + 1].next, CellState::Alive);
    assert_eq!(board.cells[1 * 3 + 1].current, CellState::Dead(1));
    assert_eq!(board.cells[0].next, CellState::Dead(u8::MAX));
}

#[test]
fn randomize_with_no_successful_draw_changes_nothing() {
    let board = Board::from_shape(3, 3).unwrap();
    let draws = vec![false; 9];
    let board = board.randomize(&draws);
    for cell in &board.cells {
        assert_eq!(cell.current, CellState::Dead(u8::MAX));
        assert_eq!(cell.next, CellState::Dead(u8::MAX));
    }
}

#[test]
fn randomize_with_every_draw_successful_fills_the_board() {
    let board = Board::from_shape(3, 3).unwrap();
    let draws = vec![true; 9];
    let board = board.randomize(&draws);
    for cell in &board.cells {
        assert_eq!(cell.current, CellState::Alive);
        assert_eq!(cell.next, CellState::Dead(u8::MAX));
    }
}

#[test]
fn randomize_touches_only_drawn_cells() {
    let board = Board::from_shape(3, 3).unwrap();
    let mut draws = vec![false; 9];
    draws[4] = true;
    let board = board.randomize(&draws);
    assert_eq!(alive_positions(&board), vec![(1, 1)]);
}
