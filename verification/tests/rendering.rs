use torus_life::board::{Board, CellState};
use torus_life::render::{color_of_state, render_diff, Color};

#[test]
fn alive_renders_white() {
    assert_eq!(color_of_state(CellState::Alive), Color { red: 255, green: 255, blue: 255 });
}

#[test]
fn freshly_dead_renders_bright_cold_blue() {
    assert_eq!(color_of_state(CellState::Dead(1)), Color { red: 117, green: 47, blue: 235 });
}

#[test]
fn oldest_visible_age_renders_dim() {
    assert_eq!(color_of_state(CellState::Dead(12)), Color { red: 7, green: 3, blue: 15 });
}

#[test]
fn decay_saturates_to_black() {
    assert_eq!(color_of_state(CellState::Dead(13)), Color { red: 0, green: 0, blue: 0 });
    assert_eq!(color_of_state(CellState::Dead(u8::MAX)), Color { red: 0, green: 0, blue: 0 });
}

#[test]
fn unchanged_board_emits_no_commands() {
    let board = Board::from_shape(6, 4).unwrap();
    let cmds = render_diff(&board);
    assert!(cmds.is_empty());
}

#[test]
fn only_changed_cells_are_drawn() {
    let mut board = Board::from_shape(3, 3).unwrap();
    board.cells[0].next = CellState::Dead(1);
    board.cells[1 * 3 + 1].current = CellState::Alive;
    let cmds = render_diff(&board);
    assert_eq!(cmds.len(), 2);
    assert_eq!(cmds[0].column, 1);
    assert_eq!(cmds[0].row, 1);
    assert_eq!(cmds[0].color, Color { red: 0, green: 0, blue: 0 });
    assert_eq!(cmds[1].column, 2);
    assert_eq!(cmds[1].row, 2);
    assert_eq!(cmds[1].color, Color { red: 255, green: 255, blue: 255 });
}

#[test]
fn commands_use_one_indexed_positions() {
    let mut board = Board::from_shape(4, 3).unwrap();
    board.cells[2 * 4 + 3].current = CellState::Alive;
    let cmds = render_diff(&board);
    assert_eq!(cmds.len(), 1);
    assert_eq!(cmds[0].column, 4);
    assert_eq!(cmds[0].row, 3);
}
