//! The differential renderer: turns a board into the minimal sequence of
//! terminal drawing commands, one per cell whose state changed across the
//! step about to be applied, together with the color mapping policy.

use vstd::prelude::*;
use crate::board::{Board, Cell, CellState, lemma_div_in_height};

verus! {

/// A 24-bit background color.
#[derive(Clone, Copy, Debug, PartialEq, Eq, Structural)]
pub struct Color {
    pub red: u8,
    pub green: u8,
    pub blue: u8,
}

/// One drawing command: paint the background of the terminal cell at the
/// 1-indexed `(column, row)` position with `color`.
#[derive(Clone, Copy, Debug, PartialEq, Eq, Structural)]
pub struct DrawCommand {
    pub column: usize,
    pub row: usize,
    pub color: Color,
}

/// The brightness of a dead cell: full minus 20 units per generation of
/// age, saturating to black once the decay would pass the brightest value.
pub open spec fn dead_intensity(age: u8) -> int {
    if age * 20 > u8::MAX {
        0
    } else {
        u8::MAX - age * 20
    }
}

/// The color policy: live cells are white; dead cells fade with age on a
/// cold falloff, full intensity on blue, halved on red, a fifth on green.
pub open spec fn color_of(s: CellState) -> Color {
    match s {
        CellState::Alive => Color { red: u8::MAX, green: u8::MAX, blue: u8::MAX },
        CellState::Dead(age) => ({
            let intensity = dead_intensity(age);
            Color {
                red: (intensity / 2) as u8,
                green: (intensity / 5) as u8,
                blue: intensity as u8,
            }
        }),
    }
}

/// The command that repaints the cell at flat index `i`, shown in state `s`,
/// at its 1-indexed terminal position.
pub open spec fn command_for(w: int, i: int, s: CellState) -> DrawCommand {
    DrawCommand { column: (i % w + 1) as usize, row: (i / w + 1) as usize, color: color_of(s) }
}

/// The commands a diff scan of the first `n` cells emits, in scan order:
/// one per cell whose `current` differs from its `next`, colored by its
/// `current` state; nothing at all for an unchanged cell.
pub open spec fn diff_commands(cells: Seq<Cell>, w: int, n: int) -> Seq<DrawCommand>
    decreases n,
{
    if n <= 0 {
        Seq::empty()
    } else {
        let rest = diff_commands(cells, w, n - 1);
        let c = cells[n - 1];
        if c.current == c.next {
            rest
        } else {
            rest.push(command_for(w, n - 1, c.current))
        }
    }
}

/// Computes the color a cell is drawn with.
pub fn color_of_state(s: CellState) -> (c: Color)
    ensures
        c == color_of(s),
{
    match s {
        CellState::Alive => Color { red: u8::MAX, green: u8::MAX, blue: u8::MAX },
        CellState::Dead(age) => {
            let scaled: u16 = (age as u16) * 20;
            let intensity: u8 = if scaled > u8::MAX as u16 {
                0
            } else {
                u8::MAX - (scaled as u8)
            };
            Color { red: intensity / 2, green: intensity / 5, blue: intensity }
        },
    }
}

/// Scans the board in a fixed order and emits one drawing command for each
/// cell whose two buffers differ — the cells the step about to be applied
/// will change — and none for the rest.
pub fn render_diff(board: &Board) -> (cmds: Vec<DrawCommand>)
    requires
        board.wf(),
    ensures
        cmds@ == diff_commands(board.cells@, board.width as int, board.cells@.len() as int),
{
    let w = board.width;
    let h = board.height;
    let n = board.cells.len();
    let mut cmds: Vec<DrawCommand> = Vec::new();
    let mut i: usize = 0;
    while i < n
        invariant
            board.wf(),
            w == board.width,
            h == board.height,
            n == board.cells@.len(),
            i <= n,
            cmds@ == diff_commands(board.cells@, w as int, i as int),
        decreases n - i,
    {
        let c = board.cells[i];
        if c.current != c.next {
            let col = i % w;
            let row = i / w;
            proof {
                vstd::arithmetic::div_mod::lemma_mod_division_less_than_divisor(i as int, w as int);
                lemma_div_in_height(i as int, w as int, h as int);
            }
            cmds.push(DrawCommand { column: col + 1, row: row + 1, color: color_of_state(c.current) });
        }
        i = i + 1;
    }
    cmds
}

/// Diff suppression: on a board where every cell's `current` equals its
/// `next`, the diff scan emits no command at all.
pub proof fn lemma_diff_suppression(cells: Seq<Cell>, w: int, n: int)
    requires
        n <= cells.len(),
        forall|i: int| 0 <= i < cells.len() ==> (#[trigger] cells[i]).current == cells[i].next,
    ensures
        diff_commands(cells, w, n).len() == 0,
    decreases n,
{
    if n > 0 {
        lemma_diff_suppression(cells, w, n - 1);
    }
}

} // verus!
