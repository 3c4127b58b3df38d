//! A whole-board law of the step rule: a 2x2 block of live cells on an
//! otherwise dead board is a still life. The proof covers any block
//! position on any board of at least 4x4, including blocks that straddle
//! the wrap edges of the torus.

use vstd::prelude::*;
use crate::board::{
    CellState, wrap_coord, flat_index, count_around, state_ind, step_cell, step_all,
    lemma_wrap_val, lemma_div_in_height, lemma_index_in_range,
};
use vstd::arithmetic::div_mod::{
    lemma_mod_division_less_than_divisor, lemma_fundamental_div_mod,
    lemma_fundamental_div_mod_converse,
};
use vstd::arithmetic::mul::lemma_mul_is_commutative;

verus! {

/// Whether flat index `i` names one of the four cells of the 2x2 block
/// whose corner sits at toroidal coordinates `(x0, y0)`.
pub open spec fn in_block(w: int, h: int, x0: int, y0: int, i: int) -> bool {
    ||| i == flat_index(w, h, x0, y0)
    ||| i == flat_index(w, h, x0 + 1, y0)
    ||| i == flat_index(w, h, x0, y0 + 1)
    ||| i == flat_index(w, h, x0 + 1, y0 + 1)
}

/// Two coordinate pairs name the same cell exactly when both coordinates
/// agree after wraparound: the row-major encoding is injective.
proof fn lemma_flat_eq(w: int, h: int, ax: int, ay: int, bx: int, by: int)
    requires
        0 < w,
        0 < h,
    ensures
        (flat_index(w, h, ax, ay) == flat_index(w, h, bx, by)) <==> (wrap_coord(ax, w)
            == wrap_coord(bx, w) && wrap_coord(ay, h) == wrap_coord(by, h)),
{
    lemma_mod_division_less_than_divisor(ax + w, w);
    lemma_mod_division_less_than_divisor(bx + w, w);
    lemma_mod_division_less_than_divisor(ay + h, h);
    lemma_mod_division_less_than_divisor(by + h, h);
    if flat_index(w, h, ax, ay) == flat_index(w, h, bx, by) {
        let e = flat_index(w, h, ax, ay);
        lemma_mul_is_commutative(w, wrap_coord(ay, h));
        lemma_mul_is_commutative(w, wrap_coord(by, h));
        lemma_fundamental_div_mod_converse(e, w, wrap_coord(ay, h), wrap_coord(ax, w));
        lemma_fundamental_div_mod_converse(e, w, wrap_coord(by, h), wrap_coord(bx, w));
    }
}

/// On a board whose live cells are exactly a 2x2 block, the cell named by
/// any coordinate pair is alive exactly when each coordinate wraps onto
/// one of the block's two columns and one of its two rows.
proof fn lemma_alive_iff(cur: Seq<CellState>, w: int, h: int, x0: int, y0: int, nx: int, ny: int)
    requires
        0 < w,
        0 < h,
        cur.len() == w * h,
        0 <= x0 < w,
        0 <= y0 < h,
        forall|i: int|
            0 <= i < w * h ==> ((cur[i] == CellState::Alive) <==> in_block(w, h, x0, y0, i)),
    ensures
        (cur[flat_index(w, h, nx, ny)] == CellState::Alive) <==> ((wrap_coord(nx, w) == x0
            || wrap_coord(nx, w) == wrap_coord(x0 + 1, w)) && (wrap_coord(ny, h) == y0
            || wrap_coord(ny, h) == wrap_coord(y0 + 1, h))),
{
    lemma_index_in_range(w, h, nx, ny);
    let ci = flat_index(w, h, nx, ny);
    assert((cur[ci] == CellState::Alive) <==> in_block(w, h, x0, y0, ci));
    lemma_flat_eq(w, h, nx, ny, x0, y0);
    lemma_flat_eq(w, h, nx, ny, x0 + 1, y0);
    lemma_flat_eq(w, h, nx, ny, x0, y0 + 1);
    lemma_flat_eq(w, h, nx, ny, x0 + 1, y0 + 1);
    lemma_wrap_val(x0, w);
    lemma_wrap_val(y0, h);
}

/// The per-cell heart of the still-life law: with live cells exactly a
/// 2x2 block, each block cell sees 3 live neighbors and survives, and
/// every other cell sees 0, 1, 2 or 4 — never 3 — so nothing is born.
proof fn lemma_still_life_cell(cur: Seq<CellState>, w: int, h: int, x0: int, y0: int, i: int)
    requires
        4 <= w,
        4 <= h,
        cur.len() == w * h,
        0 <= x0 < w,
        0 <= y0 < h,
        0 <= i < w * h,
        forall|j: int|
            0 <= j < w * h ==> ((cur[j] == CellState::Alive) <==> in_block(w, h, x0, y0, j)),
    ensures
        (step_cell(cur, w, h, i) == CellState::Alive) <==> in_block(w, h, x0, y0, i),
{
    let x = i % w;
    let y = i / w;
    lemma_mod_division_less_than_divisor(i, w);
    lemma_div_in_height(i, w, h);
    lemma_fundamental_div_mod(i, w);
    lemma_mul_is_commutative(w, y);

    let x0p = wrap_coord(x0 + 1, w);
    let y0p = wrap_coord(y0 + 1, h);

    lemma_wrap_val(x - 1, w);
    lemma_wrap_val(x, w);
    lemma_wrap_val(x + 1, w);
    lemma_wrap_val(y - 1, h);
    lemma_wrap_val(y, h);
    lemma_wrap_val(y + 1, h);
    lemma_wrap_val(x0 + 1, w);
    lemma_wrap_val(y0 + 1, h);

    lemma_alive_iff(cur, w, h, x0, y0, x, y);
    assert(flat_index(w, h, x, y) == i);

    lemma_alive_iff(cur, w, h, x0, y0, x - 1, y - 1);
    lemma_alive_iff(cur, w, h, x0, y0, x - 1, y);
    lemma_alive_iff(cur, w, h, x0, y0, x - 1, y + 1);
    lemma_alive_iff(cur, w, h, x0, y0, x, y - 1);
    lemma_alive_iff(cur, w, h, x0, y0, x, y + 1);
    lemma_alive_iff(cur, w, h, x0, y0, x + 1, y - 1);
    lemma_alive_iff(cur, w, h, x0, y0, x + 1, y);
    lemma_alive_iff(cur, w, h, x0, y0, x + 1, y + 1);

    let bxm = wrap_coord(x - 1, w) == x0 || wrap_coord(x - 1, w) == x0p;
    let bx0 = wrap_coord(x, w) == x0 || wrap_coord(x, w) == x0p;
    let bxp = wrap_coord(x + 1, w) == x0 || wrap_coord(x + 1, w) == x0p;
    let bym = wrap_coord(y - 1, h) == y0 || wrap_coord(y - 1, h) == y0p;
    let by0 = wrap_coord(y, h) == y0 || wrap_coord(y, h) == y0p;
    let byp = wrap_coord(y + 1, h) == y0 || wrap_coord(y + 1, h) == y0p;

    assert(state_ind(cur, w, h, x - 1, y - 1, CellState::Alive) == if bxm && bym { 1int } else { 0int });
    assert(state_ind(cur, w, h, x - 1, y, CellState::Alive) == if bxm && by0 { 1int } else { 0int });
    assert(state_ind(cur, w, h, x - 1, y + 1, CellState::Alive) == if bxm && byp { 1int } else { 0int });
    assert(state_ind(cur, w, h, x, y - 1, CellState::Alive) == if bx0 && bym { 1int } else { 0int });
    assert(state_ind(cur, w, h, x, y + 1, CellState::Alive) == if bx0 && byp { 1int } else { 0int });
    assert(state_ind(cur, w, h, x + 1, y - 1, CellState::Alive) == if bxp && bym { 1int } else { 0int });
    assert(state_ind(cur, w, h, x + 1, y, CellState::Alive) == if bxp && by0 { 1int } else { 0int });
    assert(state_ind(cur, w, h, x + 1, y + 1, CellState::Alive) == if bxp && byp { 1int } else { 0int });

    let a = count_around(cur, w, h, x, y, CellState::Alive);
    if in_block(w, h, x0, y0, i) {
        assert(cur[i] == CellState::Alive);
        assert(bx0 && by0);
        assert(a == 3);
    } else {
        assert(cur[i] != CellState::Alive);
        assert(!(bx0 && by0));
        assert(a != 3);
    }
}

/// Still life: on a board of at least 4x4 whose live cells are exactly a
/// 2x2 block — anywhere, including straddling a wrap edge — one generation
/// later the live cells are exactly that same block.
pub proof fn lemma_still_life(cur: Seq<CellState>, w: int, h: int, x0: int, y0: int)
    requires
        4 <= w,
        4 <= h,
        cur.len() == w * h,
        0 <= x0 < w,
        0 <= y0 < h,
        forall|i: int|
            0 <= i < w * h ==> ((cur[i] == CellState::Alive) <==> in_block(w, h, x0, y0, i)),
    ensures
        step_all(cur, w, h).len() == w * h,
        forall|i: int|
            0 <= i < w * h ==> ((step_all(cur, w, h)[i] == CellState::Alive) <==> in_block(
                w,
                h,
                x0,
                y0,
                i,
            )),
{
    assert forall|i: int|
        0 <= i < w * h implies ((step_all(cur, w, h)[i] == CellState::Alive) <==> in_block(
        w,
        h,
        x0,
        y0,
        i,
    )) by {
        lemma_still_life_cell(cur, w, h, x0, y0, i);
        assert(step_all(cur, w, h)[i] == step_cell(cur, w, h, i));
    }
}

} // verus!
