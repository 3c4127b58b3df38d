//! The board: a flat row-major grid of cells on a torus, with the
//! neighbor-counting rule and the two-phase step transition.

use vstd::prelude::*;

verus! {

/// The state of one cell: alive, or dead for `age` generations.
/// The age saturates at `u8::MAX` ("long dead") and never wraps.
#[derive(Clone, Copy, Debug, PartialEq, Eq, Structural)]
pub enum CellState {
    Alive,
    Dead(u8),
}

/// One cell of the board, double-buffered: `current` is the state shown by
/// this generation, `next` is scratch space for the generation being computed.
#[derive(Clone, Copy, Debug, PartialEq, Eq, Structural)]
pub struct Cell {
    pub current: CellState,
    pub next: CellState,
}

/// Rejection of a degenerate board shape.
#[derive(Clone, Copy, Debug, PartialEq, Eq, Structural)]
pub enum BoardError {
    ZeroDimension,
}

/// A `width x height` grid of cells in row-major order
/// (`index == width * y + x`), with toroidal wraparound.
#[derive(Clone, Debug)]
pub struct Board {
    pub cells: Vec<Cell>,
    pub width: usize,
    pub height: usize,
}

/// The state every cell starts in: long dead in both buffers.
pub open spec fn initial_cell() -> Cell {
    Cell { current: CellState::Dead(u8::MAX), next: CellState::Dead(u8::MAX) }
}

impl Default for CellState {
    /// A cell state starts out long dead: it renders as the darkest
    /// background and is one birth away from living again.
    fn default() -> (r: Self)
        ensures
            r == CellState::Dead(u8::MAX),
    {
        CellState::Dead(u8::MAX)
    }
}

impl Default for Cell {
    fn default() -> (r: Self)
        ensures
            r == initial_cell(),
    {
        Cell { current: CellState::Dead(u8::MAX), next: CellState::Dead(u8::MAX) }
    }
}

/// Wraps one signed coordinate onto `[0, m)` the way the board does:
/// add the modulus once, then reduce. Total for `a >= -m`.
pub open spec fn wrap_coord(a: int, m: int) -> int {
    (a + m) % m
}

/// The flat index of toroidal coordinates `(x, y)` on a `w x h` board.
pub open spec fn flat_index(w: int, h: int, x: int, y: int) -> int {
    w * wrap_coord(y, h) + wrap_coord(x, w)
}

/// The `current` field of every cell, as one sequence: the generation the
/// board is showing, which is all the step rule ever reads.
pub open spec fn currents(cells: Seq<Cell>) -> Seq<CellState> {
    cells.map_values(|c: Cell| c.current)
}

/// 1 when the cell at toroidal coordinates `(x, y)` is in state `s`, else 0.
pub open spec fn state_ind(cur: Seq<CellState>, w: int, h: int, x: int, y: int, s: CellState) -> int {
    if cur[flat_index(w, h, x, y)] == s {
        1int
    } else {
        0int
    }
}

/// How many of the 8 Moore neighbors of `(x, y)` are in state `s`,
/// each neighbor resolved through the toroidal indexing.
pub open spec fn count_around(cur: Seq<CellState>, w: int, h: int, x: int, y: int, s: CellState) -> int {
    state_ind(cur, w, h, x - 1, y - 1, s) + state_ind(cur, w, h, x - 1, y, s) + state_ind(
        cur,
        w,
        h,
        x - 1,
        y + 1,
        s,
    ) + state_ind(cur, w, h, x, y - 1, s) + state_ind(cur, w, h, x, y + 1, s) + state_ind(
        cur,
        w,
        h,
        x + 1,
        y - 1,
        s,
    ) + state_ind(cur, w, h, x + 1, y, s) + state_ind(cur, w, h, x + 1, y + 1, s)
}

/// The generation rule for one cell: survival on 2 or 3 live neighbors,
/// birth on exactly 3, death resets the age to 1, and a dead cell's age
/// grows by 1 but saturates at `u8::MAX`.
pub open spec fn next_state(s: CellState, alive_around: int) -> CellState {
    match s {
        CellState::Alive => if alive_around == 2 || alive_around == 3 {
            CellState::Alive
        } else {
            CellState::Dead(1)
        },
        CellState::Dead(age) => if alive_around == 3 {
            CellState::Alive
        } else {
            CellState::Dead(
                if age == u8::MAX {
                    u8::MAX
                } else {
                    (age + 1) as u8
                },
            )
        },
    }
}

/// The state the cell at flat index `i` takes in the next generation.
pub open spec fn step_cell(cur: Seq<CellState>, w: int, h: int, i: int) -> CellState {
    next_state(cur[i], count_around(cur, w, h, i % w, i / w, CellState::Alive))
}

/// The whole next generation of `current` states.
pub open spec fn step_all(cur: Seq<CellState>, w: int, h: int) -> Seq<CellState> {
    Seq::new(cur.len(), |i: int| step_cell(cur, w, h, i))
}

/// What seeding does: each cell whose draw came up `true` turns alive,
/// every other cell is left exactly as it was.
pub open spec fn seeded(cells: Seq<Cell>, draws: Seq<bool>) -> Seq<Cell> {
    cells.map(
        |i: int, c: Cell|
            if draws[i] {
                Cell { current: CellState::Alive, next: c.next }
            } else {
                c
            },
    )
}

pub(crate) proof fn lemma_dim_le_area(w: int, h: int)
    by (nonlinear_arith)
    requires
        0 < w,
        0 < h,
    ensures
        w <= w * h,
        h <= w * h,
{
}

pub(crate) proof fn lemma_div_in_height(i: int, w: int, h: int)
    by (nonlinear_arith)
    requires
        0 < w,
        0 < h,
        0 <= i,
        i < w * h,
    ensures
        0 <= i / w < h,
{
}

pub(crate) proof fn lemma_flat_in_area(w: int, h: int, col: int, row: int)
    by (nonlinear_arith)
    requires
        0 < w,
        0 < h,
        0 <= col < w,
        0 <= row < h,
    ensures
        0 <= w * row + col,
        w * row + col < w * h,
{
}

/// Evaluates the wraparound of a coordinate that is off by at most one
/// full modulus on either side.
pub(crate) proof fn lemma_wrap_val(t: int, m: int)
    requires
        0 < m,
        -m <= t,
        t < 2 * m,
    ensures
        wrap_coord(t, m) == (if t < 0 {
            t + m
        } else if t < m {
            t
        } else {
            t - m
        }),
{
    if t < 0 {
        vstd::arithmetic::div_mod::lemma_small_mod((t + m) as nat, m as nat);
    } else if t < m {
        vstd::arithmetic::div_mod::lemma_mod_add_multiples_vanish(t, m);
        vstd::arithmetic::div_mod::lemma_small_mod(t as nat, m as nat);
    } else {
        vstd::arithmetic::div_mod::lemma_mod_add_multiples_vanish(t, m);
        vstd::arithmetic::div_mod::lemma_mod_add_multiples_vanish(t - m, m);
        vstd::arithmetic::div_mod::lemma_small_mod((t - m) as nat, m as nat);
    }
}

/// Toroidal indexing is total and in range: on any positive shape, every
/// pair of signed coordinates lands on a valid flat index.
pub proof fn lemma_index_in_range(w: int, h: int, x: int, y: int)
    requires
        0 < w,
        0 < h,
    ensures
        0 <= flat_index(w, h, x, y) < w * h,
{
    vstd::arithmetic::div_mod::lemma_mod_division_less_than_divisor(x + w, w);
    vstd::arithmetic::div_mod::lemma_mod_division_less_than_divisor(y + h, h);
    lemma_flat_in_area(w, h, wrap_coord(x, w), wrap_coord(y, h));
}

/// Toroidal indexing is periodic: moving a full board width right, or a
/// full board height down, names the same cell.
pub proof fn lemma_index_periodic(w: int, h: int, x: int, y: int)
    requires
        0 < w,
        0 < h,
    ensures
        flat_index(w, h, x + w, y) == flat_index(w, h, x, y),
        flat_index(w, h, x, y + h) == flat_index(w, h, x, y),
{
    vstd::arithmetic::div_mod::lemma_mod_add_multiples_vanish(x + w, w);
    vstd::arithmetic::div_mod::lemma_mod_add_multiples_vanish(y + h, h);
}

/// The neighbor count is always between 0 and 8.
pub proof fn lemma_count_range(cur: Seq<CellState>, w: int, h: int, x: int, y: int, s: CellState)
    ensures
        0 <= count_around(cur, w, h, x, y, s) <= 8,
{
}

/// Survival: a live cell with 2 or 3 live neighbors stays alive, and one
/// with any other count dies.
pub proof fn lemma_survival_rule(cur: Seq<CellState>, w: int, h: int, i: int)
    requires
        cur[i] == CellState::Alive,
    ensures
        ({
            let a = count_around(cur, w, h, i % w, i / w, CellState::Alive);
            &&& (a == 2 || a == 3) ==> step_cell(cur, w, h, i) == CellState::Alive
            &&& !(a == 2 || a == 3) ==> step_cell(cur, w, h, i) == CellState::Dead(1)
        }),
{
}

/// Birth: a dead cell with exactly 3 live neighbors comes alive; with any
/// other count it stays dead and its age grows by one, saturating at the
/// maximum.
pub proof fn lemma_birth_rule(cur: Seq<CellState>, w: int, h: int, i: int, age: u8)
    requires
        cur[i] == CellState::Dead(age),
    ensures
        ({
            let a = count_around(cur, w, h, i % w, i / w, CellState::Alive);
            &&& a == 3 ==> step_cell(cur, w, h, i) == CellState::Alive
            &&& a != 3 ==> step_cell(cur, w, h, i) == CellState::Dead(
                if age == u8::MAX {
                    u8::MAX
                } else {
                    (age + 1) as u8
                },
            )
        }),
{
}

/// Death resets the age: a live cell that dies, for any cause the rule
/// knows (0, 1, or 4 and more live neighbors), becomes dead at age 1.
pub proof fn lemma_death_resets_age(cur: Seq<CellState>, w: int, h: int, i: int)
    requires
        cur[i] == CellState::Alive,
        count_around(cur, w, h, i % w, i / w, CellState::Alive) <= 1 || count_around(
            cur,
            w,
            h,
            i % w,
            i / w,
            CellState::Alive,
        ) >= 4,
    ensures
        step_cell(cur, w, h, i) == CellState::Dead(1),
{
}

/// The board after `k` whole generations.
pub open spec fn iter_step(cur: Seq<CellState>, w: int, h: int, k: nat) -> Seq<CellState>
    decreases k,
{
    if k == 0 {
        cur
    } else {
        step_all(iter_step(cur, w, h, (k - 1) as nat), w, h)
    }
}

/// Stepping never changes how many cells there are.
pub proof fn lemma_iter_step_len(cur: Seq<CellState>, w: int, h: int, k: nat)
    ensures
        iter_step(cur, w, h, k).len() == cur.len(),
    decreases k,
{
    if k > 0 {
        lemma_iter_step_len(cur, w, h, (k - 1) as nat);
    }
}

/// Age saturation: a cell dead at the maximum age stays exactly there for
/// any number of further generations in which it is never reborn — the age
/// neither overflows nor decreases.
pub proof fn lemma_age_saturation(cur: Seq<CellState>, w: int, h: int, i: int, steps: nat)
    requires
        0 <= i < cur.len(),
        cur[i] == CellState::Dead(u8::MAX),
        forall|k: nat|
            k < steps ==> count_around(
                #[trigger] iter_step(cur, w, h, k),
                w,
                h,
                i % w,
                i / w,
                CellState::Alive,
            ) != 3,
    ensures
        iter_step(cur, w, h, steps)[i] == CellState::Dead(u8::MAX),
    decreases steps,
{
    lemma_iter_step_len(cur, w, h, steps);
    if steps > 0 {
        let prev = iter_step(cur, w, h, (steps - 1) as nat);
        lemma_age_saturation(cur, w, h, i, (steps - 1) as nat);
        lemma_iter_step_len(cur, w, h, (steps - 1) as nat);
        assert(count_around(prev, w, h, i % w, i / w, CellState::Alive) != 3);
        assert(iter_step(cur, w, h, steps)[i] == step_cell(prev, w, h, i));
    }
}

/// Seeding where every draw failed leaves the whole board as it was.
pub proof fn lemma_seed_none(cells: Seq<Cell>, draws: Seq<bool>)
    requires
        draws.len() == cells.len(),
        forall|i: int| 0 <= i < draws.len() ==> !draws[i],
    ensures
        seeded(cells, draws) == cells,
{
    assert(seeded(cells, draws) =~= cells);
}

/// Seeding where every draw succeeded makes every cell alive, touching
/// nothing but the `current` states.
pub proof fn lemma_seed_all(cells: Seq<Cell>, draws: Seq<bool>)
    requires
        draws.len() == cells.len(),
        forall|i: int| 0 <= i < draws.len() ==> draws[i],
    ensures
        forall|i: int|
            0 <= i < cells.len() ==> (#[trigger] seeded(cells, draws)[i]) == (Cell {
                current: CellState::Alive,
                next: cells[i].next,
            }),
{
}

impl Board {
    /// The board's structural invariant: positive dimensions, an area small
    /// enough for signed 32-bit coordinate arithmetic, and exactly one cell
    /// per grid position.
    pub open spec fn wf(self) -> bool {
        &&& 0 < self.width
        &&& 0 < self.height
        &&& self.width * self.height <= i32::MAX
        &&& self.cells@.len() == self.width * self.height
    }

    /// Builds a board of the given shape with every cell long dead,
    /// rejecting zero-sized shapes.
    pub fn from_shape(width: usize, height: usize) -> (r: Result<Board, BoardError>)
        requires
            width * height <= i32::MAX,
        ensures
            (width == 0 || height == 0) <==> r is Err,
            r is Err ==> r->Err_0 == BoardError::ZeroDimension,
            r is Ok ==> ({
                let b = r->Ok_0;
                &&& b.wf()
                &&& b.width == width
                &&& b.height == height
                &&& forall|i: int| 0 <= i < b.cells@.len() ==> b.cells@[i] == initial_cell()
            }),
    {
        if width == 0 || height == 0 {
            return Err(BoardError::ZeroDimension);
        }
        let n: usize = width * height;
        let mut cells: Vec<Cell> = Vec::new();
        let mut i: usize = 0;
        while i < n
            invariant
                i <= n,
                cells@.len() == i,
                forall|j: int| 0 <= j < i ==> cells@[j] == initial_cell(),
            decreases n - i,
        {
            cells.push(Cell { current: CellState::Dead(u8::MAX), next: CellState::Dead(u8::MAX) });
            i = i + 1;
        }
        Ok(Board { cells, width, height })
    }

    /// Maps signed toroidal coordinates to the flat index of the cell they
    /// name. Accepts any coordinates from one modulus below zero upward,
    /// which covers every neighbor offset of an in-range position.
    pub fn index_by_position(&self, x: i32, y: i32) -> (r: usize)
        requires
            self.wf(),
            -(self.width as int) <= x as int,
            -(self.height as int) <= y as int,
        ensures
            r == flat_index(self.width as int, self.height as int, x as int, y as int),
            r < self.cells@.len(),
    {
        proof {
            lemma_dim_le_area(self.width as int, self.height as int);
        }
        let w: u64 = self.width as u64;
        let h: u64 = self.height as u64;
        let xs: i64 = x as i64 + w as i64;
        let ys: i64 = y as i64 + h as i64;
        let col: u64 = (xs as u64) % w;
        let row: u64 = (ys as u64) % h;
        proof {
            lemma_flat_in_area(w as int, h as int, col as int, row as int);
        }
        (w * row + col) as usize
    }

    /// Reads the `current` state of the cell at toroidal coordinates `(x, y)`.
    fn current_at(&self, x: i32, y: i32) -> (r: CellState)
        requires
            self.wf(),
            -(self.width as int) <= x as int,
            -(self.height as int) <= y as int,
        ensures
            r == currents(self.cells@)[flat_index(
                self.width as int,
                self.height as int,
                x as int,
                y as int,
            )],
    {
        let idx = self.index_by_position(x, y);
        self.cells[idx].current
    }

    /// Counts how many of the 8 Moore neighbors of the in-range cell
    /// `(x, y)` currently hold the state `what_state`. Exactly 8 lookups,
    /// each through the toroidal indexing.
    pub fn count_cells_around_position(&self, x: i32, y: i32, what_state: CellState) -> (r: u8)
        requires
            self.wf(),
            0 <= x as int && (x as int) < self.width as int,
            0 <= y as int && (y as int) < self.height as int,
        ensures
            r as int == count_around(
                currents(self.cells@),
                self.width as int,
                self.height as int,
                x as int,
                y as int,
                what_state,
            ),
            r <= 8,
    {
        proof {
            lemma_dim_le_area(self.width as int, self.height as int);
        }
        let mut counter: u8 = 0;
        if self.current_at(x - 1, y - 1) == what_state {
            counter = counter + 1;
        }
        if self.current_at(x - 1, y) == what_state {
            counter = counter + 1;
        }
        if self.current_at(x - 1, y + 1) == what_state {
            counter = counter + 1;
        }
        if self.current_at(x, y - 1) == what_state {
            counter = counter + 1;
        }
        if self.current_at(x, y + 1) == what_state {
            counter = counter + 1;
        }
        if self.current_at(x + 1, y - 1) == what_state {
            counter = counter + 1;
        }
        if self.current_at(x + 1, y) == what_state {
            counter = counter + 1;
        }
        if self.current_at(x + 1, y + 1) == what_state {
            counter = counter + 1;
        }
        counter
    }

    /// Advances the board by one generation, in two phases: first compute
    /// every cell's `next` from the `current` fields alone, then swap the
    /// two buffers of every cell. Afterwards `current` holds the new
    /// generation and `next` holds the one just left behind.
    pub fn compute_one_step(&mut self)
        requires
            old(self).wf(),
        ensures
            final(self).wf(),
            final(self).width == old(self).width,
            final(self).height == old(self).height,
            final(self).cells@.len() == old(self).cells@.len(),
            forall|i: int|
                0 <= i < old(self).cells@.len() ==> (#[trigger] final(self).cells@[i]).current
                    == step_cell(
                    currents(old(self).cells@),
                    old(self).width as int,
                    old(self).height as int,
                    i,
                ),
            forall|i: int|
                0 <= i < old(self).cells@.len() ==> (#[trigger] final(self).cells@[i]).next == old(
                    self,
                ).cells@[i].current,
            currents(final(self).cells@) == step_all(
                currents(old(self).cells@),
                old(self).width as int,
                old(self).height as int,
            ),
    {
        let w = self.width;
        let h = self.height;
        let n = self.cells.len();
        let mut i: usize = 0;
        while i < n
            invariant
                self.wf(),
                self.width == old(self).width,
                self.height == old(self).height,
                w == self.width,
                h == self.height,
                n == self.cells@.len(),
                i <= n,
                currents(self.cells@) == currents(old(self).cells@),
                forall|j: int|
                    0 <= j < i ==> (#[trigger] self.cells@[j]).next == step_cell(
                        currents(old(self).cells@),
                        w as int,
                        h as int,
                        j,
                    ),
            decreases n - i,
        {
            let x: usize = i % w;
            let y: usize = i / w;
            proof {
                lemma_dim_le_area(w as int, h as int);
                vstd::arithmetic::div_mod::lemma_mod_division_less_than_divisor(i as int, w as int);
                lemma_div_in_height(i as int, w as int, h as int);
                vstd::arithmetic::div_mod::lemma_fundamental_div_mod(i as int, w as int);
            }
            let alive_around = self.count_cells_around_position(x as i32, y as i32, CellState::Alive);
            let c = self.cells[i];
            let new_next: CellState = match c.current {
                CellState::Alive => {
                    if alive_around == 2 || alive_around == 3 {
                        CellState::Alive
                    } else {
                        CellState::Dead(1)
                    }
                },
                CellState::Dead(cycles) => {
                    if alive_around == 3 {
                        CellState::Alive
                    } else if cycles == u8::MAX {
                        CellState::Dead(u8::MAX)
                    } else {
                        CellState::Dead(cycles + 1)
                    }
                },
            };
            self.cells.set(i, Cell { current: c.current, next: new_next });
            proof {
                assert(currents(self.cells@) =~= currents(old(self).cells@));
            }
            i = i + 1;
        }
        proof {
            assert forall|j: int| 0 <= j < n implies (#[trigger] self.cells@[j]).current == old(
                self,
            ).cells@[j].current by {
                assert(currents(self.cells@)[j] == self.cells@[j].current);
                assert(currents(old(self).cells@)[j] == old(self).cells@[j].current);
            }
        }
        let mut k: usize = 0;
        while k < n
            invariant
                self.wf(),
                self.width == old(self).width,
                self.height == old(self).height,
                w == self.width,
                h == self.height,
                n == self.cells@.len(),
                k <= n,
                forall|j: int|
                    0 <= j < k ==> (#[trigger] self.cells@[j]).current == step_cell(
                        currents(old(self).cells@),
                        w as int,
                        h as int,
                        j,
                    ) && self.cells@[j].next == old(self).cells@[j].current,
                forall|j: int|
                    k <= j < n ==> (#[trigger] self.cells@[j]).current == old(
                        self,
                    ).cells@[j].current && self.cells@[j].next == step_cell(
                        currents(old(self).cells@),
                        w as int,
                        h as int,
                        j,
                    ),
            decreases n - k,
        {
            let c = self.cells[k];
            self.cells.set(k, Cell { current: c.next, next: c.current });
            k = k + 1;
        }
        proof {
            assert(currents(self.cells@) =~= step_all(
                currents(old(self).cells@),
                old(self).width as int,
                old(self).height as int,
            ));
        }
    }

    /// Seeds the board from one boolean draw per cell, in cell order:
    /// a successful draw makes that cell's `current` state `Alive`,
    /// a failed draw leaves the cell untouched.
    pub fn randomize(self, draws: &Vec<bool>) -> (r: Board)
        requires
            self.wf(),
            draws@.len() == self.cells@.len(),
        ensures
            r.wf(),
            r.width == self.width,
            r.height == self.height,
            r.cells@ == seeded(self.cells@, draws@),
    {
        let ghost orig = self;
        let mut board = self;
        let n = board.cells.len();
        let mut i: usize = 0;
        while i < n
            invariant
                board.width == orig.width,
                board.height == orig.height,
                n == board.cells@.len(),
                orig.cells@.len() == n,
                draws@.len() == n,
                i <= n,
                forall|j: int|
                    0 <= j < i ==> (#[trigger] board.cells@[j]) == seeded(orig.cells@, draws@)[j],
                forall|j: int| i <= j < n ==> (#[trigger] board.cells@[j]) == orig.cells@[j],
            decreases n - i,
        {
            if draws[i] {
                let c = board.cells[i];
                board.cells.set(i, Cell { current: CellState::Alive, next: c.next });
            }
            i = i + 1;
        }
        proof {
            assert(board.cells@ =~= seeded(orig.cells@, draws@));
        }
        board
    }
}

} // verus!
