use vstd::arithmetic::div_mod::{lemma_fundamental_div_mod, lemma_fundamental_div_mod_converse};
use vstd::prelude::*;
use vstd::seq_lib::lemma_seq_contains_after_push;

verus! {

/// The state of one cell of the grid.
#[derive(Clone, Copy, Debug, PartialEq, Eq, Structural)]
pub enum Cell {
    Dead,
    Alive,
}

/// Coordinate `i` moved by `d` on a ring of `n` positions.
pub open spec fn wrap(i: int, d: int, n: int) -> int {
    (i + d) % n
}

proof fn lemma_wrap_steps(i: int, n: int)
    requires
        0 <= i < n,
    ensures
        wrap(i, -1, n) == if i == 0 { n - 1 } else { i - 1 },
        wrap(i, 1, n) == if i + 1 == n { 0 } else { i + 1 },
        wrap(i, 0, n) == i,
{
    if i == 0 {
        lemma_fundamental_div_mod_converse(i - 1, n, -1, n - 1);
    } else {
        lemma_fundamental_div_mod_converse(i - 1, n, 0, i - 1);
    }
    if i + 1 == n {
        lemma_fundamental_div_mod_converse(i + 1, n, 1, 0);
    } else {
        lemma_fundamental_div_mod_converse(i + 1, n, 0, i + 1);
    }
    lemma_fundamental_div_mod_converse(i, n, 0, i);
}

/// 1 for a live cell, 0 for a dead one.
pub open spec fn weight(c: Cell) -> int {
    match c {
        Cell::Alive => 1,
        Cell::Dead => 0,
    }
}

/// Row-major position of `(row, column)` on a grid `w` cells wide.
pub open spec fn index_of(w: int, row: int, column: int) -> int {
    row * w + column
}

/// 1 when the cell at `(row, column)` is alive, else 0.
pub open spec fn alive_at(cells: Seq<Cell>, w: int, row: int, column: int) -> int {
    weight(cells[index_of(w, row, column)])
}

/// The eight neighbours of `(row, column)` on an `h` by `w` torus: row and
/// column offsets of -1, 0 and 1 other than (0, 0), each coordinate taken
/// modulo the grid's height or width.
pub open spec fn neighbors(h: int, w: int, row: int, column: int) -> Seq<(int, int)> {
    seq![
        (wrap(row, -1, h), wrap(column, -1, w)),
        (wrap(row, -1, h), wrap(column, 0, w)),
        (wrap(row, -1, h), wrap(column, 1, w)),
        (wrap(row, 0, h), wrap(column, -1, w)),
        (wrap(row, 0, h), wrap(column, 1, w)),
        (wrap(row, 1, h), wrap(column, -1, w)),
        (wrap(row, 1, h), wrap(column, 0, w)),
        (wrap(row, 1, h), wrap(column, 1, w)),
    ]
}

/// Number of live cells among the eight neighbours of `(row, column)`.
pub open spec fn live_neighbors(cells: Seq<Cell>, w: int, h: int, row: int, column: int) -> int {
    let nb = neighbors(h, w, row, column);
    let at = |k: int| alive_at(cells, w, nb[k].0, nb[k].1);
    at(0) + at(1) + at(2) + at(3) + at(4) + at(5) + at(6) + at(7)
}

/// The transition rule: a live cell survives with two or three live
/// neighbours, a dead cell is born with exactly three, and every other cell
/// is dead in the next generation.
pub open spec fn next_state(c: Cell, n: int) -> Cell {
    match c {
        Cell::Alive => if n == 2 || n == 3 {
            Cell::Alive
        } else {
            Cell::Dead
        },
        Cell::Dead => if n == 3 {
            Cell::Alive
        } else {
            Cell::Dead
        },
    }
}

/// The generation that follows `cells` on a `w` by `h` torus, every cell
/// computed from the current generation only.
pub open spec fn next_generation(cells: Seq<Cell>, w: int, h: int) -> Seq<Cell> {
    Seq::new(
        (w * h) as nat,
        |i: int| next_state(cells[i], live_neighbors(cells, w, h, i / w, i % w)),
    )
}

/// `(column, row, new state)` for every index below `k` whose cell differs
/// between `before` and `after`, in ascending index order (row-major).
pub open spec fn change_record(before: Seq<Cell>, after: Seq<Cell>, w: int, k: int) -> Seq<
    (u32, u32, Cell),
>
    decreases k,
{
    if k <= 0 {
        seq![]
    } else {
        let prev = change_record(before, after, w, k - 1);
        let i = k - 1;
        if before[i] != after[i] {
            prev.push(((i % w) as u32, (i / w) as u32, after[i]))
        } else {
            prev
        }
    }
}

/// A grid of `n` dead cells.
pub open spec fn all_dead(n: nat) -> Seq<Cell> {
    Seq::new(n, |i: int| Cell::Dead)
}

/// The built-in seed: a cell starts alive when its index is a multiple of 2
/// or of 7.
pub open spec fn seed_cell(i: int) -> Cell {
    if i % 2 == 0 || i % 7 == 0 {
        Cell::Alive
    } else {
        Cell::Dead
    }
}

/// The abstract state of a universe.
pub struct LifeModel {
    pub width: int,
    pub height: int,
    pub cells: Seq<Cell>,
    pub changes: Seq<(u32, u32, Cell)>,
}

impl LifeModel {
    /// Positive dimensions whose product fits in `u32`, and one cell per
    /// position.
    pub open spec fn wf(self) -> bool {
        &&& 0 < self.width
        &&& 0 < self.height
        &&& self.width * self.height <= u32::MAX
        &&& self.cells.len() == self.width * self.height
    }

    /// The same state with an empty change record.
    pub open spec fn cleared(self) -> LifeModel {
        LifeModel { changes: seq![], ..self }
    }

    /// The state after one generation: the next cells, and the record of
    /// the cells that changed.
    pub open spec fn stepped(self) -> LifeModel {
        let next = next_generation(self.cells, self.width, self.height);
        LifeModel {
            cells: next,
            changes: change_record(self.cells, next, self.width, self.width * self.height),
            ..self
        }
    }

    /// The state after `k` generations.
    pub open spec fn steps(self, k: nat) -> LifeModel
        decreases k,
    {
        if k == 0 {
            self
        } else {
            self.steps((k - 1) as nat).stepped()
        }
    }
}

/// A toroidal Game of Life grid and the record of its last changes.
pub struct Universe {
    width: u32,
    height: u32,
    cells: Vec<Cell>,
    /// `(column, row, new state)` of each cell changed by the last `update`
    /// (after `new`: of each live cell).
    pub changed_cells: Vec<(u32, u32, Cell)>,
}

impl View for Universe {
    type V = LifeModel;

    closed spec fn view(&self) -> LifeModel {
        LifeModel {
            width: self.width as int,
            height: self.height as int,
            cells: self.cells@,
            changes: self.changed_cells@,
        }
    }
}

proof fn lemma_index_bound(w: int, h: int, row: int, column: int)
    requires
        0 <= row < h,
        0 <= column < w,
    ensures
        0 <= index_of(w, row, column) < w * h,
        index_of(w, row, column) / w == row,
        index_of(w, row, column) % w == column,
{
    assert(0 <= row * w + column < w * h) by (nonlinear_arith)
        requires
            0 <= row < h,
            0 <= column < w,
    ;
    lemma_fundamental_div_mod_converse(index_of(w, row, column), w, row, column);
}

impl Universe {
    /// Whether the universe satisfies its invariant.
    pub open spec fn wf(&self) -> bool {
        self@.wf()
    }

    fn get_index(&self, row: u32, column: u32) -> (r: usize)
        requires
            self.wf(),
            row < self@.height,
            column < self@.width,
        ensures
            r == index_of(self@.width, row as int, column as int),
            r < self@.cells.len(),
    {
        proof {
            lemma_index_bound(self.width as int, self.height as int, row as int, column as int);
        }
        (row * self.width + column) as usize
    }

    fn weight_at(&self, row: u32, column: u32) -> (r: u8)
        requires
            self.wf(),
            row < self@.height,
            column < self@.width,
        ensures
            r == alive_at(self@.cells, self@.width, row as int, column as int),
    {
        let idx = self.get_index(row, column);
        match self.cells[idx] {
            Cell::Alive => 1,
            Cell::Dead => 0,
        }
    }

    /// Number of live cells among the eight toroidal neighbours of
    /// `(row, column)`.
    pub fn live_neighbor_count(&self, row: u32, column: u32) -> (r: u8)
        requires
            self.wf(),
            row < self@.height,
            column < self@.width,
        ensures
            r == live_neighbors(self@.cells, self@.width, self@.height, row as int, column as int),
            r <= 8,
    {
        let h = self.height;
        let w = self.width;
        let up = if row == 0 { h - 1 } else { row - 1 };
        let down = if row + 1 == h { 0 } else { row + 1 };
        let left = if column == 0 { w - 1 } else { column - 1 };
        let right = if column + 1 == w { 0 } else { column + 1 };
        proof {
            lemma_wrap_steps(row as int, h as int);
            lemma_wrap_steps(column as int, w as int);
        }
        let mut count: u8 = 0;
        count = count + self.weight_at(up, left);
        count = count + self.weight_at(up, column);
        count = count + self.weight_at(up, right);
        count = count + self.weight_at(row, left);
        count = count + self.weight_at(row, right);
        count = count + self.weight_at(down, left);
        count = count + self.weight_at(down, column);
        count = count + self.weight_at(down, right);
        count
    }

    /// Width of the grid, in cells.
    pub fn width(&self) -> (r: u32)
        ensures
            r == self@.width,
    {
        self.width
    }

    /// Height of the grid, in cells.
    pub fn height(&self) -> (r: u32)
        ensures
            r == self@.height,
    {
        self.height
    }

    /// State of the cell at `(row, column)`.
    pub fn cell_at(&self, row: u32, column: u32) -> (r: Cell)
        requires
            self.wf(),
            row < self@.height,
            column < self@.width,
        ensures
            r == self@.cells[index_of(self@.width, row as int, column as int)],
    {
        self.cells[self.get_index(row, column)]
    }

    /// The record of the last changes, as `(column, row, new state)`.
    pub fn changed_cells(&self) -> (r: &Vec<(u32, u32, Cell)>)
        ensures
            r@ == self@.changes,
    {
        &self.changed_cells
    }

    /// Empties the change record; the cells stay as they are.
    pub fn clear_changed_cells(&mut self)
        ensures
            final(self)@ == old(self)@.cleared(),
    {
        self.changed_cells.clear();
        proof {
            assert(self.changed_cells@ =~= Seq::<(u32, u32, Cell)>::empty());
        }
    }

    /// Advances one generation. Every cell's next state is computed from the
    /// current generation into a separate buffer, which then replaces the
    /// cells; the change record is replaced by the cells whose state changed.
    pub fn update(&mut self)
        requires
            old(self).wf(),
        ensures
            final(self).wf(),
            final(self)@ == old(self)@.stepped(),
    {
        let ghost before = self.cells@;
        let ghost w = self.width as int;
        let ghost h = self.height as int;
        let ghost target = next_generation(before, w, h);
        let mut next: Vec<Cell> = Vec::with_capacity((self.width * self.height) as usize);
        let mut changes: Vec<(u32, u32, Cell)> = Vec::new();
        let mut row: u32 = 0;
        while row < self.height
            invariant
                self@ == old(self)@,
                self.wf(),
                before == self.cells@,
                w == self.width,
                h == self.height,
                target == next_generation(before, w, h),
                row <= h,
                next@ == target.take(row * w),
                changes@ == change_record(before, target, w, row * w),
            decreases h - row,
        {
            let mut col: u32 = 0;
            while col < self.width
                invariant
                    self@ == old(self)@,
                    self.wf(),
                    before == self.cells@,
                    w == self.width,
                    h == self.height,
                    target == next_generation(before, w, h),
                    row < h,
                    col <= w,
                    next@ == target.take(row * w + col),
                    changes@ == change_record(before, target, w, row * w + col),
                decreases w - col,
            {
                let idx = self.get_index(row, col);
                let cell = self.cells[idx];
                let live_neighbors = self.live_neighbor_count(row, col);
                proof {
                    lemma_index_bound(w, h, row as int, col as int);
                }
                let next_cell = match cell {
                    // A live cell with fewer than two live neighbours dies.
                    Cell::Alive if live_neighbors < 2 => {
                        changes.push((col, row, Cell::Dead));
                        Cell::Dead
                    },
                    // A live cell with two or three live neighbours lives on.
                    Cell::Alive if live_neighbors <= 3 => Cell::Alive,
                    // A live cell with more than three live neighbours dies.
                    Cell::Alive => {
                        changes.push((col, row, Cell::Dead));
                        Cell::Dead
                    },
                    // A dead cell with exactly three live neighbours is born.
                    Cell::Dead if live_neighbors == 3 => {
                        changes.push((col, row, Cell::Alive));
                        Cell::Alive
                    },
                    // Every other cell stays as it is.
                    Cell::Dead => Cell::Dead,
                };
                next.push(next_cell);
                proof {
                    assert(next@ =~= target.take(row * w + col + 1));
                }
                col = col + 1;
            }
            proof {
                assert(row * w + w == (row + 1) * w) by (nonlinear_arith);
            }
            row = row + 1;
        }
        proof {
            assert(h * w == w * h) by (nonlinear_arith);
            assert(next@ =~= target);
        }
        self.cells = next;
        self.changed_cells = changes;
    }

    /// A universe of the given dimensions holding `cells` in row-major
    /// order. Its change record lists every live cell, so that a first
    /// drawing needs no step.
    pub fn from_cells(width: u32, height: u32, cells: Vec<Cell>) -> (u: Universe)
        requires
            0 < width,
            0 < height,
            width * height <= u32::MAX,
            cells@.len() == width * height,
        ensures
            u.wf(),
            u@.width == width,
            u@.height == height,
            u@.cells == cells@,
            u@.changes == change_record(all_dead(cells@.len()), cells@, width as int, cells@.len() as int),
    {
        let ghost w = width as int;
        let ghost h = height as int;
        let ghost dead = all_dead(cells@.len());
        let mut changed_cells: Vec<(u32, u32, Cell)> = Vec::new();
        let mut row: u32 = 0;
        while row < height
            invariant
                0 < w == width,
                h == height,
                width * height <= u32::MAX,
                cells@.len() == w * h,
                dead == all_dead(cells@.len()),
                row <= h,
                changed_cells@ == change_record(dead, cells@, w, row * w),
            decreases h - row,
        {
            let mut col: u32 = 0;
            while col < width
                invariant
                    0 < w == width,
                    h == height,
                    width * height <= u32::MAX,
                    cells@.len() == w * h,
                    dead == all_dead(cells@.len()),
                    row < h,
                    col <= w,
                    changed_cells@ == change_record(dead, cells@, w, row * w + col),
                decreases w - col,
            {
                proof {
                    lemma_index_bound(w, h, row as int, col as int);
                }
                let idx = (row * width + col) as usize;
                let cell = cells[idx];
                if cell == Cell::Alive {
                    changed_cells.push((col, row, Cell::Alive));
                }
                col = col + 1;
            }
            proof {
                assert(row * w + w == (row + 1) * w) by (nonlinear_arith);
            }
            row = row + 1;
        }
        proof {
            assert(h * w == w * h) by (nonlinear_arith);
        }
        Universe { width, height, cells, changed_cells }
    }

    /// A universe of the given dimensions seeded with the built-in pattern:
    /// the cell at index `i` starts alive when `i` is a multiple of 2 or 7.
    pub fn new(width: u32, height: u32) -> (u: Universe)
        requires
            0 < width,
            0 < height,
            width * height <= u32::MAX,
        ensures
            u.wf(),
            u@.width == width,
            u@.height == height,
            u@.cells == Seq::new((width * height) as nat, |i: int| seed_cell(i)),
            u@.changes == change_record(
                all_dead((width * height) as nat),
                u@.cells,
                width as int,
                width * height,
            ),
    {
        let n = width * height;
        let mut cells: Vec<Cell> = Vec::with_capacity(n as usize);
        let mut i: u32 = 0;
        while i < n
            invariant
                n == width * height,
                i <= n,
                cells@ == Seq::new(i as nat, |j: int| seed_cell(j)),
            decreases n - i,
        {
            let cell = if i % 2 == 0 || i % 7 == 0 {
                Cell::Alive
            } else {
                Cell::Dead
            };
            cells.push(cell);
            proof {
                assert(cells@ =~= Seq::new((i + 1) as nat, |j: int| seed_cell(j)));
            }
            i = i + 1;
        }
        Self::from_cells(width, height, cells)
    }
}


/// Every edge wraps to the opposite edge: the first row and the last row are
/// neighbours, as are the first and the last column, and each corner counts
/// the diagonally opposite corner.
pub proof fn lemma_toroidal_wraparound(h: int, w: int, row: int, column: int)
    requires
        0 < h,
        0 < w,
        0 <= row < h,
        0 <= column < w,
    ensures
        neighbors(h, w, 0, 0).contains((h - 1, w - 1)),
        neighbors(h, w, 0, w - 1).contains((h - 1, 0int)),
        neighbors(h, w, h - 1, 0).contains((0int, w - 1)),
        neighbors(h, w, h - 1, w - 1).contains((0int, 0int)),
        neighbors(h, w, 0, column).contains((h - 1, column)),
        neighbors(h, w, h - 1, column).contains((0int, column)),
        neighbors(h, w, row, 0).contains((row, w - 1)),
        neighbors(h, w, row, w - 1).contains((row, 0int)),
{
    lemma_wrap_steps(0, h);
    lemma_wrap_steps(h - 1, h);
    lemma_wrap_steps(0, w);
    lemma_wrap_steps(w - 1, w);
    lemma_wrap_steps(row, h);
    lemma_wrap_steps(column, w);
    assert(neighbors(h, w, 0, 0)[0] == (h - 1, w - 1));
    assert(neighbors(h, w, 0, w - 1)[2] == (h - 1, 0int));
    assert(neighbors(h, w, h - 1, 0)[5] == (0int, w - 1));
    assert(neighbors(h, w, h - 1, w - 1)[7] == (0int, 0int));
    assert(neighbors(h, w, 0, column)[1] == (h - 1, column));
    assert(neighbors(h, w, h - 1, column)[6] == (0int, column));
    assert(neighbors(h, w, row, 0)[3] == (row, w - 1));
    assert(neighbors(h, w, row, w - 1)[4] == (row, 0int));
}

/// A dead cell is born exactly when it has three live neighbours; with two or
/// four it stays dead.
pub proof fn lemma_birth_rule(m: LifeModel, row: int, column: int)
    requires
        m.wf(),
        0 <= row < m.height,
        0 <= column < m.width,
        m.cells[index_of(m.width, row, column)] == Cell::Dead,
    ensures
        ({
            let n = live_neighbors(m.cells, m.width, m.height, row, column);
            let next = m.stepped().cells[index_of(m.width, row, column)];
            &&& next == Cell::Alive <==> n == 3
            &&& (n == 2 || n == 4) ==> next == Cell::Dead
        }),
{
    lemma_index_bound(m.width, m.height, row, column);
}

/// A live cell with fewer than two live neighbours or more than three dies;
/// with two or three it survives.
pub proof fn lemma_death_rules(m: LifeModel, row: int, column: int)
    requires
        m.wf(),
        0 <= row < m.height,
        0 <= column < m.width,
        m.cells[index_of(m.width, row, column)] == Cell::Alive,
    ensures
        ({
            let n = live_neighbors(m.cells, m.width, m.height, row, column);
            let next = m.stepped().cells[index_of(m.width, row, column)];
            &&& n < 2 ==> next == Cell::Dead
            &&& n > 3 ==> next == Cell::Dead
            &&& (n == 2 || n == 3) ==> next == Cell::Alive
        }),
{
    lemma_index_bound(m.width, m.height, row, column);
}

/// Emptying the change record twice leaves the same state as once, and the
/// record is empty afterwards.
pub proof fn lemma_clear_idempotent(m: LifeModel)
    ensures
        m.cleared().cleared() == m.cleared(),
        m.cleared().changes.len() == 0,
{
}

/// Every generation keeps the dimensions and one cell per position.
pub proof fn lemma_size_invariant(m: LifeModel, k: nat)
    requires
        m.wf(),
    ensures
        m.steps(k).wf(),
        m.steps(k).width == m.width,
        m.steps(k).height == m.height,
        m.steps(k).cells.len() == m.width * m.height,
    decreases k,
{
    if k > 0 {
        lemma_size_invariant(m, (k - 1) as nat);
    }
}

/// Two universes with the same dimensions and the same cells have the same
/// cells after any equal number of generations.
pub proof fn lemma_determinism(a: LifeModel, b: LifeModel, k: nat)
    requires
        a.width == b.width,
        a.height == b.height,
        a.cells == b.cells,
    ensures
        a.steps(k).cells == b.steps(k).cells,
        a.steps(k).width == b.steps(k).width,
        a.steps(k).height == b.steps(k).height,
    decreases k,
{
    if k > 0 {
        lemma_determinism(a, b, (k - 1) as nat);
    }
}


proof fn lemma_record_members(before: Seq<Cell>, after: Seq<Cell>, w: int, k: int, e: (u32, u32, Cell))
    requires
        0 < w,
        0 <= k <= before.len(),
        k <= after.len(),
    ensures
        change_record(before, after, w, k).contains(e) <==> exists|i: int|
            0 <= i < k && before[i] != after[i] && e == ((i % w) as u32, (i / w) as u32, after[i]),
    decreases k,
{
    if k > 0 {
        let i = k - 1;
        let prev = change_record(before, after, w, k - 1);
        lemma_record_members(before, after, w, k - 1, e);
        if before[i] != after[i] {
            lemma_seq_contains_after_push(prev, ((i % w) as u32, (i / w) as u32, after[i]), e);
        }
    }
}

/// After a generation, the change record holds `(column, row, s)` exactly
/// when the cell at `(row, column)` changed state and `s` is its new state:
/// no cell is missing and none is extra.
pub proof fn lemma_change_record_exact(m: LifeModel, column: u32, row: u32, s: Cell)
    requires
        m.wf(),
    ensures
        ({
            let next = m.stepped();
            let i = index_of(m.width, row as int, column as int);
            next.changes.contains((column, row, s)) <==> (row < m.height && column < m.width
                && m.cells[i] != next.cells[i] && s == next.cells[i])
        }),
{
    let w = m.width;
    let h = m.height;
    let next = m.stepped();
    let n = w * h;
    let e = (column, row, s);
    lemma_record_members(m.cells, next.cells, w, n, e);
    if next.changes.contains(e) {
        let i = choose|i: int|
            0 <= i < n && m.cells[i] != next.cells[i] && e == ((i % w) as u32, (i / w) as u32, next.cells[i]);
        lemma_fundamental_div_mod(i, w);
        assert(0 <= i % w < w);
        assert(0 <= i / w < h) by (nonlinear_arith)
            requires
                i == w * (i / w) + i % w,
                0 <= i % w < w,
                0 <= i < w * h,
        ;
        assert(i == index_of(w, row as int, column as int)) by (nonlinear_arith)
            requires
                i == w * (i / w) + i % w,
                column == i % w,
                row == i / w,
        ;
    }
    if row < h && column < w {
        lemma_index_bound(w, h, row as int, column as int);
    }
}

} // verus!
