//! The board: a fixed rectangular domain and the set of its live cells.

use crate::cells::{Cell, CellSet};
use rand::seq::IteratorRandom;
use vstd::prelude::*;

verus! {

/// Whether `c` lies in `[0, cols) x [0, rows)`.
pub open spec fn in_bounds(c: Cell, cols: int, rows: int) -> bool {
    0 <= c.0 < cols && 0 <= c.1 < rows
}

/// 1 when `(x, y)` is a coordinate of `live`, else 0.
pub open spec fn occupied(live: Set<Cell>, x: int, y: int) -> nat {
    if i32::MIN <= x <= i32::MAX && i32::MIN <= y <= i32::MAX && live.contains(
        (x as i32, y as i32),
    ) {
        1
    } else {
        0
    }
}

/// Number of live cells among the eight cells around `c` (Moore neighbourhood).
pub open spec fn live_neighbours(live: Set<Cell>, c: Cell) -> nat {
    let (x, y) = (c.0 as int, c.1 as int);
    occupied(live, x - 1, y - 1) + occupied(live, x - 1, y) + occupied(live, x - 1, y + 1)
        + occupied(live, x, y - 1) + occupied(live, x, y + 1) + occupied(live, x + 1, y - 1)
        + occupied(live, x + 1, y) + occupied(live, x + 1, y + 1)
}

/// Conway's rule: a live cell survives with 2 or 3 live neighbours, a dead
/// cell is born with exactly 3.
pub open spec fn lives_next(alive: bool, neighbours: nat) -> bool {
    if alive {
        neighbours == 2 || neighbours == 3
    } else {
        neighbours == 3
    }
}

/// The generation that follows `live` on a `cols x rows` board.
pub open spec fn next_cells(live: Set<Cell>, cols: int, rows: int) -> Set<Cell> {
    Set::new(
        |c: Cell| in_bounds(c, cols, rows) && lives_next(live.contains(c), live_neighbours(live, c)),
    )
}

/// Whether `a` is `b` or one of its eight neighbours.
pub open spec fn near(a: Cell, b: Cell) -> bool {
    -1 <= a.0 - b.0 <= 1 && -1 <= a.1 - b.1 <= 1
}

/// A cell alive in the next generation is a live cell or a neighbour of one.
proof fn lemma_next_cell_is_near_live(live: Set<Cell>, cols: int, rows: int, c: Cell)
    requires
        next_cells(live, cols, rows).contains(c),
    ensures
        exists|m: Cell| live.contains(m) && near(c, m),
{
    let (x, y) = (c.0 as int, c.1 as int);
    if live.contains(c) {
        assert(near(c, c));
    } else if occupied(live, x - 1, y - 1) == 1 {
        assert(near(c, ((x - 1) as i32, (y - 1) as i32)));
    } else if occupied(live, x - 1, y) == 1 {
        assert(near(c, ((x - 1) as i32, y as i32)));
    } else if occupied(live, x - 1, y + 1) == 1 {
        assert(near(c, ((x - 1) as i32, (y + 1) as i32)));
    } else if occupied(live, x, y - 1) == 1 {
        assert(near(c, (x as i32, (y - 1) as i32)));
    } else if occupied(live, x, y + 1) == 1 {
        assert(near(c, (x as i32, (y + 1) as i32)));
    } else if occupied(live, x + 1, y - 1) == 1 {
        assert(near(c, ((x + 1) as i32, (y - 1) as i32)));
    } else if occupied(live, x + 1, y) == 1 {
        assert(near(c, ((x + 1) as i32, y as i32)));
    } else {
        assert(occupied(live, x + 1, y + 1) == 1);
        assert(near(c, ((x + 1) as i32, (y + 1) as i32)));
    }
}

/// The generation reached from `live` after `k` steps.
pub open spec fn generations(live: Set<Cell>, cols: int, rows: int, k: nat) -> Set<Cell>
    decreases k,
{
    if k == 0 {
        live
    } else {
        next_cells(generations(live, cols, rows, (k - 1) as nat), cols, rows)
    }
}

/// The glyph of one cell: `*` when alive, `#` when dead.
pub open spec fn glyph(live: Set<Cell>, x: int, y: int) -> char {
    if occupied(live, x, y) == 1 {
        '*'
    } else {
        '#'
    }
}

/// Line `x` of the grid: the glyphs of cells `(x, 0)` to `(x, rows - 1)`, then
/// a line break.
pub open spec fn grid_line(live: Set<Cell>, x: int, rows: nat) -> Seq<char> {
    Seq::new(rows, |y: int| glyph(live, x, y)).push('\n')
}

/// Lines `0` to `lines - 1` of the grid.
pub open spec fn grid_lines(live: Set<Cell>, lines: nat, rows: nat) -> Seq<char>
    decreases lines,
{
    if lines == 0 {
        Seq::empty()
    } else {
        grid_lines(live, (lines - 1) as nat, rows) + grid_line(live, lines - 1, rows)
    }
}

/// A line of `n` `=` characters.
pub open spec fn separator(n: nat) -> Seq<char> {
    Seq::new(n, |i: int| '=')
}

/// The text of a board: a separator line, one line per column index, another
/// separator line and a blank line.
pub open spec fn rendering(live: Set<Cell>, cols: nat, rows: nat) -> Seq<char> {
    separator(cols).push('\n') + grid_lines(live, cols, rows) + separator(cols).push('\n').push(
        '\n',
    )
}

fn append_separator(s: &mut String, n: u32)
    ensures
        final(s)@ == old(s)@ + separator(n as nat).push('\n'),
{
    let mut i: u32 = 0;
    while i < n
        invariant
            i <= n,
            s@ == old(s)@ + separator(i as nat),
        decreases n - i,
    {
        proof {
            reveal_strlit("=");
        }
        s.append("=");
        assert(old(s)@ + separator((i + 1) as nat) =~= old(s)@ + separator(i as nat) + "="@);
        i = i + 1;
    }
    proof {
        reveal_strlit("\n");
    }
    s.append("\n");
}

/// Why a board could not be seeded.
#[derive(Debug, Clone, Copy, PartialEq, Eq, Structural)]
pub enum SeedError {
    /// More live cells were asked for than the board has cells.
    TooManyPoints,
}

/// Lexicographic order on cells.
pub open spec fn cell_before(a: Cell, b: Cell) -> bool {
    a.0 < b.0 || (a.0 == b.0 && a.1 < b.1)
}

/// Every cell of a `cols x rows` board, each once.
fn all_cells(cols: u32, rows: u32) -> (r: Vec<Cell>)
    requires
        cols <= i32::MAX,
        rows <= i32::MAX,
    ensures
        r@.len() == cols as int * rows as int,
        r@.no_duplicates(),
        forall|i: int| 0 <= i < r@.len() ==> in_bounds(#[trigger] r@[i], cols as int, rows as int),
{
    let mut r: Vec<Cell> = Vec::new();
    let mut x: u32 = 0;
    while x < cols
        invariant
            cols <= i32::MAX,
            rows <= i32::MAX,
            x <= cols,
            r@.len() == x as int * rows as int,
            r@.no_duplicates(),
            forall|i: int|
                0 <= i < r@.len() ==> in_bounds(#[trigger] r@[i], cols as int, rows as int)
                    && cell_before(r@[i], (x as i32, 0i32)),
        decreases cols - x,
    {
        let mut y: u32 = 0;
        while y < rows
            invariant
                cols <= i32::MAX,
                rows <= i32::MAX,
                x < cols,
                y <= rows,
                r@.len() == x as int * rows as int + y,
                r@.no_duplicates(),
                forall|i: int|
                    0 <= i < r@.len() ==> in_bounds(#[trigger] r@[i], cols as int, rows as int)
                        && cell_before(r@[i], (x as i32, y as i32)),
            decreases rows - y,
        {
            let c: Cell = (x as i32, y as i32);
            assert(!r@.contains(c)) by {
                if r@.contains(c) {
                    let i = choose|i: int| 0 <= i < r@.len() && r@[i] == c;
                    assert(cell_before(r@[i], c));
                }
            }
            r.push(c);
            y = y + 1;
        }
        assert((x + 1) as int * rows as int == x as int * rows as int + rows) by (nonlinear_arith);
        x = x + 1;
    }
    r
}

/// Relies on rand's `IteratorRandom::choose_multiple`: it returns
/// `min(amount, pool.len())` items of `pool`, each taken from a distinct
/// position, in an order left to chance.
#[verifier::external_body]
fn choose_multiple_cells(pool: Vec<Cell>, amount: usize) -> (r: Vec<Cell>)
    ensures
        r@.len() == if amount <= pool@.len() { amount as int } else { pool@.len() as int },
        forall|i: int| 0 <= i < r@.len() ==> pool@.contains(#[trigger] r@[i]),
        pool@.no_duplicates() ==> r@.no_duplicates(),
{
    pool.into_iter().choose_multiple(&mut rand::thread_rng(), amount)
}

/// The board's live cells, order irrelevant, and its fixed size.
pub struct Board {
    pub cells: CellSet,
    pub cols: u32,
    pub rows: u32,
}

impl View for Board {
    type V = Set<Cell>;

    open spec fn view(&self) -> Set<Cell> {
        self.cells@
    }
}

impl Board {
    /// Coordinates fit in `i32`, and every live cell lies on the board.
    pub open spec fn wf(&self) -> bool {
        &&& self.cols <= i32::MAX
        &&& self.rows <= i32::MAX
        &&& self@.finite()
        &&& forall|c: Cell| #[trigger] self@.contains(c) ==> in_bounds(c, self.cols as int, self.rows as int)
    }

    /// Creates an empty board of `c` columns and `r` rows.
    pub fn new(c: u32, r: u32) -> (b: Board)
        requires
            c <= i32::MAX,
            r <= i32::MAX,
        ensures
            b.wf(),
            b.cols == c,
            b.rows == r,
            b@ == Set::<Cell>::empty(),
    {
        Board { cols: c, rows: r, cells: CellSet::new() }
    }

    /// Whether `cell` is alive; false for any coordinate off the board.
    pub fn is_cell_alive(&self, cell: Cell) -> (r: bool)
        ensures
            r == self@.contains(cell),
    {
        self.cells.contains(cell)
    }

    /// Installs `space` as the new set of live cells.
    pub fn update(&mut self, space: CellSet)
        requires
            old(self).wf(),
            forall|c: Cell| #[trigger]
                space@.contains(c) ==> in_bounds(c, old(self).cols as int, old(self).rows as int),
        ensures
            final(self).wf(),
            final(self)@ == space@,
            final(self).cols == old(self).cols,
            final(self).rows == old(self).rows,
    {
        space.len();
        self.cells = space;
    }

    fn occupied_at(&self, x: i64, y: i64) -> (r: usize)
        ensures
            r == occupied(self@, x as int, y as int),
    {
        if i32::MIN as i64 <= x && x <= i32::MAX as i64 && i32::MIN as i64 <= y && y
            <= i32::MAX as i64 && self.cells.contains((x as i32, y as i32)) {
            1
        } else {
            0
        }
    }

    /// Number of live cells among the eight around `point`; total for every
    /// coordinate, including those on or past the board's edge.
    pub fn neighbours(&self, point: Cell) -> (r: usize)
        ensures
            r == live_neighbours(self@, point),
    {
        let x = point.0 as i64;
        let y = point.1 as i64;
        self.occupied_at(x - 1, y - 1) + self.occupied_at(x - 1, y) + self.occupied_at(x - 1, y + 1)
            + self.occupied_at(x, y - 1) + self.occupied_at(x, y + 1) + self.occupied_at(x + 1, y - 1)
            + self.occupied_at(x + 1, y) + self.occupied_at(x + 1, y + 1)
    }

    /// The set of live cells.
    pub fn get_cells(&self) -> (r: &CellSet)
        ensures
            r@ == self@,
    {
        &self.cells
    }

    /// The number of live cells.
    pub fn alive_cells(&self) -> (r: usize)
        ensures
            r == self@.len(),
    {
        self.cells.len()
    }

    /// Replaces the live cells with `n` distinct cells of the board chosen at
    /// random; fails, leaving the board as it is, when `n` exceeds the number of
    /// cells of the board.
    pub fn create_random_points(&mut self, n: u32) -> (r: Result<(), SeedError>)
        requires
            old(self).wf(),
        ensures
            final(self).wf(),
            final(self).cols == old(self).cols,
            final(self).rows == old(self).rows,
            r is Err <==> n as int > old(self).cols as int * old(self).rows as int,
            r is Err ==> r == Err::<(), SeedError>(SeedError::TooManyPoints) && final(self)@ == old(self)@,
            r is Ok ==> final(self)@.len() == n,
    {
        assert(self.cols as int * self.rows as int <= 2147483647 * 2147483647) by (nonlinear_arith)
            requires
                self.cols <= 2147483647,
                self.rows <= 2147483647,
        ;
        let capacity: u64 = self.cols as u64 * self.rows as u64;
        if n as u64 > capacity {
            return Err(SeedError::TooManyPoints);
        }
        let pool = all_cells(self.cols, self.rows);
        let chosen = choose_multiple_cells(pool, n as usize);
        let mut cells = CellSet::new();
        let mut i: usize = 0;
        while i < chosen.len()
            invariant
                i <= chosen@.len(),
                chosen@.len() == n,
                cells@ == chosen@.take(i as int).to_set(),
                forall|k: int| 0 <= k < chosen@.len() ==> in_bounds(#[trigger] chosen@[k], self.cols as int, self.rows as int),
            decreases chosen@.len() - i,
        {
            cells.insert(chosen[i]);
            assert(chosen@.take(i + 1) == chosen@.take(i as int).push(chosen@[i as int]));
            proof {
                chosen@.take(i as int).lemma_push_to_set_commute(chosen@[i as int]);
            }
            i = i + 1;
        }
        proof {
            assert(chosen@.take(i as int) == chosen@);
            chosen@.unique_seq_to_set();
            assert forall|c: Cell| #[trigger] cells@.contains(c) implies in_bounds(c, self.cols as int, self.rows as int) by {
                let k = choose|k: int| 0 <= k < chosen@.len() && chosen@[k] == c;
            }
        }
        self.update(cells);
        Ok(())
    }

    /// The glyph printed at column `j` of line `i`: a line break when `j` is
    /// `rows`, else `*` for a live cell and `#` for a dead one.
    pub fn get_character(&self, i: u32, j: u32) -> (r: &str)
        ensures
            j == self.rows ==> r@ == "\n"@,
            j != self.rows && i <= i32::MAX && j <= i32::MAX && self@.contains((i as i32, j as i32))
                ==> r@ == "*"@,
            j != self.rows && !(i <= i32::MAX && j <= i32::MAX && self@.contains((i as i32, j as i32)))
                ==> r@ == "#"@,
    {
        if j == self.rows {
            return "\n";
        }
        if i <= i32::MAX as u32 && j <= i32::MAX as u32 && self.cells.contains((i as i32, j as i32)) {
            "*"
        } else {
            "#"
        }
    }

    /// The board as text, see `rendering`.
    pub fn render(&self) -> (r: String)
        requires
            self.wf(),
        ensures
            r@ == rendering(self@, self.cols as nat, self.rows as nat),
    {
        let mut s = String::new();
        append_separator(&mut s, self.cols);
        let ghost head = s@;
        let mut i: u32 = 0;
        while i < self.cols
            invariant
                self.wf(),
                i <= self.cols,
                s@ == head + grid_lines(self@, i as nat, self.rows as nat),
            decreases self.cols - i,
        {
            let ghost line_start = s@;
            let mut j: u32 = 0;
            while j <= self.rows
                invariant
                    self.wf(),
                    i < self.cols,
                    j <= self.rows + 1,
                    s@ == line_start + if j <= self.rows {
                        Seq::new(j as nat, |y: int| glyph(self@, i as int, y))
                    } else {
                        grid_line(self@, i as int, self.rows as nat)
                    },
                decreases self.rows + 1 - j,
            {
                let g = self.get_character(i, j);
                proof {
                    reveal_strlit("\n");
                    reveal_strlit("*");
                    reveal_strlit("#");
                }
                s.append(g);
                if j < self.rows {
                    assert(Seq::new((j + 1) as nat, |y: int| glyph(self@, i as int, y)) =~= Seq::new(
                        j as nat,
                        |y: int| glyph(self@, i as int, y),
                    ) + g@);
                } else {
                    assert(grid_line(self@, i as int, self.rows as nat) =~= Seq::new(
                        j as nat,
                        |y: int| glyph(self@, i as int, y),
                    ) + g@);
                }
                j = j + 1;
            }
            assert(head + grid_lines(self@, (i + 1) as nat, self.rows as nat) =~= head + grid_lines(
                self@,
                i as nat,
                self.rows as nat,
            ) + grid_line(self@, i as int, self.rows as nat));
            i = i + 1;
        }
        append_separator(&mut s, self.cols);
        proof {
            reveal_strlit("\n");
        }
        s.append("\n");
        assert(s@ =~= rendering(self@, self.cols as nat, self.rows as nat));
        s
    }

    /// Adds `(x, y)` to `out` when it lies on the board and lives in the next
    /// generation.
    fn consider(&self, out: &mut CellSet, x: i64, y: i64)
        requires
            self.wf(),
        ensures
            forall|c: Cell| #[trigger]
                final(out)@.contains(c) <==> (old(out)@.contains(c) || (c.0 as int == x as int
                    && c.1 as int == y as int && next_cells(
                    self@,
                    self.cols as int,
                    self.rows as int,
                ).contains(c))),
    {
        if 0 <= x && x < self.cols as i64 && 0 <= y && y < self.rows as i64 {
            let c: Cell = (x as i32, y as i32);
            let n = self.neighbours(c);
            let alive = self.cells.contains(c);
            if (alive && (n == 2 || n == 3)) || (!alive && n == 3) {
                out.insert(c);
            }
        }
    }

    /// Computes the next generation from the current one, which is left as it
    /// is. Only live cells and their neighbours are evaluated: no other cell
    /// can be alive in the next generation.
    pub fn next_generation(&self) -> (r: CellSet)
        requires
            self.wf(),
        ensures
            r@ == next_cells(self@, self.cols as int, self.rows as int),
    {
        let ghost next = next_cells(self@, self.cols as int, self.rows as int);
        let live = self.cells.to_vec();
        let mut out = CellSet::new();
        let mut i: usize = 0;
        while i < live.len()
            invariant
                self.wf(),
                next == next_cells(self@, self.cols as int, self.rows as int),
                i <= live@.len(),
                forall|c: Cell| #[trigger]
                    out@.contains(c) <==> (next.contains(c) && exists|j: int|
                        0 <= j < i && #[trigger] near(c, live@[j])),
            decreases live@.len() - i,
        {
            let l = live[i];
            let ghost before = out@;
            let (x, y) = (l.0 as i64, l.1 as i64);
            self.consider(&mut out, x - 1, y - 1);
            self.consider(&mut out, x - 1, y);
            self.consider(&mut out, x - 1, y + 1);
            self.consider(&mut out, x, y - 1);
            self.consider(&mut out, x, y);
            self.consider(&mut out, x, y + 1);
            self.consider(&mut out, x + 1, y - 1);
            self.consider(&mut out, x + 1, y);
            self.consider(&mut out, x + 1, y + 1);
            assert forall|c: Cell| #[trigger]
                out@.contains(c) <==> (next.contains(c) && exists|j: int|
                    0 <= j < i + 1 && #[trigger] near(c, live@[j])) by {
                if out@.contains(c) && !before.contains(c) {
                    assert(near(c, live@[i as int]));
                }
                if next.contains(c) && near(c, l) {
                    assert(out@.contains(c));
                }
                if exists|j: int| 0 <= j < i + 1 && #[trigger] near(c, live@[j]) {
                    let j = choose|j: int| 0 <= j < i + 1 && #[trigger] near(c, live@[j]);
                    if j < i {
                        assert(exists|j: int| 0 <= j < i && #[trigger] near(c, live@[j]));
                    }
                }
            }
            i = i + 1;
        }
        assert forall|c: Cell| #[trigger] out@.contains(c) <==> next.contains(c) by {
            if next.contains(c) {
                lemma_next_cell_is_near_live(self@, self.cols as int, self.rows as int, c);
                let m = choose|m: Cell| self@.contains(m) && near(c, m);
                assert(live@.to_set().contains(m));
                let j = choose|j: int| 0 <= j < live@.len() && live@[j] == m;
                assert(near(c, live@[j]));
            }
        }
        assert(out@ =~= next);
        out
    }
}

} // verus!
