use vstd::prelude::*;

use vstd::arithmetic::div_mod::{lemma_mod_multiples_vanish, lemma_small_mod};
use vstd::string::*;

use crate::cell::{glyph, next_kind, Cell, CellKind};

verus! {

/// A square grid of cells, stored row by row.
#[derive(Clone, PartialEq, Debug)]
pub struct Universe {
    pub size: usize,
    pub cells: Vec<Vec<Cell>>,
}

/// Why a universe could not be made.
#[derive(Clone, Copy, PartialEq, Eq, Structural, Debug)]
pub enum UniverseError {
    /// The requested side length is not positive.
    InvalidSize,
}

/// `g` has exactly `n` rows of exactly `n` cells each.
pub open spec fn is_square(g: Seq<Seq<Cell>>, n: int) -> bool {
    &&& g.len() == n
    &&& forall|i: int| 0 <= i < n ==> (#[trigger] g[i]).len() == n
}

/// `(x, y)` addresses a cell of an `n` by `n` grid.
pub open spec fn in_grid(n: int, x: int, y: int) -> bool {
    0 <= x < n && 0 <= y < n
}

/// 1 when `(x, y)` lies in the grid and holds a live cell, 0 otherwise.
pub open spec fn alive_at(g: Seq<Seq<Cell>>, n: int, x: int, y: int) -> int {
    if in_grid(n, x, y) && g[x][y].kind == CellKind::ALIVE {
        1
    } else {
        0
    }
}

/// 1 when `(x, y)` lies in the grid, 0 otherwise.
pub open spec fn position_at(n: int, x: int, y: int) -> int {
    if in_grid(n, x, y) {
        1
    } else {
        0
    }
}

/// Live cells among the eight positions around `(i, j)`; positions off the
/// grid count as empty (the grid does not wrap).
pub open spec fn live_neighbours(g: Seq<Seq<Cell>>, n: int, i: int, j: int) -> int {
    alive_at(g, n, i - 1, j - 1) + alive_at(g, n, i - 1, j) + alive_at(g, n, i - 1, j + 1)
        + alive_at(g, n, i + 1, j + 1) + alive_at(g, n, i + 1, j) + alive_at(g, n, i + 1, j - 1)
        + alive_at(g, n, i, j + 1) + alive_at(g, n, i, j - 1)
}

/// How many of the eight positions around `(i, j)` lie in the grid.
pub open spec fn neighbour_positions(n: int, i: int, j: int) -> int {
    position_at(n, i - 1, j - 1) + position_at(n, i - 1, j) + position_at(n, i - 1, j + 1)
        + position_at(n, i + 1, j + 1) + position_at(n, i + 1, j) + position_at(n, i + 1, j - 1)
        + position_at(n, i, j + 1) + position_at(n, i, j - 1)
}

/// The generation after `g`: every cell takes its next state from `g` alone.
pub open spec fn next_generation(g: Seq<Seq<Cell>>, n: int) -> Seq<Seq<Cell>> {
    Seq::new(
        n as nat,
        |i: int|
            Seq::new(
                n as nat,
                |j: int| Cell { kind: next_kind(g[i][j].kind, live_neighbours(g, n, i, j)) },
            ),
    )
}

/// Cells of kind `k` in the row `r`.
pub open spec fn count_in_row(r: Seq<Cell>, k: CellKind) -> nat
    decreases r.len(),
{
    if r.len() == 0 {
        0
    } else {
        count_in_row(r.drop_last(), k) + if r.last().kind == k {
            1nat
        } else {
            0nat
        }
    }
}

/// Cells of kind `k` in the whole grid `g`.
pub open spec fn count_in_grid(g: Seq<Seq<Cell>>, k: CellKind) -> nat
    decreases g.len(),
{
    if g.len() == 0 {
        0
    } else {
        count_in_grid(g.drop_last(), k) + count_in_row(g.last(), k)
    }
}

proof fn lemma_count_in_row_split(r: Seq<Cell>)
    ensures
        count_in_row(r, CellKind::ALIVE) + count_in_row(r, CellKind::DEAD) == r.len(),
    decreases r.len(),
{
    if r.len() > 0 {
        lemma_count_in_row_split(r.drop_last());
    }
}

/// The grid after `k` generations, starting from `g`.
pub open spec fn generation_after(g: Seq<Seq<Cell>>, n: int, k: nat) -> Seq<Seq<Cell>>
    decreases k,
{
    if k == 0 {
        g
    } else {
        next_generation(generation_after(g, n, (k - 1) as nat), n)
    }
}

proof fn lemma_generation_after_square(g: Seq<Seq<Cell>>, n: int, k: nat)
    requires
        n >= 0,
        is_square(g, n),
    ensures
        is_square(generation_after(g, n, k), n),
    decreases k,
{
    if k > 0 {
        lemma_generation_after_square(g, n, (k - 1) as nat);
    }
}

/// Every cell is either alive or dead: before any tick and after any number
/// `ticks` of them, the live and the dead cells add up to `size * size`.
pub proof fn lemma_counts_cover_grid(u: &Universe, ticks: nat)
    requires
        u.wf(),
    ensures
        count_in_grid(generation_after(u.grid(), u.size as int, ticks), CellKind::ALIVE)
            + count_in_grid(generation_after(u.grid(), u.size as int, ticks), CellKind::DEAD) == u.size
            * u.size,
{
    let n = u.size as int;
    let g = generation_after(u.grid(), n, ticks);
    lemma_generation_after_square(u.grid(), n, ticks);
    lemma_counts_split_rows(g, n);
}

/// Whether `x` is the first or the last index of an `n`-wide axis.
pub open spec fn on_border(n: int, x: int) -> bool {
    x == 0 || x == n - 1
}

/// The neighbourhood is bounded, not wrapped: in a grid of side two or more a
/// corner cell has exactly 3 neighbour positions, an edge cell that is not a
/// corner 5, an interior cell 8; and the live neighbours of a cell never
/// exceed its positions in the grid.
pub proof fn lemma_neighbour_positions(g: Seq<Seq<Cell>>, n: int, i: int, j: int)
    requires
        n >= 2,
        in_grid(n, i, j),
    ensures
        on_border(n, i) && on_border(n, j) ==> neighbour_positions(n, i, j) == 3,
        on_border(n, i) != on_border(n, j) ==> neighbour_positions(n, i, j) == 5,
        !on_border(n, i) && !on_border(n, j) ==> neighbour_positions(n, i, j) == 8,
        0 <= live_neighbours(g, n, i, j) <= neighbour_positions(n, i, j),
{
}

/// Advancing depends on the current cells alone: two universes of one size
/// that hold the same cells advance to the same cells.
pub proof fn lemma_tick_deterministic(a: &Universe, b: &Universe)
    requires
        a.wf(),
        b.wf(),
        a.size == b.size,
        a.grid() == b.grid(),
    ensures
        next_generation(a.grid(), a.size as int) == next_generation(b.grid(), b.size as int),
{
}

proof fn lemma_counts_split_rows(g: Seq<Seq<Cell>>, n: int)
    requires
        n >= 0,
        forall|i: int| 0 <= i < g.len() ==> (#[trigger] g[i]).len() == n,
    ensures
        count_in_grid(g, CellKind::ALIVE) + count_in_grid(g, CellKind::DEAD) == g.len() * n,
    decreases g.len(),
{
    if g.len() > 0 {
        let h = g.drop_last();
        assert forall|i: int| 0 <= i < h.len() implies (#[trigger] h[i]).len() == n by {
            assert(h[i] == g[i]);
        }
        lemma_counts_split_rows(h, n);
        lemma_count_in_row_split(g.last());
        assert((g.len() - 1) * n + n == g.len() * n) by (nonlinear_arith);
    }
}

/// The text of one row: the glyphs of its cells, in column order.
pub open spec fn render_row(r: Seq<Cell>) -> Seq<char>
    decreases r.len(),
{
    if r.len() == 0 {
        Seq::empty()
    } else {
        render_row(r.drop_last()) + glyph(r.last().kind)
    }
}

/// The text of a grid: each row's text followed by a newline, in row order.
pub open spec fn render_grid(g: Seq<Seq<Cell>>) -> Seq<char>
    decreases g.len(),
{
    if g.len() == 0 {
        Seq::empty()
    } else {
        render_grid(g.drop_last()) + render_row(g.last()) + seq!['\n']
    }
}

proof fn lemma_render_row_shape(r: Seq<Cell>)
    ensures
        render_row(r).len() == 2 * r.len(),
        forall|p: int| 0 <= p < render_row(r).len() ==> #[trigger] render_row(r)[p] != '\n',
    decreases r.len(),
{
    if r.len() > 0 {
        lemma_render_row_shape(r.drop_last());
    }
}

/// The text of a universe of side `n` is `n` lines, each of `2 * n` characters
/// (a glyph and a space per cell) followed by a newline: its length is
/// `n * (2 * n + 1)` and a character is a newline exactly where it ends a line.
pub proof fn lemma_render_lines(u: &Universe)
    requires
        u.wf(),
    ensures
        render_grid(u.grid()).len() == u.size * (2 * u.size + 1),
        forall|p: int|
            0 <= p < render_grid(u.grid()).len() ==> (#[trigger] render_grid(u.grid())[p] == '\n'
                <==> p % (2 * u.size + 1) == 2 * u.size),
{
    lemma_render_rows(u.grid(), u.size as int);
}

proof fn lemma_render_rows(g: Seq<Seq<Cell>>, n: int)
    requires
        n >= 0,
        forall|i: int| 0 <= i < g.len() ==> (#[trigger] g[i]).len() == n,
    ensures
        render_grid(g).len() == g.len() * (2 * n + 1),
        forall|p: int|
            0 <= p < render_grid(g).len() ==> (#[trigger] render_grid(g)[p] == '\n' <==> p % (2 * n
                + 1) == 2 * n),
    decreases g.len(),
{
    let w = 2 * n + 1;
    if g.len() > 0 {
        let h = g.drop_last();
        let m: int = h.len() as int;
        assert forall|i: int| 0 <= i < h.len() implies (#[trigger] h[i]).len() == n by {
            assert(h[i] == g[i]);
        }
        lemma_render_rows(h, n);
        lemma_render_row_shape(g.last());
        assert(m * w + w == g.len() * w) by (nonlinear_arith)
            requires
                m == g.len() - 1,
        ;
        assert forall|p: int| 0 <= p < render_grid(g).len() implies (#[trigger] render_grid(g)[p]
            == '\n' <==> p % w == 2 * n) by {
            if p < m * w {
                assert(render_grid(g)[p] == render_grid(h)[p]);
            } else {
                let q = p - m * w;
                lemma_mod_multiples_vanish(m, q, w);
                lemma_small_mod(q as nat, w as nat);
                assert(w * m + q == p) by (nonlinear_arith)
                    requires
                        q == p - m * w,
                ;
                if q < 2 * n {
                    assert(render_grid(g)[p] == render_row(g.last())[q]);
                }
            }
        }
    }
}

impl Universe {
    /// The cells as a sequence of rows.
    pub open spec fn grid(&self) -> Seq<Seq<Cell>> {
        self.cells@.map_values(|r: Vec<Cell>| r@)
    }

    /// The side length is positive and the cells form a `size` by `size` square.
    pub open spec fn wf(&self) -> bool {
        &&& self.size > 0
        &&& is_square(self.grid(), self.size as int)
    }

    /// A `size` by `size` universe of randomly initialised cells, or
    /// `InvalidSize` when `size` is zero.
    pub fn new(size: usize) -> (r: Result<Universe, UniverseError>)
        ensures
            size == 0 <==> r is Err,
            r matches Err(e) ==> e == UniverseError::InvalidSize,
            r matches Ok(u) ==> u.wf() && u.size == size,
    {
        if size == 0 {
            return Err(UniverseError::InvalidSize);
        }
        let mut cells: Vec<Vec<Cell>> = Vec::new();
        let mut i: usize = 0;
        while i < size
            invariant
                i <= size,
                cells@.len() == i,
                forall|k: int| 0 <= k < i ==> (#[trigger] cells@[k])@.len() == size,
            decreases size - i,
        {
            let mut row: Vec<Cell> = Vec::new();
            let mut j: usize = 0;
            while j < size
                invariant
                    j <= size,
                    row@.len() == j,
                decreases size - j,
            {
                row.push(Cell::new());
                j = j + 1;
            }
            cells.push(row);
            i = i + 1;
        }
        let u = Universe { size, cells };
        assert(is_square(u.grid(), size as int));
        Ok(u)
    }

    /// Number of live cells.
    pub fn alive_cells(&self) -> (r: i32)
        requires
            self.wf(),
            self.size * self.size <= i32::MAX,
        ensures
            r == count_in_grid(self.grid(), CellKind::ALIVE),
    {
        self.count_cell_kinds(CellKind::ALIVE)
    }

    /// Number of dead cells.
    pub fn dead_cells(&self) -> (r: i32)
        requires
            self.wf(),
            self.size * self.size <= i32::MAX,
        ensures
            r == count_in_grid(self.grid(), CellKind::DEAD),
    {
        self.count_cell_kinds(CellKind::DEAD)
    }

    fn count_cell_kinds(&self, kind: CellKind) -> (r: i32)
        requires
            self.wf(),
            self.size * self.size <= i32::MAX,
        ensures
            r == count_in_grid(self.grid(), kind),
    {
        let ghost g = self.grid();
        let ghost n = self.size as int;
        let mut total: i32 = 0;
        let mut i: usize = 0;
        while i < self.size
            invariant
                self.wf(),
                g == self.grid(),
                n == self.size,
                n * n <= i32::MAX,
                i <= n,
                total == count_in_grid(g.take(i as int), kind),
                total <= i * n,
            decreases self.size - i,
        {
            let row = &self.cells[i];
            assert(row@ == g[i as int]);
            let mut row_total: i32 = 0;
            let mut j: usize = 0;
            while j < self.size
                invariant
                    self.wf(),
                    g == self.grid(),
                    n == self.size,
                    n * n <= i32::MAX,
                    i < n,
                    j <= n,
                    row@ == g[i as int],
                    total <= i * n,
                    row_total == count_in_row(row@.take(j as int), kind),
                    row_total <= j,
                decreases self.size - j,
            {
                proof {
                    assert((i + 1) * n <= n * n) by (nonlinear_arith)
                        requires
                            i < n,
                            n >= 0,
                    ;
                    assert((i + 1) * n == i * n + n) by (nonlinear_arith);
                }
                assert(row@.take(j + 1).drop_last() =~= row@.take(j as int));
                if row[j].kind == kind {
                    row_total = row_total + 1;
                }
                j = j + 1;
            }
            assert(row@.take(n) =~= row@);
            assert(g.take(i + 1).drop_last() =~= g.take(i as int));
            proof {
                assert((i + 1) * n == i * n + n) by (nonlinear_arith);
                assert((i + 1) * n <= n * n) by (nonlinear_arith)
                    requires
                        i < n,
                        n >= 0,
                ;
            }
            total = total + row_total;
            i = i + 1;
        }
        assert(g.take(n) =~= g);
        total
    }

    /// The grid as text: one line per row, each cell's glyph in column order,
    /// each line ended by a newline.
    pub fn render(&self) -> (s: String)
        requires
            self.wf(),
        ensures
            s@ == render_grid(self.grid()),
    {
        let ghost g = self.grid();
        let mut s = String::new();
        let mut i: usize = 0;
        while i < self.size
            invariant
                self.wf(),
                g == self.grid(),
                i <= self.size,
                s@ == render_grid(g.take(i as int)),
            decreases self.size - i,
        {
            let row = &self.cells[i];
            assert(row@ == g[i as int]);
            let ghost before = s@;
            let mut j: usize = 0;
            while j < self.size
                invariant
                    self.wf(),
                    g == self.grid(),
                    i < self.size,
                    j <= self.size,
                    row@ == g[i as int],
                    s@ == before + render_row(row@.take(j as int)),
                decreases self.size - j,
            {
                assert(row@.take(j + 1).drop_last() =~= row@.take(j as int));
                let text = row[j].render();
                s.append(text.as_str());
                j = j + 1;
                assert(s@ =~= before + render_row(row@.take(j as int)));
            }
            assert(row@.take(j as int) =~= row@);
            s.append("\n");
            proof {
                reveal_strlit("\n");
            }
            assert(g.take(i + 1).drop_last() =~= g.take(i as int));
            i = i + 1;
            assert(s@ =~= render_grid(g.take(i as int)));
        }
        assert(g.take(i as int) =~= g);
        s
    }

    /// 1 when the cell at offset `(di, dj)` from `(i, j)` lies in the grid and
    /// is alive, 0 otherwise.
    fn neighbour_alive(&self, i: usize, j: usize, di: i8, dj: i8) -> (r: i32)
        requires
            self.wf(),
            i < self.size,
            j < self.size,
            -1 <= di <= 1,
            -1 <= dj <= 1,
        ensures
            r == alive_at(self.grid(), self.size as int, i + di, j + dj),
    {
        if (di < 0 && i == 0) || (di > 0 && i + 1 >= self.size) || (dj < 0 && j == 0) || (dj > 0
            && j + 1 >= self.size) {
            return 0;
        }
        let x: usize = if di < 0 {
            i - 1
        } else if di > 0 {
            i + 1
        } else {
            i
        };
        let y: usize = if dj < 0 {
            j - 1
        } else if dj > 0 {
            j + 1
        } else {
            j
        };
        assert(self.grid()[x as int] == self.cells@[x as int]@);
        if self.cells[x][y].kind == CellKind::ALIVE {
            1
        } else {
            0
        }
    }

    /// The next state of the cell at `(i, j)`, from the current generation.
    fn cell_tick(&self, i: usize, j: usize) -> (c: Cell)
        requires
            self.wf(),
            i < self.size,
            j < self.size,
        ensures
            c == next_generation(self.grid(), self.size as int)[i as int][j as int],
    {
        let alive_neighbours = self.neighbour_alive(i, j, -1, -1) + self.neighbour_alive(i, j, -1, 0)
            + self.neighbour_alive(i, j, -1, 1) + self.neighbour_alive(i, j, 1, 1)
            + self.neighbour_alive(i, j, 1, 0) + self.neighbour_alive(i, j, 1, -1)
            + self.neighbour_alive(i, j, 0, 1) + self.neighbour_alive(i, j, 0, -1);
        assert(self.grid()[i as int] == self.cells@[i as int]@);
        let mut c = self.cells[i][j];
        c.next(alive_neighbours);
        c
    }

    /// Advances the whole grid by one generation. Every next state is computed
    /// from the current generation before any cell is replaced.
    pub fn tick(&mut self)
        requires
            old(self).wf(),
        ensures
            final(self).wf(),
            final(self).size == old(self).size,
            final(self).grid() == next_generation(old(self).grid(), old(self).size as int),
    {
        let ghost target = next_generation(self.grid(), self.size as int);
        let mut next: Vec<Vec<Cell>> = Vec::new();
        let mut i: usize = 0;
        while i < self.size
            invariant
                self.wf(),
                target == next_generation(self.grid(), self.size as int),
                i <= self.size,
                next@.len() == i,
                forall|k: int| 0 <= k < i ==> (#[trigger] next@[k])@ == target[k],
            decreases self.size - i,
        {
            let mut row: Vec<Cell> = Vec::new();
            let mut j: usize = 0;
            while j < self.size
                invariant
                    self.wf(),
                    target == next_generation(self.grid(), self.size as int),
                    i < self.size,
                    j <= self.size,
                    row@ == target[i as int].take(j as int),
                decreases self.size - j,
            {
                let c = self.cell_tick(i, j);
                row.push(c);
                j = j + 1;
                assert(row@ =~= target[i as int].take(j as int));
            }
            assert(row@ =~= target[i as int]);
            next.push(row);
            i = i + 1;
        }
        self.cells = next;
        assert(self.grid() =~= target);
    }
}

} // verus!
