use vstd::pervasive::strictly_cloned;
use vstd::prelude::*;

verus! {

/// A rectangular grid stored row by row.
#[derive(Clone, PartialEq, Eq, Debug)]
pub struct Grid<T> {
    rows: usize,
    cols: usize,
    grid: Vec<T>,
}

/// The offsets of the eight neighbours, in the order they are listed.
pub open spec fn offset(k: int) -> (int, int) {
    if k == 0 {
        (-1, -1)
    } else if k == 1 {
        (-1, 0)
    } else if k == 2 {
        (-1, 1)
    } else if k == 3 {
        (0, -1)
    } else if k == 4 {
        (0, 1)
    } else if k == 5 {
        (1, -1)
    } else if k == 6 {
        (1, 0)
    } else {
        (1, 1)
    }
}

/// The in-bounds positions among the first `k` neighbours of `(row, col)`.
pub open spec fn neighbours_upto(rows: int, cols: int, row: int, col: int, k: int) -> Seq<
    (usize, usize),
>
    decreases k,
{
    if k <= 0 {
        seq![]
    } else {
        let prev = neighbours_upto(rows, cols, row, col, k - 1);
        let r = row + offset(k - 1).0;
        let c = col + offset(k - 1).1;
        if 0 <= r < rows && 0 <= c < cols {
            prev.push((r as usize, c as usize))
        } else {
            prev
        }
    }
}

/// The positions around `(row, col)` that lie in a `rows` by `cols` grid, row by row.
pub open spec fn neighbours_of(rows: int, cols: int, row: int, col: int) -> Seq<(usize, usize)> {
    neighbours_upto(rows, cols, row, col, 8)
}

/// The first `k` neighbours are at most `k` positions, all inside the grid.
pub proof fn lemma_neighbours_in_bounds(rows: int, cols: int, row: int, col: int, k: int)
    requires
        0 <= k,
    ensures
        neighbours_upto(rows, cols, row, col, k).len() <= k,
        forall|i: int|
            0 <= i < neighbours_upto(rows, cols, row, col, k).len() ==> (#[trigger] neighbours_upto(
                rows,
                cols,
                row,
                col,
                k,
            )[i]).0 < rows && neighbours_upto(rows, cols, row, col, k)[i].1 < cols,
    decreases k,
{
    if k > 0 {
        lemma_neighbours_in_bounds(rows, cols, row, col, k - 1);
    }
}

/// `x + d` when it lies in `0..bound`.
fn shift(x: usize, d: i8, bound: usize) -> (r: Option<usize>)
    requires
        x < bound,
        -1 <= d <= 1,
    ensures
        0 <= x + d < bound ==> r == Some((x + d) as usize),
        !(0 <= x + d < bound) ==> r == None::<usize>,
{
    if d < 0 {
        if x == 0 {
            None
        } else {
            Some(x - 1)
        }
    } else if d == 0 {
        Some(x)
    } else if x + 1 < bound {
        Some(x + 1)
    } else {
        None
    }
}

fn offset_at(k: usize) -> (r: (i8, i8))
    requires
        k < 8,
    ensures
        r.0 as int == offset(k as int).0,
        r.1 as int == offset(k as int).1,
{
    if k == 0 {
        (-1, -1)
    } else if k == 1 {
        (-1, 0)
    } else if k == 2 {
        (-1, 1)
    } else if k == 3 {
        (0, -1)
    } else if k == 4 {
        (0, 1)
    } else if k == 5 {
        (1, -1)
    } else if k == 6 {
        (1, 0)
    } else {
        (1, 1)
    }
}

/// Every clone of a `T` equals its original.
pub open spec fn clone_is_exact<T: Clone>() -> bool {
    forall|a: T, b: T| strictly_cloned(a, b) ==> a == b
}

impl<T: Clone + Default> Grid<T> {
    pub closed spec fn num_rows(&self) -> nat {
        self.rows as nat
    }

    pub closed spec fn num_cols(&self) -> nat {
        self.cols as nat
    }

    /// The cells, row by row.
    pub closed spec fn cells(&self) -> Seq<T> {
        self.grid@
    }

    pub open spec fn wf(&self) -> bool {
        self.cells().len() == self.num_rows() * self.num_cols()
    }

    /// The cell at `(row, col)`.
    pub open spec fn at(&self, row: int, col: int) -> T {
        self.cells()[col + row * self.num_cols()]
    }

    /// A grid of `rows` by `cols` cells, each the default value.
    pub fn new(rows: usize, cols: usize) -> (g: Self)
        requires
            rows * cols <= usize::MAX,
        ensures
            g.wf(),
            g.num_rows() == rows,
            g.num_cols() == cols,
            clone_is_exact::<T>() ==> forall|i: int, j: int|
                0 <= i < g.cells().len() && 0 <= j < g.cells().len() ==> g.cells()[i]
                    == g.cells()[j],
    {
        let d = T::default();
        let n: usize = rows * cols;
        let mut grid: Vec<T> = Vec::new();
        let mut i: usize = 0;
        while i < n
            invariant
                i <= n,
                grid@.len() == i,
                clone_is_exact::<T>() ==> forall|k: int| 0 <= k < i ==> grid@[k] == d,
            decreases n - i,
        {
            let c = d.clone();
            assert(strictly_cloned(d, c));
            grid.push(c);
            i = i + 1;
        }
        Grid { grid, rows, cols }
    }

    /// A grid of `rows` by `cols` cells taken row by row from `grid`.
    pub fn from_slice(grid: &[T], rows: usize, cols: usize) -> (g: Self)
        requires
            grid@.len() == rows * cols,
        ensures
            g.wf(),
            g.num_rows() == rows,
            g.num_cols() == cols,
            g.cells().len() == grid@.len(),
            clone_is_exact::<T>() ==> g.cells() == grid@,
    {
        let mut cells: Vec<T> = Vec::new();
        let mut i: usize = 0;
        while i < grid.len()
            invariant
                i <= grid@.len(),
                cells@.len() == i,
                clone_is_exact::<T>() ==> cells@ == grid@.take(i as int),
            decreases grid@.len() - i,
        {
            let c = grid[i].clone();
            assert(strictly_cloned(grid@[i as int], c));
            cells.push(c);
            i = i + 1;
            assert(clone_is_exact::<T>() ==> cells@ =~= grid@.take(i as int));
        }
        assert(grid@.take(grid@.len() as int) =~= grid@);
        Grid { grid: cells, rows, cols }
    }

    /// The number of columns, then the number of rows.
    pub fn size(&self) -> (r: (usize, usize))
        ensures
            r.0 == self.num_cols(),
            r.1 == self.num_rows(),
    {
        (self.cols, self.rows)
    }

    pub fn get(&self, row: usize, col: usize) -> (r: &T)
        requires
            self.wf(),
            row < self.num_rows(),
            col < self.num_cols(),
        ensures
            *r == self.at(row as int, col as int),
    {
        let n = self.grid.len();
        proof {
            lemma_index_in_grid(row as int, col as int, self.num_rows() as int, self.num_cols() as int);
        }
        &self.grid[col + row * self.cols]
    }

    pub fn set(&mut self, value: T, row: usize, col: usize)
        requires
            old(self).wf(),
            row < old(self).num_rows(),
            col < old(self).num_cols(),
        ensures
            final(self).wf(),
            final(self).num_rows() == old(self).num_rows(),
            final(self).num_cols() == old(self).num_cols(),
            final(self).cells() == old(self).cells().update(col + row * old(self).num_cols(), value),
    {
        let n = self.grid.len();
        proof {
            lemma_index_in_grid(row as int, col as int, self.num_rows() as int, self.num_cols() as int);
        }
        let i = col + row * self.cols;
        self.grid.set(i, value);
    }

    /// The positions around `(row, col)` that lie in the grid.
    pub fn neighbours(&self, row: usize, col: usize) -> (r: Vec<(usize, usize)>)
        requires
            row < self.num_rows(),
            col < self.num_cols(),
        ensures
            r@ == neighbours_of(self.num_rows() as int, self.num_cols() as int, row as int, col as int),
            r@.len() <= 8,
            forall|i: int|
                0 <= i < r@.len() ==> (#[trigger] r@[i]).0 < self.num_rows() && r@[i].1
                    < self.num_cols(),
    {
        proof {
            lemma_neighbours_in_bounds(self.num_rows() as int, self.num_cols() as int, row as int, col as int, 8);
        }
        let mut res: Vec<(usize, usize)> = Vec::new();
        let mut k: usize = 0;
        while k < 8
            invariant
                k <= 8,
                row < self.rows,
                col < self.cols,
                res@ == neighbours_upto(self.rows as int, self.cols as int, row as int, col as int, k as int),
            decreases 8 - k,
        {
            let (dr, dc) = offset_at(k);
            if let Some(r) = shift(row, dr, self.rows) {
                if let Some(c) = shift(col, dc, self.cols) {
                    res.push((r, c));
                }
            }
            k = k + 1;
        }
        res
    }
}

/// A cell index of a row-major grid stays inside it.
pub proof fn lemma_index_in_grid(row: int, col: int, rows: int, cols: int)
    requires
        0 <= row < rows,
        0 <= col < cols,
    ensures
        0 <= row * cols <= col + row * cols < rows * cols,
{
    assert(row * cols <= (rows - 1) * cols) by (nonlinear_arith)
        requires
            row <= rows - 1,
            cols >= 0,
    ;
    assert((rows - 1) * cols + cols == rows * cols) by (nonlinear_arith);
    assert(0 <= row * cols) by (nonlinear_arith)
        requires
            row >= 0,
            cols >= 0,
    ;
}

/// Two cells of a row-major grid share an index only if they are the same cell.
pub proof fn lemma_index_injective(r1: int, c1: int, r2: int, c2: int, cols: int)
    requires
        0 <= r1,
        0 <= r2,
        0 <= c1 < cols,
        0 <= c2 < cols,
        c1 + r1 * cols == c2 + r2 * cols,
    ensures
        r1 == r2,
        c1 == c2,
{
    if r1 < r2 {
        assert(r1 * cols + cols <= r2 * cols) by (nonlinear_arith)
            requires
                r1 + 1 <= r2,
                cols >= 0,
        ;
    } else if r2 < r1 {
        assert(r2 * cols + cols <= r1 * cols) by (nonlinear_arith)
            requires
                r2 + 1 <= r1,
                cols >= 0,
        ;
    }
}

/// One cell of the game.
#[derive(Clone, Copy, PartialEq, Eq, Debug, Structural)]
pub enum Cell {
    Dead,
    Alive,
}

impl Default for Cell {
    fn default() -> (r: Self)
        ensures
            r == Cell::Dead,
    {
        Cell::Dead
    }
}

/// How many of the positions hold a live cell.
pub open spec fn alive_count(g: Grid<Cell>, ps: Seq<(usize, usize)>) -> nat
    decreases ps.len(),
{
    if ps.len() == 0 {
        0
    } else {
        alive_count(g, ps.drop_last()) + if g.at(ps.last().0 as int, ps.last().1 as int)
            == Cell::Alive {
            1nat
        } else {
            0nat
        }
    }
}

/// A cell with two live neighbours stays as it is, one with three lives,
/// and every other dies.
pub open spec fn next_state(c: Cell, live_neighbours: nat) -> Cell {
    if live_neighbours == 2 {
        c
    } else if live_neighbours == 3 {
        Cell::Alive
    } else {
        Cell::Dead
    }
}

/// The cell at `(row, col)` one generation after `g`.
pub open spec fn next_at(g: Grid<Cell>, row: int, col: int) -> Cell {
    next_state(
        g.at(row, col),
        alive_count(g, neighbours_of(g.num_rows() as int, g.num_cols() as int, row, col)),
    )
}

/// Conway's game of life on a bounded grid.
#[derive(PartialEq, Eq, Debug)]
pub struct GameOfLife {
    grid: Grid<Cell>,
}

impl GameOfLife {
    pub closed spec fn board(&self) -> Grid<Cell> {
        self.grid
    }

    pub fn from_grid(grid: Grid<Cell>) -> (r: Self)
        ensures
            r.board() == grid,
    {
        GameOfLife { grid }
    }

    pub fn get_grid(&self) -> (r: &Grid<Cell>)
        ensures
            *r == self.board(),
    {
        &self.grid
    }

    /// Moves every cell on by one generation.
    pub fn step(&mut self)
        requires
            old(self).board().wf(),
        ensures
            final(self).board().wf(),
            final(self).board().num_rows() == old(self).board().num_rows(),
            final(self).board().num_cols() == old(self).board().num_cols(),
            forall|r: int, c: int|
                0 <= r < old(self).board().num_rows() && 0 <= c < old(self).board().num_cols()
                    ==> #[trigger] final(self).board().at(r, c) == next_at(old(self).board(), r, c),
    {
        let g = &self.grid;
        let rows = g.rows;
        let cols = g.cols;
        let _ = g.grid.len();
        let mut next: Grid<Cell> = Grid::new(rows, cols);
        let mut x: usize = 0;
        while x < rows
            invariant
                g.wf(),
                rows == g.num_rows(),
                cols == g.num_cols(),
                x <= rows,
                next.wf(),
                next.num_rows() == rows,
                next.num_cols() == cols,
                forall|r: int, c: int|
                    0 <= r < x && 0 <= c < cols ==> #[trigger] next.at(r, c) == next_at(*g, r, c),
            decreases rows - x,
        {
            let mut y: usize = 0;
            while y < cols
                invariant
                    g.wf(),
                    rows == g.num_rows(),
                    cols == g.num_cols(),
                    x < rows,
                    y <= cols,
                    next.wf(),
                    next.num_rows() == rows,
                    next.num_cols() == cols,
                    forall|r: int, c: int|
                        0 <= r < x && 0 <= c < cols ==> #[trigger] next.at(r, c) == next_at(*g, r, c),
                    forall|c: int| 0 <= c < y ==> #[trigger] next.at(x as int, c) == next_at(*g, x as int, c),
                decreases cols - y,
            {
                let ns = g.neighbours(x, y);
                let mut count: usize = 0;
                let mut k: usize = 0;
                while k < ns.len()
                    invariant
                        g.wf(),
                        rows == g.num_rows(),
                        cols == g.num_cols(),
                        k <= ns@.len(),
                        ns@.len() <= 8,
                        ns@ == neighbours_of(rows as int, cols as int, x as int, y as int),
                        count == alive_count(*g, ns@.take(k as int)),
                        count <= k,
                        forall|i: int| 0 <= i < ns@.len() ==> (#[trigger] ns@[i]).0 < rows && ns@[i].1 < cols,
                    decreases ns@.len() - k,
                {
                    let (nr, nc) = ns[k];
                    assert(ns@[k as int] == (nr, nc));
                    assert(ns@.take(k + 1).drop_last() =~= ns@.take(k as int));
                    if *g.get(nr, nc) == Cell::Alive {
                        count = count + 1;
                    }
                    k = k + 1;
                }
                assert(ns@.take(ns@.len() as int) =~= ns@);
                let cell = *g.get(x, y);
                let value = if count == 2 {
                    cell
                } else if count == 3 {
                    Cell::Alive
                } else {
                    Cell::Dead
                };
                let ghost before = next;
                next.set(value, x, y);
                proof {
                    assert forall|r: int, c: int|
                        0 <= r < rows && 0 <= c < cols && (r != x || c != y) implies next.at(r, c)
                        == before.at(r, c) by {
                        lemma_index_in_grid(r, c, rows as int, cols as int);
                        lemma_index_in_grid(x as int, y as int, rows as int, cols as int);
                        if c + r * cols == y + x * cols {
                            lemma_index_injective(r, c, x as int, y as int, cols as int);
                        }

                    }
                }
                proof {
                    lemma_index_in_grid(x as int, y as int, rows as int, cols as int);
                    assert(next.at(x as int, y as int) == value);
                }
                y = y + 1;
            }
            x = x + 1;
        }
        self.grid = next;
    }
}

} // verus!
