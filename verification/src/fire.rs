//! The fire simulation: a heat grid whose bottom row is the source; heat
//! climbs one row per step, drifting sideways and cooling at random.
use vstd::prelude::*;
use crate::rng::{Rng, scramble, xorshift, xorshift_iter, range_value};

verus! {

/// The hottest a cell gets; the palette has one colour per heat level.
pub const MAX_HEAT: u8 = 36;

/// Cell `(x, y)` of a grid stored row by row, `cols` cells per row.
pub open spec fn cell_index(cols: int, x: int, y: int) -> int {
    y * cols + x
}

/// `v` clamped into `lo..=hi`.
pub open spec fn clamp(v: int, lo: int, hi: int) -> int {
    if v < lo {
        lo
    } else if v > hi {
        hi
    } else {
        v
    }
}

/// A fresh grid: the bottom row at full heat, everything above it cold.
pub open spec fn fresh_grid(cols: nat, rows: nat) -> Seq<u8> {
    Seq::new(cols * rows, |i: int| if i >= (rows - 1) * cols { MAX_HEAT } else { 0u8 })
}

/// Every cell of the grid is at most `h`.
pub open spec fn heat_at_most(g: Seq<u8>, h: int) -> bool {
    forall|i: int| 0 <= i < g.len() ==> g[i] <= h
}

/// One cell of a spreading step, with the generator at state `s`: the heat of
/// cell `(x, y)` loses `range(0, 3)` and lands on row `y - 1`, at column
/// `x + range(-1, 1)` clamped to the grid.
pub open spec fn spread_cell(g: Seq<u8>, cols: int, x: int, y: int, s: u64) -> Seq<u8> {
    let below = g[cell_index(cols, x, y)] as int;
    let decay = range_value(scramble(xorshift(s)), 0, 3);
    let drift = range_value(scramble(xorshift(xorshift(s))), -1, 1);
    let nx = clamp(x + drift, 0, cols - 1);
    let v = if below - decay < 0 { 0 } else { below - decay };
    g.update(cell_index(cols, nx, y - 1), v as u8)
}

/// Column `x` after its first `n` cells (rows `1..=n`) have spread, starting
/// with the generator at state `s`; each cell draws two values.
pub open spec fn spread_column(g: Seq<u8>, cols: int, x: int, s: u64, n: nat) -> Seq<u8>
    decreases n,
{
    if n == 0 {
        g
    } else {
        let prev = spread_column(g, cols, x, s, (n - 1) as nat);
        spread_cell(prev, cols, x, n as int, xorshift_iter(s, 2 * (n - 1) as nat))
    }
}

/// The generator state at the start of column `m`: each column draws two
/// values for each of its `rows - 1` moving cells.
pub open spec fn column_start(s: u64, rows: nat, m: nat) -> u64
    decreases m,
{
    if m == 0 {
        s
    } else {
        xorshift_iter(column_start(s, rows, (m - 1) as nat), 2 * (rows - 1) as nat)
    }
}

/// The grid after the first `m` columns have spread.
pub open spec fn spread_columns(g: Seq<u8>, cols: nat, rows: nat, s: u64, m: nat) -> Seq<u8>
    decreases m,
{
    if m == 0 {
        g
    } else {
        let prev = spread_columns(g, cols, rows, s, (m - 1) as nat);
        spread_column(
            prev,
            cols as int,
            m - 1,
            column_start(s, rows, (m - 1) as nat),
            (rows - 1) as nat,
        )
    }
}

/// One whole spreading step over a `cols` by `rows` grid.
pub open spec fn spread(g: Seq<u8>, cols: nat, rows: nat, s: u64) -> Seq<u8> {
    if rows < 1 {
        g
    } else {
        spread_columns(g, cols, rows, s, cols)
    }
}

/// The generator state after a whole spreading step.
pub open spec fn spread_rng(s: u64, cols: nat, rows: nat) -> u64 {
    if rows < 1 {
        s
    } else {
        column_start(s, rows, cols)
    }
}

pub proof fn lemma_cell_in_grid(cols: int, rows: int, x: int, y: int)
    requires
        0 <= x < cols,
        0 <= y < rows,
    ensures
        0 <= cell_index(cols, x, y) < rows * cols,
        cell_index(cols, x, y) < (y + 1) * cols,
        y * cols <= cell_index(cols, x, y),
        rows * cols == cols * rows,
{
    assert(rows * cols == cols * rows) by (nonlinear_arith);
    assert(0 <= y * cols + x < rows * cols) by (nonlinear_arith)
        requires
            0 <= x < cols,
            0 <= y < rows,
    ;
    assert(y * cols + x < (y + 1) * cols) by (nonlinear_arith)
        requires
            0 <= x < cols,
    ;
}

pub proof fn lemma_row_start(cols: int, rows: int)
    requires
        0 <= cols,
        1 <= rows,
    ensures
        0 <= (rows - 1) * cols <= rows * cols,
        (rows - 1) * cols + cols == rows * cols,
        rows * cols == cols * rows,
{
    assert(0 <= (rows - 1) * cols <= rows * cols && (rows - 1) * cols + cols == rows * cols
        && rows * cols == cols * rows)
        by (nonlinear_arith)
        requires
            0 <= cols,
            1 <= rows,
    ;
}

proof fn lemma_iter_two(s: u64, n: nat)
    ensures
        xorshift_iter(s, n + 2) == xorshift(xorshift(xorshift_iter(s, n))),
{
    assert(xorshift_iter(s, n + 1) == xorshift(xorshift_iter(s, n)));
    assert(xorshift_iter(s, n + 2) == xorshift(xorshift_iter(s, n + 1)));
}

proof fn lemma_spread_cell(g: Seq<u8>, cols: int, rows: int, x: int, y: int, s: u64, h: int)
    requires
        g.len() == cols * rows,
        0 <= x < cols,
        1 <= y < rows,
    ensures
        spread_cell(g, cols, x, y, s).len() == g.len(),
        heat_at_most(g, h) ==> heat_at_most(spread_cell(g, cols, x, y, s), h),
        forall|i: int|
            (rows - 1) * cols <= i < rows * cols ==> #[trigger] spread_cell(g, cols, x, y, s)[i]
                == g[i],
{
    let drift = range_value(scramble(xorshift(xorshift(s))), -1, 1);
    let nx = clamp(x + drift, 0, cols - 1);
    lemma_cell_in_grid(cols, rows, x, y);
    lemma_cell_in_grid(cols, rows, nx, y - 1);
    assert(y * cols <= (rows - 1) * cols) by (nonlinear_arith)
        requires
            y <= rows - 1,
            0 <= cols,
    ;
}

proof fn lemma_spread_column(g: Seq<u8>, cols: int, rows: int, x: int, s: u64, n: nat, h: int)
    requires
        g.len() == cols * rows,
        0 <= x < cols,
        n < rows,
    ensures
        spread_column(g, cols, x, s, n).len() == g.len(),
        heat_at_most(g, h) ==> heat_at_most(spread_column(g, cols, x, s, n), h),
        forall|i: int|
            (rows - 1) * cols <= i < rows * cols ==> #[trigger] spread_column(g, cols, x, s, n)[i]
                == g[i],
    decreases n,
{
    if n > 0 {
        let prev = spread_column(g, cols, x, s, (n - 1) as nat);
        lemma_spread_column(g, cols, rows, x, s, (n - 1) as nat, h);
        lemma_spread_cell(prev, cols, rows, x, n as int, xorshift_iter(s, 2 * (n - 1) as nat), h);
    }
}

proof fn lemma_spread_columns(g: Seq<u8>, cols: nat, rows: nat, s: u64, m: nat, h: int)
    requires
        g.len() == cols * rows,
        rows >= 1,
        m <= cols,
    ensures
        spread_columns(g, cols, rows, s, m).len() == g.len(),
        heat_at_most(g, h) ==> heat_at_most(spread_columns(g, cols, rows, s, m), h),
        forall|i: int|
            (rows - 1) * cols <= i < rows * cols ==> #[trigger] spread_columns(
                g,
                cols,
                rows,
                s,
                m,
            )[i] == g[i],
    decreases m,
{
    if m > 0 {
        let prev = spread_columns(g, cols, rows, s, (m - 1) as nat);
        lemma_spread_columns(g, cols, rows, s, (m - 1) as nat, h);
        lemma_spread_column(
            prev,
            cols as int,
            rows as int,
            m - 1,
            column_start(s, rows, (m - 1) as nat),
            (rows - 1) as nat,
            h,
        );
    }
}

/// A spreading step never heats the grid: a bound on every cell before it
/// bounds every cell after it. It keeps the grid's size, and the bottom row,
/// the fire's source, is left as it was.
pub proof fn lemma_spread_cools_and_keeps_source(g: Seq<u8>, cols: nat, rows: nat, s: u64, h: int)
    requires
        g.len() == cols * rows,
    ensures
        spread(g, cols, rows, s).len() == g.len(),
        heat_at_most(g, h) ==> heat_at_most(spread(g, cols, rows, s), h),
        forall|i: int|
            (rows - 1) * cols <= i < rows * cols ==> #[trigger] spread(g, cols, rows, s)[i] == g[i],
{
    if rows >= 1 {
        lemma_spread_columns(g, cols, rows, s, cols, h);
    }
}

/// The generator's `k`-th output after state `s` (the first is `k == 1`).
pub open spec fn nth_output(s: u64, k: nat) -> u64 {
    scramble(xorshift_iter(s, k))
}

proof fn lemma_iter_add(s: u64, a: nat, b: nat)
    ensures
        xorshift_iter(xorshift_iter(s, a), b) == xorshift_iter(s, a + b),
    decreases b,
{
    if b > 0 {
        lemma_iter_add(s, a, (b - 1) as nat);
    }
}

proof fn lemma_two_row_column_start(s: u64, m: nat)
    ensures
        column_start(s, 2, m) == xorshift_iter(s, 2 * m),
    decreases m,
{
    if m > 0 {
        lemma_two_row_column_start(s, (m - 1) as nat);
        lemma_iter_add(s, 2 * (m - 1) as nat, 2);
    }
}

/// In a two-row grid, where the heat of column `x` lands on the top row:
/// `x` moved by the column's second draw, a drift in `-1..=1`, kept on the
/// grid.
pub open spec fn landing_column(s: u64, cols: int, x: int) -> int {
    clamp(x + range_value(nth_output(s, (2 * x + 2) as nat), -1, 1), 0, cols - 1)
}

/// In a two-row grid, the decay column `x` draws first, in `0..=3`.
pub open spec fn column_decay(s: u64, x: int) -> int {
    range_value(nth_output(s, (2 * x + 1) as nat), 0, 3)
}

proof fn lemma_two_row_prefix(g: Seq<u8>, cols: nat, s: u64, m: nat)
    requires
        g.len() == cols * 2,
        m <= cols,
    ensures
        spread_columns(g, cols, 2, s, m).len() == g.len(),
        forall|i: int|
            cols <= i < 2 * cols ==> #[trigger] spread_columns(g, cols, 2, s, m)[i] == g[i],
        forall|j: int|
            0 <= j < cols && (forall|x: int| 0 <= x < m ==> landing_column(s, cols as int, x) != j)
                ==> #[trigger] spread_columns(g, cols, 2, s, m)[j] == g[j],
        forall|j: int, x: int|
            #![trigger spread_columns(g, cols, 2, s, m)[j], landing_column(s, cols as int, x)]
            0 <= j < cols && 0 <= x < m && landing_column(s, cols as int, x) == j && (forall|
                x2: int,
            | x < x2 < m ==> landing_column(s, cols as int, x2) != j) ==> spread_columns(
                g,
                cols,
                2,
                s,
                m,
            )[j] == floor_zero(g[cols + x] - column_decay(s, x)),
    decreases m,
{
    if m > 0 {
        lemma_two_row_prefix(g, cols, s, (m - 1) as nat);
        let prev = spread_columns(g, cols, 2, s, (m - 1) as nat);
        let x0 = m - 1;
        let st = column_start(s, 2, (m - 1) as nat);
        lemma_two_row_column_start(s, (m - 1) as nat);
        assert(xorshift_iter(st, 0) == st);
        assert(xorshift(st) == xorshift_iter(s, (2 * x0 + 1) as nat));
        assert(xorshift(xorshift(st)) == xorshift_iter(s, (2 * x0 + 2) as nat));
        let cur = spread_columns(g, cols, 2, s, m);
        assert(cur == spread_column(prev, cols as int, x0, st, 1));
        assert(spread_column(prev, cols as int, x0, st, 0) == prev);
        assert(cur == spread_cell(prev, cols as int, x0, 1, st));
        let land = landing_column(s, cols as int, x0);
        lemma_cell_in_grid(cols as int, 2, x0, 1);
        assert(0 <= land < cols);
        assert(cell_index(cols as int, land, 0) == land);
        assert(cell_index(cols as int, x0, 1) == cols + x0);
        assert(prev[cols + x0] == g[cols + x0]);
        assert(cur == prev.update(land, floor_zero(g[cols + x0] - column_decay(s, x0)) as u8));
        assert forall|j: int, x: int|
            #![trigger cur[j], landing_column(s, cols as int, x)]
            0 <= j < cols && 0 <= x < m && landing_column(s, cols as int, x) == j && (forall|
                x2: int,
            | x < x2 < m ==> landing_column(s, cols as int, x2) != j) implies cur[j]
            == floor_zero(g[cols + x] - column_decay(s, x)) by {
            if x < x0 {
                assert(landing_column(s, cols as int, x0) != j);
                assert(forall|x2: int| x < x2 < m - 1 ==> landing_column(s, cols as int, x2) != j);
            }
        }
    }
}

/// Heat drifts: in a grid of two rows (a source row and one row above it),
/// every top-row cell that some column's heat lands on ends up holding the
/// heat of the last such column, below which it was drawn, less that
/// column's decay (floored at 0); a top-row cell no heat lands on keeps its
/// value. Column `x` draws the generator's outputs `2x + 1` (its decay) and
/// `2x + 2` (its drift), and its heat lands at `x` plus the drift, kept on
/// the grid.
pub proof fn lemma_two_row_spread(g: Seq<u8>, cols: nat, s: u64)
    requires
        g.len() == cols * 2,
    ensures
        forall|j: int|
            0 <= j < cols && (forall|x: int| 0 <= x < cols ==> landing_column(s, cols as int, x) != j)
                ==> #[trigger] spread(g, cols, 2, s)[j] == g[j],
        forall|j: int, x: int|
            #![trigger spread(g, cols, 2, s)[j], landing_column(s, cols as int, x)]
            0 <= j < cols && 0 <= x < cols && landing_column(s, cols as int, x) == j && (forall|
                x2: int,
            | x < x2 < cols ==> landing_column(s, cols as int, x2) != j) ==> spread(
                g,
                cols,
                2,
                s,
            )[j] == floor_zero(g[cols + x] - column_decay(s, x)),
{
    lemma_two_row_prefix(g, cols, s, cols);
    assert(spread(g, cols, 2, s) == spread_columns(g, cols, 2, s, cols));
}

proof fn lemma_one_column_prefix(g: Seq<u8>, s: u64, n: nat)
    requires
        n < g.len(),
    ensures
        spread_column(g, 1, 0, s, n).len() == g.len(),
        forall|k: int|
            0 <= k < n ==> #[trigger] spread_column(g, 1, 0, s, n)[k] == floor_zero(
                g[k + 1] - range_value(nth_output(s, (2 * k + 1) as nat), 0, 3),
            ),
        forall|k: int| n <= k < g.len() ==> #[trigger] spread_column(g, 1, 0, s, n)[k] == g[k],
    decreases n,
{
    if n > 0 {
        lemma_one_column_prefix(g, s, (n - 1) as nat);
        let k0 = n - 1;
        let st = xorshift_iter(s, (2 * k0) as nat);
        assert(xorshift(st) == xorshift_iter(s, (2 * k0 + 1) as nat));
        let prev = spread_column(g, 1, 0, s, (n - 1) as nat);
        assert(cell_index(1, 0, n as int) == n);
        assert(prev[n as int] == g[n as int]);
        let drift = range_value(scramble(xorshift(xorshift(st))), -1, 1);
        assert(clamp(0 + drift, 0, 0) == 0);
        assert(cell_index(1, 0, k0) == k0);
    }
}

/// In a one-column fire, a spreading step moves the heat of every cell up
/// one row, less a decay of at most 3 (floored at 0): row `k` takes the heat
/// row `k + 1` had, less the generator's output `2k + 1` drawn into
/// `0..=3`; the bottom row keeps its heat.
pub proof fn lemma_one_column_spread(g: Seq<u8>, rows: nat, s: u64)
    requires
        rows >= 1,
        g.len() == rows,
    ensures
        spread(g, 1, rows, s).len() == rows,
        forall|k: int|
            0 <= k < rows - 1 ==> #[trigger] spread(g, 1, rows, s)[k] == floor_zero(
                g[k + 1] - range_value(nth_output(s, (2 * k + 1) as nat), 0, 3),
            ),
        spread(g, 1, rows, s)[rows - 1] == g[rows - 1],
        forall|k: int| 0 <= k < rows - 1 ==> g[k + 1] - 3 <= #[trigger] spread(g, 1, rows, s)[k] <= g[k + 1],
{
    lemma_one_column_prefix(g, s, (rows - 1) as nat);
    assert(spread_columns(g, 1, rows, s, 0) == g);
    assert(column_start(s, rows, 0) == s);
    assert(spread_columns(g, 1, rows, s, 1) == spread_column(g, 1, 0, s, (rows - 1) as nat));
    assert(spread(g, 1, rows, s) == spread_column(g, 1, 0, s, (rows - 1) as nat));
    assert forall|k: int| 0 <= k < rows - 1 implies g[k + 1] - 3 <= #[trigger] spread(g, 1, rows, s)[k]
        <= g[k + 1] by {
        let d = range_value(nth_output(s, (2 * k + 1) as nat), 0, 3);
        assert(0 <= d <= 3);
    }
}

/// A fresh grid for a `cols` by `rows` terminal.
pub fn resize_grid(cols: usize, rows: usize) -> (g: Vec<u8>)
    requires
        cols * rows <= usize::MAX,
        rows >= 1 || cols == 0,
    ensures
        g@ == fresh_grid(cols as nat, rows as nat),
{
    let n = cols * rows;
    let mut grid: Vec<u8> = vec![0u8; n];
    if cols == 0 {
        assert(grid@ =~= fresh_grid(cols as nat, rows as nat));
        return grid;
    }
    proof {
        lemma_row_start(cols as int, rows as int);
    }
    let base = (rows - 1) * cols;
    let mut x: usize = 0;
    while x < cols
        invariant
            0 < cols,
            1 <= rows,
            n == cols * rows,
            base == (rows - 1) * cols,
            base + cols == n,
            x <= cols,
            grid@.len() == n,
            forall|i: int|
                0 <= i < n ==> grid@[i] == (if base <= i < base + x { MAX_HEAT } else { 0u8 }),
        decreases cols - x,
    {
        grid.set(base + x, MAX_HEAT);
        x = x + 1;
    }
    assert(grid@ =~= fresh_grid(cols as nat, rows as nat));
    grid
}

/// One spreading step: every cell above the bottom row takes the heat of
/// the cell below it, minus a random decay of 0 to 3, shifted sideways by a
/// random -1, 0 or 1 columns (clamped to the grid). Columns go left to right,
/// each from its second row to the top.
pub fn spread_fire(grid: &mut Vec<u8>, cols: usize, rows: usize, rng: &mut Rng)
    requires
        old(grid)@.len() == cols * rows,
        rows < 2 || cols <= i32::MAX,
    ensures
        final(grid)@ == spread(old(grid)@, cols as nat, rows as nat, old(rng)@),
        final(rng)@ == spread_rng(old(rng)@, cols as nat, rows as nat),
{
    if rows < 1 {
        return;
    }
    let n = grid.len();
    let ghost g0 = grid@;
    let ghost s0 = rng@;
    let mut x: usize = 0;
    while x < cols
        invariant
            1 <= rows,
            rows < 2 || cols <= i32::MAX,
            x <= cols,
            grid@.len() == cols * rows,
            n == cols * rows,
            grid@ == spread_columns(g0, cols as nat, rows as nat, s0, x as nat),
            rng@ == column_start(s0, rows as nat, x as nat),
        decreases cols - x,
    {
        let ghost gx = grid@;
        let ghost sx = rng@;
        let mut y: usize = 1;
        while y < rows
            invariant
                1 <= y <= rows,
                rows < 2 || cols <= i32::MAX,
                x < cols,
                grid@.len() == cols * rows,
                n == cols * rows,
                grid@ == spread_column(gx, cols as int, x as int, sx, (y - 1) as nat),
                rng@ == xorshift_iter(sx, 2 * (y - 1) as nat),
            decreases rows - y,
        {
            proof {
                lemma_cell_in_grid(cols as int, rows as int, x as int, y as int);
                assert(y * cols <= y * cols + x < n);
            }
            let below = grid[y * cols + x];
            let decay = rng.range(0, 3);
            let drift = rng.range(-1, 1);
            let xi = x as i32 + drift;
            let hi = cols as i32 - 1;
            let nx: usize = if xi < 0 {
                0
            } else if xi > hi {
                hi as usize
            } else {
                xi as usize
            };
            let diff = below as i32 - decay;
            let new_val: u8 = if diff < 0 {
                0
            } else {
                diff as u8
            };
            proof {
                lemma_cell_in_grid(cols as int, rows as int, nx as int, y - 1);
                assert((y - 1) * cols <= (y - 1) * cols + nx < n);
                lemma_iter_two(sx, 2 * (y - 1) as nat);
                assert(2 * (y - 1) as nat + 2 == 2 * y as nat);
            }
            grid.set((y - 1) * cols + nx, new_val);
            y = y + 1;
        }
        x = x + 1;
    }
}

/// The bottom row after its first `n` cells have cooled, starting with the
/// generator at state `s`; each cell loses `range(2, 6)`, floored at 0.
pub open spec fn cool_upto(g: Seq<u8>, cols: nat, rows: nat, s: u64, n: nat) -> Seq<u8>
    decreases n,
{
    if n == 0 {
        g
    } else {
        let prev = cool_upto(g, cols, rows, s, (n - 1) as nat);
        let i = cell_index(cols as int, n - 1, rows - 1);
        let dec = range_value(scramble(xorshift_iter(s, n)), 2, 6);
        let v = if prev[i] - dec < 0 { 0 } else { prev[i] - dec };
        prev.update(i, v as u8)
    }
}

/// `v`, or 0 where `v` is negative.
pub open spec fn floor_zero(v: int) -> int {
    if v < 0 {
        0
    } else {
        v
    }
}

/// The whole bottom row cooled, left to right.
pub open spec fn cool(g: Seq<u8>, cols: nat, rows: nat, s: u64) -> Seq<u8> {
    cool_upto(g, cols, rows, s, cols)
}

/// Cools the fire's source: every bottom-row cell loses a random 2 to 6
/// heat, floored at 0.
pub fn cool_source(grid: &mut Vec<u8>, cols: usize, rows: usize, rng: &mut Rng)
    requires
        old(grid)@.len() == cols * rows,
        rows >= 1 || cols == 0,
    ensures
        final(grid)@ == cool(old(grid)@, cols as nat, rows as nat, old(rng)@),
        final(rng)@ == xorshift_iter(old(rng)@, cols as nat),
{
    let n = grid.len();
    let ghost g0 = grid@;
    let ghost s0 = rng@;
    let mut x: usize = 0;
    while x < cols
        invariant
            rows >= 1 || cols == 0,
            x <= cols,
            n == cols * rows,
            grid@.len() == n,
            grid@ == cool_upto(g0, cols as nat, rows as nat, s0, x as nat),
            rng@ == xorshift_iter(s0, x as nat),
        decreases cols - x,
    {
        proof {
            lemma_cell_in_grid(cols as int, rows as int, x as int, rows - 1);
            assert((rows - 1) * cols <= (rows - 1) * cols + x < n);
        }
        let idx = (rows - 1) * cols + x;
        let dec = rng.range(2, 6);
        let diff = grid[idx] as i32 - dec;
        let v: u8 = if diff < 0 {
            0
        } else {
            diff as u8
        };
        grid.set(idx, v);
        x = x + 1;
    }
}

/// Cooling touches only the bottom row, where every cell drops by 2 to 6,
/// floored at 0.
pub proof fn lemma_cool_only_source(g: Seq<u8>, cols: nat, rows: nat, s: u64)
    requires
        g.len() == cols * rows,
        rows >= 1,
    ensures
        cool(g, cols, rows, s).len() == g.len(),
        forall|i: int| 0 <= i < (rows - 1) * cols ==> #[trigger] cool(g, cols, rows, s)[i] == g[i],
        forall|i: int|
            (rows - 1) * cols <= i < rows * cols ==> floor_zero(g[i] - 6) <= #[trigger] cool(
                g,
                cols,
                rows,
                s,
            )[i] <= floor_zero(g[i] - 2),
{
    lemma_row_start(cols as int, rows as int);
    lemma_cool_upto(g, cols, rows, s, cols);
    let c = cool_upto(g, cols, rows, s, cols);
    assert(cool(g, cols, rows, s) == c);
    assert forall|i: int| 0 <= i < (rows - 1) * cols implies #[trigger] cool(g, cols, rows, s)[i]
        == g[i] by {
        assert(c[i] == g[i]);
    }
    assert forall|i: int| (rows - 1) * cols <= i < rows * cols implies floor_zero(g[i] - 6)
        <= #[trigger] cool(g, cols, rows, s)[i] <= floor_zero(g[i] - 2) by {
        assert(floor_zero(g[i] - 6) <= c[i] <= floor_zero(g[i] - 2));
    }
}

proof fn lemma_cool_upto(g: Seq<u8>, cols: nat, rows: nat, s: u64, n: nat)
    requires
        g.len() == cols * rows,
        rows >= 1,
        n <= cols,
    ensures
        cool_upto(g, cols, rows, s, n).len() == g.len(),
        forall|i: int|
            0 <= i < g.len() && !((rows - 1) * cols <= i < (rows - 1) * cols + n)
                ==> #[trigger] cool_upto(g, cols, rows, s, n)[i] == g[i],
        forall|i: int|
            (rows - 1) * cols <= i < (rows - 1) * cols + n ==> floor_zero(g[i] - 6)
                <= #[trigger] cool_upto(g, cols, rows, s, n)[i] <= floor_zero(g[i] - 2),
    decreases n,
{
    lemma_row_start(cols as int, rows as int);
    if n > 0 {
        lemma_cool_upto(g, cols, rows, s, (n - 1) as nat);
        let prev = cool_upto(g, cols, rows, s, (n - 1) as nat);
        let i0 = cell_index(cols as int, n - 1, rows - 1);
        let dec = range_value(scramble(xorshift_iter(s, n)), 2, 6);
        assert(prev[i0] == g[i0]);
        assert(2 <= dec <= 6);
    }
}

/// Cooling never heats: a bound on every cell before it bounds every cell
/// after it.
pub proof fn lemma_cool_keeps_bound(g: Seq<u8>, cols: nat, rows: nat, s: u64, h: int)
    requires
        g.len() == cols * rows,
        rows >= 1,
        heat_at_most(g, h),
    ensures
        cool(g, cols, rows, s).len() == g.len(),
        heat_at_most(cool(g, cols, rows, s), h),
{
    lemma_cool_only_source(g, cols, rows, s);
    lemma_row_start(cols as int, rows as int);
    assert forall|i: int| 0 <= i < cool(g, cols, rows, s).len() implies #[trigger] cool(
        g,
        cols,
        rows,
        s,
    )[i] <= h by {
        if i >= (rows - 1) * cols {
            assert(cool(g, cols, rows, s)[i] <= floor_zero(g[i] - 2));
        }
    }
}

/// The hottest cell of the grid, 0 for an empty grid.
pub fn peak(grid: &[u8]) -> (m: u8)
    ensures
        forall|i: int| 0 <= i < grid@.len() ==> grid@[i] <= m,
        grid@.len() == 0 ==> m == 0,
        grid@.len() > 0 ==> exists|i: int| 0 <= i < grid@.len() && grid@[i] == m,
{
    let mut m: u8 = 0;
    let mut i: usize = 0;
    while i < grid.len()
        invariant
            i <= grid@.len(),
            forall|j: int| 0 <= j < i ==> grid@[j] <= m,
            i == 0 ==> m == 0,
            i > 0 ==> exists|j: int| 0 <= j < i && grid@[j] == m,
        decreases grid@.len() - i,
    {
        if i == 0 || grid[i] > m {
            m = grid[i];
        }
        i = i + 1;
    }
    m
}

} // verus!
