//! The burn: frame after frame of fire, as a state machine that the program
//! around it drives with the clock, the terminal size and the interrupt flag.
use vstd::prelude::*;
use vstd::utf8::encode_utf8;
use crate::fire::{
    cool, cool_source, fresh_grid, heat_at_most, lemma_cool_keeps_bound, lemma_cool_only_source,
    lemma_one_column_spread, lemma_row_start,
    lemma_spread_cools_and_keeps_source, peak, resize_grid, spread, spread_fire, spread_rng, MAX_HEAT,
};
use crate::render::{frame_text, render, Palette};
use crate::rng::{xorshift_iter, Rng};

verus! {

/// The longest a burn lasts, in nanoseconds.
pub const MAX_DURATION_NS: u64 = 2_200_000_000;

/// Spreading steps per frame.
pub const STEPS_PER_FRAME: usize = 2;

/// Once the source cools, the burn ends when no cell is this hot.
pub const DIE_OUT_THRESHOLD: u8 = 2;

/// One simulation step: spread, then, once the source is cooling, cool it.
/// Gives the grid and the generator state after the step.
pub open spec fn fire_step(g: Seq<u8>, cols: nat, rows: nat, s: u64, cooling: bool) -> (
    Seq<u8>,
    u64,
) {
    let g1 = spread(g, cols, rows, s);
    let s1 = spread_rng(s, cols, rows);
    if cooling {
        (cool(g1, cols, rows, s1), xorshift_iter(s1, cols))
    } else {
        (g1, s1)
    }
}

/// The steps of one frame.
pub open spec fn frame_steps(g: Seq<u8>, cols: nat, rows: nat, s: u64, cooling: bool) -> (
    Seq<u8>,
    u64,
) {
    let (g1, s1) = fire_step(g, cols, rows, s, cooling);
    fire_step(g1, cols, rows, s1, cooling)
}

proof fn lemma_step_one_column(g: Seq<u8>, rows: nat, s: u64, cooling: bool)
    requires
        rows >= 2,
        g.len() == rows,
    ensures
        fire_step(g, 1, rows, s, cooling).0.len() == rows,
        forall|k: int|
            0 <= k < rows - 1 ==> g[k + 1] - 3 <= #[trigger] fire_step(g, 1, rows, s, cooling).0[k]
                <= g[k + 1],
{
    lemma_one_column_spread(g, rows, s);
    let g1 = spread(g, 1, rows, s);
    if cooling {
        lemma_cool_only_source(g1, 1, rows, spread_rng(s, 1, rows));
        assert forall|k: int| 0 <= k < rows - 1 implies g[k + 1] - 3
            <= #[trigger] fire_step(g, 1, rows, s, cooling).0[k] <= g[k + 1] by {
            assert(fire_step(g, 1, rows, s, cooling).0[k] == g1[k]);
        }
    }
}

/// A frame runs two simulation steps, so heat climbs two rows a frame: in a
/// fresh one-column fire of three or more rows, one step leaves the cell two
/// rows above the source cold, and the two steps of a frame bring it to at
/// least 30 (the source's 36 less two decays of at most 3), cooling or not.
pub proof fn lemma_frame_climbs_two_rows(rows: nat, s: u64, cooling: bool)
    requires
        rows >= 3,
    ensures
        fire_step(fresh_grid(1, rows), 1, rows, s, cooling).0[rows - 3] == 0,
        frame_steps(fresh_grid(1, rows), 1, rows, s, cooling).0[rows - 3] >= 30,
{
    let g0 = fresh_grid(1, rows);
    assert(g0.len() == rows);
    assert(g0[rows - 1] == 36);
    assert(g0[rows - 2] == 0);
    lemma_step_one_column(g0, rows, s, cooling);
    let (g1, s1) = fire_step(g0, 1, rows, s, cooling);
    assert(g1[rows - 3] <= g0[rows - 2]);
    assert(g1[rows - 2] >= 33);
    lemma_step_one_column(g1, rows, s1, cooling);
}

/// What the driver does after a tick.
#[derive(Clone, Copy, Debug, PartialEq, Eq, Structural)]
pub enum Tick {
    /// Stop without drawing.
    Stop,
    /// Write the frame; stop after it when `last`, else wait and tick again.
    Show { last: bool },
}

/// The state of a burn, as the specification sees it.
pub struct BurnView {
    pub cols: nat,
    pub rows: nat,
    pub grid: Seq<u8>,
    pub rng: u64,
    pub frame: Seq<char>,
}

/// A burn in progress: the grid, the terminal size it was made for, the
/// generator and the last frame drawn.
pub struct Burn {
    cols: usize,
    rows: usize,
    grid: Vec<u8>,
    rng: Rng,
    frame: String,
}

impl View for Burn {
    type V = BurnView;

    closed spec fn view(&self) -> BurnView {
        BurnView {
            cols: self.cols as nat,
            rows: self.rows as nat,
            grid: self.grid@,
            rng: self.rng@,
            frame: self.frame@,
        }
    }
}

impl Burn {
    /// The grid fits its size, no cell is hotter than `MAX_HEAT`, there is
    /// at least one row, and column numbers fit an `i32`.
    pub open spec fn wf(&self) -> bool {
        &&& self@.grid.len() == self@.cols * self@.rows
        &&& self@.rows >= 1
        &&& self@.cols <= i32::MAX
        &&& heat_at_most(self@.grid, MAX_HEAT as int)
    }

    /// A burn for a `cols` by `rows` terminal with a fresh grid.
    pub fn new(cols: usize, rows: usize, rng: Rng) -> (b: Burn)
        requires
            rows >= 1,
            cols <= i32::MAX,
            cols * rows <= usize::MAX,
        ensures
            b.wf(),
            b@.cols == cols,
            b@.rows == rows,
            b@.grid == fresh_grid(cols as nat, rows as nat),
            b@.rng == rng@,
            b@.frame == Seq::<char>::empty(),
    {
        let grid = resize_grid(cols, rows);
        let frame = String::new();
        let b = Burn { cols, rows, grid, rng, frame };
        assert(heat_at_most(b@.grid, MAX_HEAT as int));
        b
    }

    /// The frame drawn by the last tick.
    pub fn frame(&self) -> (f: &str)
        ensures
            f@ == self@.frame,
    {
        self.frame.as_str()
    }

    /// The current heat grid, row by row.
    pub fn grid(&self) -> (g: &[u8])
        ensures
            g@ == self@.grid,
    {
        self.grid.as_slice()
    }

    /// One frame of the burn. Stops when interrupted or past the burn's
    /// length; otherwise follows a terminal resize with a fresh grid, runs
    /// the frame's steps (cooling the source once `elapsed_ns` passes
    /// `cool_at_ns`), draws the frame, and marks it the last one when the
    /// source is cooling and the fire has died down.
    pub fn tick(
        &mut self,
        interrupted: bool,
        elapsed_ns: u64,
        cool_at_ns: u64,
        size: (usize, usize),
        palette: &Palette,
        label: &str,
    ) -> (t: Tick)
        requires
            old(self).wf(),
            size.1 >= 1,
            size.0 <= i32::MAX,
            size.0 * size.1 <= usize::MAX,
            encode_utf8(label@).len() <= usize::MAX,
        ensures
            final(self).wf(),
            interrupted || elapsed_ns > MAX_DURATION_NS ==> t == Tick::Stop && final(self)@
                == old(self)@,
            !(interrupted || elapsed_ns > MAX_DURATION_NS) ==> {
                let resized = size.0 != old(self)@.cols || size.1 != old(self)@.rows;
                let g0 = if resized {
                    fresh_grid(size.0 as nat, size.1 as nat)
                } else {
                    old(self)@.grid
                };
                let cooling = elapsed_ns > cool_at_ns;
                let (g, s) = frame_steps(g0, size.0 as nat, size.1 as nat, old(self)@.rng, cooling);
                &&& final(self)@.cols == size.0
                &&& final(self)@.rows == size.1
                &&& final(self)@.grid == g
                &&& final(self)@.rng == s
                &&& final(self)@.frame == frame_text(
                    g,
                    size.0 as nat,
                    size.1 as nat,
                    palette@,
                    label@,
                )
                &&& t == Tick::Show {
                    last: cooling && heat_at_most(g, (DIE_OUT_THRESHOLD - 1) as int),
                }
            },
    {
        if interrupted {
            return Tick::Stop;
        }
        if elapsed_ns > MAX_DURATION_NS {
            return Tick::Stop;
        }
        let (new_cols, new_rows) = size;
        if new_cols != self.cols || new_rows != self.rows {
            self.cols = new_cols;
            self.rows = new_rows;
            self.grid = resize_grid(new_cols, new_rows);
        }
        let cooling = elapsed_ns > cool_at_ns;
        let cols = self.cols;
        let rows = self.rows;
        let ghost g0 = self.grid@;
        let ghost s0 = self.rng@;
        proof {
            lemma_row_start(cols as int, rows as int);
        }
        let mut step: usize = 0;
        while step < STEPS_PER_FRAME
            invariant
                cols == self.cols,
                rows == self.rows,
                rows >= 1,
                cols <= i32::MAX,
                self.grid@.len() == cols * rows,
                heat_at_most(self.grid@, MAX_HEAT as int),
                step <= STEPS_PER_FRAME,
                step == 0 ==> self.grid@ == g0 && self.rng@ == s0,
                step == 1 ==> (self.grid@, self.rng@) == fire_step(
                    g0,
                    cols as nat,
                    rows as nat,
                    s0,
                    cooling,
                ),
                step == 2 ==> (self.grid@, self.rng@) == frame_steps(
                    g0,
                    cols as nat,
                    rows as nat,
                    s0,
                    cooling,
                ),
            decreases STEPS_PER_FRAME - step,
        {
            let ghost gs = self.grid@;
            proof {
                lemma_spread_cools_and_keeps_source(
                    gs,
                    cols as nat,
                    rows as nat,
                    self.rng@,
                    MAX_HEAT as int,
                );
            }
            spread_fire(&mut self.grid, cols, rows, &mut self.rng);
            if cooling {
                proof {
                    lemma_cool_keeps_bound(
                        self.grid@,
                        cols as nat,
                        rows as nat,
                        self.rng@,
                        MAX_HEAT as int,
                    );
                }
                cool_source(&mut self.grid, cols, rows, &mut self.rng);
            }
            step = step + 1;
        }
        render(&mut self.frame, &self.grid, cols, rows, palette, label);
        let last = cooling && peak(&self.grid) < DIE_OUT_THRESHOLD;
        Tick::Show { last }
    }
}

} // verus!
