//! Drawing a heat grid as one frame of ANSI text.
use vstd::prelude::*;
use vstd::utf8::encode_utf8;
use crate::fire::{cell_index, lemma_cell_in_grid, MAX_HEAT};
use crate::text::{bg_rgb, clear_string, decimal, push_bg_rgb, push_decimal, push_str};

verus! {

/// Thirty-seven colours, one for each heat level `0..=36`.
pub type Palette = [(u8, u8, u8); 37];

/// What a cell is painted with: the terminal's own background for a cold
/// cell, or a palette colour.
#[derive(Clone, Copy, Debug, PartialEq, Eq, Structural)]
pub enum CellColor {
    Default,
    Rgb(u8, u8, u8),
}

/// The colour of a cell with heat `heat`.
pub open spec fn heat_color(heat: u8, palette: Seq<(u8, u8, u8)>) -> CellColor {
    if heat == 0 {
        CellColor::Default
    } else {
        let c = palette[heat as int];
        CellColor::Rgb(c.0, c.1, c.2)
    }
}

/// The escape sequence that switches to a cell colour.
pub open spec fn color_code(c: CellColor) -> Seq<char> {
    match c {
        CellColor::Default => "\x1b[49m"@,
        CellColor::Rgb(r, g, b) => bg_rgb(r, g, b),
    }
}

/// The colour of the `k`-th cell, counting row by row.
pub open spec fn grid_color(grid: Seq<u8>, palette: Seq<(u8, u8, u8)>, k: int) -> CellColor {
    heat_color(grid[k], palette)
}

/// A colour code is written before cell `k` exactly when it is the first cell
/// or its colour differs from the cell drawn before it.
pub open spec fn color_changes(grid: Seq<u8>, palette: Seq<(u8, u8, u8)>, k: int) -> bool {
    k == 0 || grid_color(grid, palette, k) != grid_color(grid, palette, k - 1)
}

/// The text of cell `k`: a colour code where the colour changes, then a space.
pub open spec fn cell_text(grid: Seq<u8>, palette: Seq<(u8, u8, u8)>, k: int) -> Seq<char> {
    (if color_changes(grid, palette, k) {
        color_code(grid_color(grid, palette, k))
    } else {
        Seq::empty()
    }) + " "@
}

/// The first `n` cells of row `y`.
pub open spec fn row_cells(
    grid: Seq<u8>,
    palette: Seq<(u8, u8, u8)>,
    cols: int,
    y: int,
    n: nat,
) -> Seq<char>
    decreases n,
{
    if n == 0 {
        Seq::empty()
    } else {
        row_cells(grid, palette, cols, y, (n - 1) as nat) + cell_text(
            grid,
            palette,
            cell_index(cols, n - 1, y),
        )
    }
}

/// The first `m` rows, each ended by a newline.
pub open spec fn rows_text(grid: Seq<u8>, palette: Seq<(u8, u8, u8)>, cols: nat, m: nat) -> Seq<
    char,
>
    decreases m,
{
    if m == 0 {
        Seq::empty()
    } else {
        rows_text(grid, palette, cols, (m - 1) as nat) + row_cells(
            grid,
            palette,
            cols as int,
            m - 1,
            cols,
        ) + "\n"@
    }
}

/// The palette's name in the bottom-right corner, in faint grey, when the
/// name is not empty and the row is wider than its bytes plus two.
pub open spec fn label_text(cols: nat, rows: nat, label: Seq<char>) -> Seq<char> {
    let len = encode_utf8(label).len();
    if label.len() > 0 && cols > len + 2 {
        "\x1b["@ + decimal(rows) + ";"@ + decimal((cols - len - 1) as nat)
            + "H\x1b[0m\x1b[38;2;80;80;80m "@ + label + " \x1b[0m"@
    } else {
        Seq::empty()
    }
}

/// A whole frame: cursor home, every row of cells, then the label.
pub open spec fn frame_text(
    grid: Seq<u8>,
    cols: nat,
    rows: nat,
    palette: Seq<(u8, u8, u8)>,
    label: Seq<char>,
) -> Seq<char> {
    "\x1b[H"@ + rows_text(grid, palette, cols, rows) + label_text(cols, rows, label)
}

/// The label goes in the bottom-right corner: when it is drawn (it is not
/// empty and the row is wider than its bytes plus two), the frame ends with
/// the cursor moved to row `rows`, the frame's last, at column `cols` less
/// the label's bytes less one, then the label in faint grey between two
/// spaces; otherwise the frame is only the cursor-home code and the rows.
pub proof fn lemma_label_bottom_right(
    grid: Seq<u8>,
    cols: nat,
    rows: nat,
    palette: Seq<(u8, u8, u8)>,
    label: Seq<char>,
)
    ensures
        ({
            let len = encode_utf8(label).len();
            label.len() > 0 && cols > len + 2 ==> frame_text(grid, cols, rows, palette, label)
                == "\x1b[H"@ + rows_text(grid, palette, cols, rows) + "\x1b["@ + decimal(rows)
                + ";"@ + decimal((cols - len - 1) as nat) + "H\x1b[0m\x1b[38;2;80;80;80m "@ + label
                + " \x1b[0m"@
        }),
        ({
            let len = encode_utf8(label).len();
            !(label.len() > 0 && cols > len + 2) ==> frame_text(grid, cols, rows, palette, label)
                == "\x1b[H"@ + rows_text(grid, palette, cols, rows)
        }),
{
    let head = "\x1b[H"@ + rows_text(grid, palette, cols, rows);
    let lt = label_text(cols, rows, label);
    assert(frame_text(grid, cols, rows, palette, label) == head + lt);
    if !(label.len() > 0 && cols > encode_utf8(label).len() + 2) {
        assert(head + lt =~= head);
    } else {
        assert(head + lt =~= "\x1b[H"@ + rows_text(grid, palette, cols, rows) + "\x1b["@ + decimal(
            rows,
        ) + ";"@ + decimal((cols - encode_utf8(label).len() - 1) as nat)
            + "H\x1b[0m\x1b[38;2;80;80;80m "@ + label + " \x1b[0m"@);
    }
}

/// The colour in effect at cell `k` while the frame is drawn: the colour of
/// the last code written at or before it.
pub open spec fn color_in_effect(grid: Seq<u8>, palette: Seq<(u8, u8, u8)>, k: nat) -> CellColor
    decreases k,
{
    if color_changes(grid, palette, k as int) {
        grid_color(grid, palette, k as int)
    } else {
        color_in_effect(grid, palette, (k - 1) as nat)
    }
}

/// Writing a colour code only where the colour changes loses nothing: every
/// cell is drawn in its own colour.
pub proof fn lemma_every_cell_in_its_color(grid: Seq<u8>, palette: Seq<(u8, u8, u8)>, k: nat)
    ensures
        color_in_effect(grid, palette, k) == grid_color(grid, palette, k as int),
    decreases k,
{
    if !color_changes(grid, palette, k as int) {
        lemma_every_cell_in_its_color(grid, palette, (k - 1) as nat);
    }
}

fn push_color_code(s: &mut String, c: CellColor)
    ensures
        final(s)@ == old(s)@ + color_code(c),
{
    match c {
        CellColor::Default => push_str(s, "\x1b[49m"),
        CellColor::Rgb(r, g, b) => push_bg_rgb(s, r, g, b),
    }
}

/// Draws the grid into `buf`: one space per cell, coloured by its heat, a
/// colour code only where the colour changes, a newline after each row, and
/// the label at the bottom right.
pub fn render(buf: &mut String, grid: &[u8], cols: usize, rows: usize, palette: &Palette, label: &str)
    requires
        cols * rows <= grid@.len(),
        forall|i: int| 0 <= i < cols * rows ==> grid@[i] <= MAX_HEAT,
        encode_utf8(label@).len() <= usize::MAX,
    ensures
        final(buf)@ == frame_text(grid@, cols as nat, rows as nat, palette@, label@),
{
    let n = grid.len();
    clear_string(buf);
    push_str(buf, "\x1b[H");
    let ghost head = buf@;
    let mut last: Option<CellColor> = None;
    let mut y: usize = 0;
    while y < rows
        invariant
            y <= rows,
            cols * rows <= grid@.len(),
            n == grid@.len(),
            forall|i: int| 0 <= i < cols * rows ==> grid@[i] <= MAX_HEAT,
            head == "\x1b[H"@,
            buf@ == head + rows_text(grid@, palette@, cols as nat, y as nat),
            last == (if y * cols == 0 {
                None
            } else {
                Some(grid_color(grid@, palette@, y * cols - 1))
            }),
        decreases rows - y,
    {
        let ghost row_head = buf@;
        let mut x: usize = 0;
        while x < cols
            invariant
                y < rows,
                x <= cols,
                cols * rows <= grid@.len(),
                n == grid@.len(),
                forall|i: int| 0 <= i < cols * rows ==> grid@[i] <= MAX_HEAT,
                row_head == head + rows_text(grid@, palette@, cols as nat, y as nat),
                buf@ == row_head + row_cells(grid@, palette@, cols as int, y as int, x as nat),
                last == (if y * cols + x == 0 {
                    None
                } else {
                    Some(grid_color(grid@, palette@, y * cols + x - 1))
                }),
            decreases cols - x,
        {
            proof {
                lemma_cell_in_grid(cols as int, rows as int, x as int, y as int);
                assert(y * cols <= y * cols + x < grid@.len());
            }
            let k = y * cols + x;
            let heat = grid[k];
            let color = if heat == 0 {
                CellColor::Default
            } else {
                let (r, g, b) = palette[heat as usize];
                CellColor::Rgb(r, g, b)
            };
            let changed = match last {
                Some(prev) => prev != color,
                None => true,
            };
            if changed {
                push_color_code(buf, color);
                last = Some(color);
            }
            push_str(buf, " ");
            proof {
                assert(color == grid_color(grid@, palette@, k as int));
                assert(changed == color_changes(grid@, palette@, k as int));
                assert(buf@ =~= row_head + row_cells(
                    grid@,
                    palette@,
                    cols as int,
                    y as int,
                    (x + 1) as nat,
                ));
            }
            x = x + 1;
        }
        push_str(buf, "\n");
        proof {
            assert(buf@ =~= head + rows_text(grid@, palette@, cols as nat, (y + 1) as nat));
            assert((y + 1) * cols == y * cols + cols) by (nonlinear_arith);
        }
        y = y + 1;
    }
    let len = label.len();
    assert(len == encode_utf8(label@).len());
    let ghost body = buf@;
    if !label.is_empty() && cols > 2 && cols - 2 > len {
        let col = cols - len - 1;
        push_str(buf, "\x1b[");
        push_decimal(buf, rows as u64);
        push_str(buf, ";");
        push_decimal(buf, col as u64);
        push_str(buf, "H\x1b[0m\x1b[38;2;80;80;80m ");
        push_str(buf, label);
        push_str(buf, " \x1b[0m");
        assert(buf@ =~= body + label_text(cols as nat, rows as nat, label@));
    } else {
        assert(label_text(cols as nat, rows as nat, label@) =~= Seq::<char>::empty());
    }
    assert(buf@ =~= frame_text(grid@, cols as nat, rows as nat, palette@, label@));
}

} // verus!
