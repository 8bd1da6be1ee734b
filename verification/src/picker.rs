//! The interactive picker: reading keys, editing a typed colour, moving
//! through the list, and drawing the list.
use vstd::prelude::*;
use crate::choice::{
    named_palette, palette_desc, palette_display, palette_id, ChoiceView, PaletteChoice,
    NAMED_PALETTE_COUNT,
};
use crate::color::{
    hex_color, hex_splits_char, hex_to_rgb, palette_swatch, palette_swatch_text, swatch, swatch_text,
    utf8_size_upto,
};
use crate::render::Palette;
use crate::text::{
    chars_of, clear_string, decimal, push_char, push_decimal, push_str, string_of_range, trim, trim_range,
    utf8_len, utf8_size,
};

verus! {

/// A key press, as the picker reads it.
#[derive(Clone, Copy, Debug, PartialEq, Eq, Structural)]
pub enum Key {
    Up,
    Down,
    Enter,
    Char(char),
    Esc,
    Backspace,
    Other,
}

/// The key that the bytes of one read stand for: the arrow sequences, a
/// lone escape, carriage return or line feed, delete or backspace, and
/// printable ASCII; anything else, or nothing, is `Other`.
pub open spec fn key_of(b: Seq<u8>) -> Key {
    if b.len() >= 3 && b[0] == 0x1b && b[1] == 0x5b && b[2] == 0x41 {
        Key::Up
    } else if b.len() >= 3 && b[0] == 0x1b && b[1] == 0x5b && b[2] == 0x42 {
        Key::Down
    } else if b.len() == 1 && b[0] == 0x1b {
        Key::Esc
    } else if b.len() == 1 && (b[0] == 0x0d || b[0] == 0x0a) {
        Key::Enter
    } else if b.len() == 1 && (b[0] == 0x7f || b[0] == 0x08) {
        Key::Backspace
    } else if b.len() == 1 && 0x20 <= b[0] < 0x7f {
        Key::Char(b[0] as char)
    } else {
        Key::Other
    }
}

/// The key that the bytes of one read stand for (see `key_of`).
pub fn decode_key(bytes: &[u8]) -> (k: Key)
    ensures
        k == key_of(bytes@),
{
    let n = bytes.len();
    if n >= 3 && bytes[0] == 0x1b && bytes[1] == 0x5b && bytes[2] == 0x41 {
        Key::Up
    } else if n >= 3 && bytes[0] == 0x1b && bytes[1] == 0x5b && bytes[2] == 0x42 {
        Key::Down
    } else if n == 1 && bytes[0] == 0x1b {
        Key::Esc
    } else if n == 1 && (bytes[0] == 0x0d || bytes[0] == 0x0a) {
        Key::Enter
    } else if n == 1 && (bytes[0] == 0x7f || bytes[0] == 0x08) {
        Key::Backspace
    } else if n == 1 && 0x20 <= bytes[0] && bytes[0] < 0x7f {
        Key::Char(bytes[0] as char)
    } else {
        Key::Other
    }
}

/// What typing a key into the colour prompt leads to.
pub enum PromptOutcome {
    /// Keep editing.
    Editing,
    /// The trimmed input, which reads as a colour.
    Done(String),
    /// The prompt was left.
    Cancelled,
    /// The input is not a colour: flash a hint; the input is now empty.
    Rejected,
}

/// What typing a key into the colour prompt leads to, as the
/// specification sees it.
pub enum PromptView {
    Editing,
    Done(Seq<char>),
    Cancelled,
    Rejected,
}

impl View for PromptOutcome {
    type V = PromptView;

    open spec fn view(&self) -> PromptView {
        match self {
            PromptOutcome::Editing => PromptView::Editing,
            PromptOutcome::Done(s) => PromptView::Done(s@),
            PromptOutcome::Cancelled => PromptView::Cancelled,
            PromptOutcome::Rejected => PromptView::Rejected,
        }
    }
}

/// The longest input the prompt takes, in bytes.
pub const PROMPT_MAX_BYTES: usize = 7;

/// The prompt after a key: Enter takes the trimmed input (leaves on an
/// empty one, accepts a colour, else rejects it and empties the input);
/// Backspace drops the last character; a character is added while the input
/// is shorter than seven bytes; Esc leaves; other keys do nothing.
pub open spec fn prompt_next(input: Seq<char>, key: Key) -> (Seq<char>, PromptView) {
    match key {
        Key::Enter => {
            let s = trim(input);
            if s.len() == 0 {
                (input, PromptView::Cancelled)
            } else if hex_color(s) is Some {
                (input, PromptView::Done(s))
            } else {
                (Seq::empty(), PromptView::Rejected)
            }
        },
        Key::Backspace => (
            if input.len() > 0 {
                input.drop_last()
            } else {
                input
            },
            PromptView::Editing,
        ),
        Key::Char(c) => (
            if utf8_len(input) < PROMPT_MAX_BYTES {
                input.push(c)
            } else {
                input
            },
            PromptView::Editing,
        ),
        Key::Esc => (input, PromptView::Cancelled),
        _ => (input, PromptView::Editing),
    }
}

/// Calls `String::pop`, which std documents as removing the last character
/// and returning it, or `None` when the string is empty.
#[verifier::external_body]
fn pop_char(s: &mut String) -> (r: Option<char>)
    ensures
        old(s)@.len() == 0 ==> r is None && final(s)@ == old(s)@,
        old(s)@.len() > 0 ==> r == Some(old(s)@.last()) && final(s)@ == old(s)@.drop_last(),
{
    s.pop()
}

/// Feeds one key to the colour prompt (see `prompt_next`).
pub fn prompt_key(input: &mut String, key: Key) -> (r: PromptOutcome)
    requires
        key == Key::Enter ==> !hex_splits_char(trim(old(input)@)),
    ensures
        (final(input)@, r@) == prompt_next(old(input)@, key),
{
    match key {
        Key::Enter => {
            let v = chars_of(input.as_str());
            let (a, b) = trim_range(&v, 0, v.len());
            assert(v@.subrange(0, v@.len() as int) =~= v@);
            let s = string_of_range(&v, a, b);
            if a == b {
                return PromptOutcome::Cancelled;
            }
            if hex_to_rgb(s.as_str()).is_some() {
                PromptOutcome::Done(s)
            } else {
                clear_string(input);
                PromptOutcome::Rejected
            }
        },
        Key::Backspace => {
            pop_char(input);
            PromptOutcome::Editing
        },
        Key::Char(c) => {
            let v = chars_of(input.as_str());
            if utf8_size_upto(&v, 0, v.len(), PROMPT_MAX_BYTES) < PROMPT_MAX_BYTES {
                push_char(input, c);
            }
            proof {
                assert(v@.subrange(0, v@.len() as int) =~= v@);
            }
            PromptOutcome::Editing
        },
        Key::Esc => PromptOutcome::Cancelled,
        _ => PromptOutcome::Editing,
    }
}

/// Entries in the picker: the named palettes, then the custom gradient.
pub const PICKER_ENTRIES: usize = 10;

/// Where a key takes the picker.
pub enum PickStep {
    /// Stay in the list, with this entry selected.
    Select(usize),
    /// A named palette was chosen.
    Choose(PaletteChoice),
    /// The custom gradient entry was chosen: prompt for its two colours.
    PromptGradient,
    /// The picker was left.
    Cancel,
}

/// Where a key takes the picker, as the specification sees it.
pub enum PickView {
    Select(nat),
    Choose(ChoiceView),
    PromptGradient,
    Cancel,
}

impl View for PickStep {
    type V = PickView;

    open spec fn view(&self) -> PickView {
        match self {
            PickStep::Select(i) => PickView::Select(*i as nat),
            PickStep::Choose(c) => PickView::Choose(c@),
            PickStep::PromptGradient => PickView::PromptGradient,
            PickStep::Cancel => PickView::Cancel,
        }
    }
}

/// Up and Down move the selection within the list; Enter chooses the
/// selected palette or, on the last entry, asks for a gradient; Esc or `q`
/// leaves; other keys keep the selection.
pub open spec fn pick_next(selected: nat, key: Key) -> PickView {
    match key {
        Key::Up => PickView::Select(if selected > 0 { (selected - 1) as nat } else { selected }),
        Key::Down => PickView::Select(
            if selected + 1 < PICKER_ENTRIES { selected + 1 } else { selected },
        ),
        Key::Enter => if selected < NAMED_PALETTE_COUNT {
            PickView::Choose(ChoiceView::Named(palette_id(selected as int)))
        } else {
            PickView::PromptGradient
        },
        Key::Esc => PickView::Cancel,
        Key::Char(c) => if c == 'q' {
            PickView::Cancel
        } else {
            PickView::Select(selected)
        },
        _ => PickView::Select(selected),
    }
}

/// Feeds one key to the picker's list (see `pick_next`).
pub fn pick_key(selected: usize, key: Key) -> (r: PickStep)
    requires
        selected < PICKER_ENTRIES,
    ensures
        r@ == pick_next(selected as nat, key),
        r@ matches PickView::Select(i) ==> i < PICKER_ENTRIES,
{
    match key {
        Key::Up => PickStep::Select(if selected > 0 { selected - 1 } else { selected }),
        Key::Down => PickStep::Select(
            if selected + 1 < PICKER_ENTRIES { selected + 1 } else { selected },
        ),
        Key::Enter => {
            if selected < NAMED_PALETTE_COUNT {
                let p = named_palette(selected);
                PickStep::Choose(PaletteChoice::Named(String::from_str(p.id)))
            } else {
                PickStep::PromptGradient
            }
        },
        Key::Esc => PickStep::Cancel,
        Key::Char(c) => if c == 'q' {
            PickStep::Cancel
        } else {
            PickStep::Select(selected)
        },
        _ => PickStep::Select(selected),
    }
}

/// The picker's title.
pub open spec fn picker_title() -> Seq<char> {
    " pyroclear — color picker "@
}

/// The key hints beside the title.
pub open spec fn picker_hint() -> Seq<char> {
    " [↑↓] navigate  [Enter] select  [q/Esc] cancel "@
}

/// `a - b`, or 0 where that is negative.
pub open spec fn sat_sub(a: int, b: int) -> nat {
    if a > b {
        (a - b) as nat
    } else {
        0
    }
}

/// `n` copies of `c`.
pub open spec fn repeat_char(c: char, n: nat) -> Seq<char> {
    Seq::new(n, |i: int| c)
}

/// The width of the swatches: the columns left after 30, kept in `12..=36`.
pub open spec fn picker_swatch_width(cols: nat) -> nat {
    let w = sat_sub(cols as int, 30);
    if w < 12 {
        12
    } else if w > 36 {
        36
    } else {
        w
    }
}

/// The list rows that fit: all rows but the title, a blank, the separator
/// and a bottom margin.
pub open spec fn picker_visible(rows: nat) -> nat {
    sat_sub(rows as int, 4)
}

/// The first entry shown, so that the selected one is on screen.
pub open spec fn picker_offset(selected: nat, visible: nat) -> nat {
    if selected >= visible {
        (selected - visible + 1) as nat
    } else {
        0
    }
}

/// The list always shows the selected entry: it lies between the first
/// shown entry and the last row that fits.
pub proof fn lemma_selection_visible(selected: nat, visible: nat)
    requires
        visible >= 1,
    ensures
        picker_offset(selected, visible) <= selected < picker_offset(selected, visible) + visible,
{
}

/// `s` padded with spaces to ten characters.
pub open spec fn pad10(s: Seq<char>) -> Seq<char> {
    s + repeat_char(' ', sat_sub(10, s.len() as int))
}

/// The name shown for entry `idx`.
pub open spec fn entry_name(idx: int) -> Seq<char> {
    if idx < NAMED_PALETTE_COUNT {
        palette_display(idx)
    } else {
        "Custom"@
    }
}

/// The description shown for entry `idx`.
pub open spec fn entry_desc(idx: int) -> Seq<char> {
    if idx < NAMED_PALETTE_COUNT {
        palette_desc(idx)
    } else {
        "enter your own #rrggbb gradient"@
    }
}

/// The swatch shown for entry `idx`: the palette's levels, or a sample
/// gradient for the custom entry.
pub open spec fn entry_swatch(idx: int, palettes: Seq<Seq<(u8, u8, u8)>>, w: nat) -> Seq<char> {
    if idx < NAMED_PALETTE_COUNT {
        palette_swatch_text(palettes[idx], w)
    } else {
        swatch_text((60, 0, 60), (255, 200, 100), w)
    }
}

/// Moves the cursor to the start of a row (its number as a `u16`) and
/// clears the row.
pub open spec fn row_start(row: int) -> Seq<char> {
    "\x1b["@ + decimal((row % 65536) as nat) + ";1H\x1b[2K"@
}

/// The start of an entry: highlight colours when selected, then the cursor.
pub open spec fn entry_head(sel: bool) -> Seq<char> {
    (if sel {
        "\x1b[48;2;20;25;40m"@
    } else {
        Seq::empty()
    }) + (if sel {
        "\x1b[1;38;2;255;220;80m"@
    } else {
        "\x1b[38;2;200;200;210m"@
    }) + "  "@ + (if sel {
        "▸"@
    } else {
        " "@
    }) + " "@
}

/// The middle of an entry: its name, swatch and description.
pub open spec fn entry_body(idx: int, palettes: Seq<Seq<(u8, u8, u8)>>, w: nat) -> Seq<char> {
    pad10(entry_name(idx)) + "  "@ + entry_swatch(idx, palettes, w) + "  \x1b[38;2;140;140;160m"@
        + entry_desc(idx) + "\x1b[0m"@
}

/// The end of an entry: the highlight carried a little further when selected.
pub open spec fn entry_tail(sel: bool) -> Seq<char> {
    if sel {
        "\x1b[48;2;20;25;40m    \x1b[0m"@
    } else {
        Seq::empty()
    }
}

/// The text of entry `idx`, highlighted when selected.
pub open spec fn entry_text(
    idx: int,
    selected: nat,
    palettes: Seq<Seq<(u8, u8, u8)>>,
    w: nat,
) -> Seq<char> {
    let sel = idx == selected;
    entry_head(sel) + entry_body(idx, palettes, w) + entry_tail(sel)
}

/// The text of list slot `slot`: the row is cleared, then holds its entry;
/// the slot just past the last entry is only cleared, and later slots are
/// left alone.
pub open spec fn slot_text(
    slot: nat,
    selected: nat,
    rows: nat,
    palettes: Seq<Seq<(u8, u8, u8)>>,
    w: nat,
) -> Seq<char> {
    let idx = slot + picker_offset(selected, picker_visible(rows));
    if idx > PICKER_ENTRIES {
        Seq::empty()
    } else {
        row_start(slot + 3 as int) + if idx < PICKER_ENTRIES {
            entry_text(idx as int, selected, palettes, w)
        } else {
            Seq::empty()
        }
    }
}

/// The first `n` list slots.
pub open spec fn list_text(
    n: nat,
    selected: nat,
    rows: nat,
    palettes: Seq<Seq<(u8, u8, u8)>>,
    w: nat,
) -> Seq<char>
    decreases n,
{
    if n == 0 {
        Seq::empty()
    } else {
        list_text((n - 1) as nat, selected, rows, palettes, w) + slot_text(
            (n - 1) as nat,
            selected,
            rows,
            palettes,
            w,
        )
    }
}

/// The whole picker screen: the title bar, the list, and a separator.
pub open spec fn picker_text(
    selected: nat,
    cols: nat,
    rows: nat,
    palettes: Seq<Seq<(u8, u8, u8)>>,
) -> Seq<char> {
    let gap = sat_sub(cols as int, (utf8_len(picker_title()) + utf8_len(picker_hint())) as int);
    let visible = picker_visible(rows);
    "\x1b[H"@ + "\x1b[48;2;30;30;50m\x1b[38;2;255;200;80m"@ + picker_title() + "\x1b[38;2;140;140;160m"@
        + repeat_char(' ', gap) + picker_hint() + "\x1b[0m"@ + list_text(
        visible,
        selected,
        rows,
        palettes,
        picker_swatch_width(cols),
    ) + row_start(visible + 3 as int) + "\x1b[38;2;60;60;80m"@ + repeat_char('─', cols) + "\x1b[0m"@
}

proof fn lemma_utf8_len_bound(v: Seq<char>)
    ensures
        utf8_len(v) <= 4 * v.len(),
    decreases v.len(),
{
    if v.len() > 0 {
        lemma_utf8_len_bound(v.drop_last());
    }
}

proof fn lemma_list_after_break(
    slot: nat,
    n: nat,
    selected: nat,
    rows: nat,
    ps: Seq<Seq<(u8, u8, u8)>>,
    w: nat,
)
    requires
        slot < n,
        slot + picker_offset(selected, picker_visible(rows)) == PICKER_ENTRIES,
    ensures
        list_text(n, selected, rows, ps, w) == list_text(slot + 1, selected, rows, ps, w),
    decreases n,
{
    if n > slot + 1 {
        lemma_list_after_break(slot, (n - 1) as nat, selected, rows, ps, w);
        assert(slot_text((n - 1) as nat, selected, rows, ps, w) =~= Seq::<char>::empty());
    }
}

fn push_repeat(s: &mut String, c: char, n: usize)
    ensures
        final(s)@ == old(s)@ + repeat_char(c, n as nat),
{
    let mut i: usize = 0;
    while i < n
        invariant
            i <= n,
            s@ == old(s)@ + repeat_char(c, i as nat),
        decreases n - i,
    {
        push_char(s, c);
        assert(s@ =~= old(s)@ + repeat_char(c, (i + 1) as nat));
        i = i + 1;
    }
}

fn push_row_start(s: &mut String, row: usize)
    ensures
        final(s)@ == old(s)@ + row_start(row as int),
{
    push_str(s, "\x1b[");
    push_decimal(s, (row % 65536) as u64);
    push_str(s, ";1H\x1b[2K");
}

fn push_entry_head(s: &mut String, sel: bool)
    ensures
        final(s)@ == old(s)@ + entry_head(sel),
{
    if sel {
        push_str(s, "\x1b[48;2;20;25;40m");
        push_str(s, "\x1b[1;38;2;255;220;80m");
        push_str(s, "  ");
        push_str(s, "▸");
    } else {
        push_str(s, "\x1b[38;2;200;200;210m");
        push_str(s, "  ");
        push_str(s, " ");
    }
    push_str(s, " ");
    assert(final(s)@ =~= old(s)@ + entry_head(sel));
}

fn push_entry_body(s: &mut String, idx: usize, palettes: &[Palette], w: usize)
    requires
        idx < PICKER_ENTRIES,
        palettes@.len() >= NAMED_PALETTE_COUNT,
        w >= 1,
    ensures
        final(s)@ == old(s)@ + entry_body(
            idx as int,
            palettes@.map_values(|p: Palette| p@),
            w as nat,
        ),
{
    let ghost ps = palettes@.map_values(|p: Palette| p@);
    let (name, desc, sw) = if idx < NAMED_PALETTE_COUNT {
        let p = named_palette(idx);
        let sw = palette_swatch(&palettes[idx], w);
        proof {
            assert(ps[idx as int] == palettes@[idx as int]@);
        }
        (p.display, p.desc, sw)
    } else {
        ("Custom", "enter your own #rrggbb gradient", swatch((60, 0, 60), (255, 200, 100), w))
    };
    assert(name@ == entry_name(idx as int));
    assert(desc@ == entry_desc(idx as int));
    assert(sw@ == entry_swatch(idx as int, ps, w as nat));
    push_str(s, name);
    let name_chars = chars_of(name);
    let pad = if name_chars.len() < 10 {
        10 - name_chars.len()
    } else {
        0
    };
    push_repeat(s, ' ', pad);
    assert(s@ =~= old(s)@ + pad10(entry_name(idx as int)));
    push_str(s, "  ");
    push_str(s, sw.as_str());
    push_str(s, "  \x1b[38;2;140;140;160m");
    push_str(s, desc);
    push_str(s, "\x1b[0m");
    assert(s@ =~= old(s)@ + entry_body(idx as int, ps, w as nat));
}

fn push_entry(s: &mut String, idx: usize, selected: usize, palettes: &[Palette], w: usize)
    requires
        idx < PICKER_ENTRIES,
        palettes@.len() >= NAMED_PALETTE_COUNT,
        w >= 1,
    ensures
        final(s)@ == old(s)@ + entry_text(
            idx as int,
            selected as nat,
            palettes@.map_values(|p: Palette| p@),
            w as nat,
        ),
{
    let sel = idx == selected;
    push_entry_head(s, sel);
    push_entry_body(s, idx, palettes, w);
    if sel {
        push_str(s, "\x1b[48;2;20;25;40m    \x1b[0m");
    }
    assert(s@ =~= old(s)@ + entry_text(
        idx as int,
        selected as nat,
        palettes@.map_values(|p: Palette| p@),
        w as nat,
    ));
}

/// The picker screen for a terminal of `cols` by `rows` with entry
/// `selected` highlighted; `palettes` are the named palettes' colours.
pub fn picker_frame(selected: usize, cols: usize, rows: usize, palettes: &[Palette]) -> (s: String)
    requires
        selected < PICKER_ENTRIES,
        palettes@.len() >= NAMED_PALETTE_COUNT,
    ensures
        s@ == picker_text(
            selected as nat,
            cols as nat,
            rows as nat,
            palettes@.map_values(|p: Palette| p@),
        ),
{
    let ghost ps = palettes@.map_values(|p: Palette| p@);
    let w: usize = {
        let x = if cols > 30 { cols - 30 } else { 0 };
        if x < 12 {
            12
        } else if x > 36 {
            36
        } else {
            x
        }
    };
    let mut s = String::new();
    push_str(&mut s, "\x1b[H");
    let title = " pyroclear — color picker ";
    let hint = " [↑↓] navigate  [Enter] select  [q/Esc] cancel ";
    let tv = chars_of(title);
    let hv = chars_of(hint);
    proof {
        reveal_strlit(" pyroclear — color picker ");
        reveal_strlit(" [↑↓] navigate  [Enter] select  [q/Esc] cancel ");
    }
    let tl = utf8_size(&tv);
    let hl = utf8_size(&hv);
    proof {
        lemma_utf8_len_bound(tv@);
        lemma_utf8_len_bound(hv@);
    }
    let gap = if cols > tl + hl { cols - (tl + hl) } else { 0 };
    push_str(&mut s, "\x1b[48;2;30;30;50m\x1b[38;2;255;200;80m");
    push_str(&mut s, title);
    push_str(&mut s, "\x1b[38;2;140;140;160m");
    push_repeat(&mut s, ' ', gap);
    push_str(&mut s, hint);
    push_str(&mut s, "\x1b[0m");
    let ghost head = s@;
    let visible = if rows > 4 { rows - 4 } else { 0 };
    let offset = if selected >= visible { selected - visible + 1 } else { 0 };
    let mut slot: usize = 0;
    while slot < visible && slot + offset < PICKER_ENTRIES
        invariant
            slot <= visible,
            visible == picker_visible(rows as nat),
            offset == picker_offset(selected as nat, visible as nat),
            slot + offset <= PICKER_ENTRIES,
            w == picker_swatch_width(cols as nat),
            selected < PICKER_ENTRIES,
            palettes@.len() >= NAMED_PALETTE_COUNT,
            ps == palettes@.map_values(|p: Palette| p@),
            s@ == head + list_text(slot as nat, selected as nat, rows as nat, ps, w as nat),
        decreases visible - slot,
    {
        push_row_start(&mut s, slot + 3);
        push_entry(&mut s, slot + offset, selected, palettes, w);
        assert(s@ =~= head + list_text(
            (slot + 1) as nat,
            selected as nat,
            rows as nat,
            ps,
            w as nat,
        ));
        slot = slot + 1;
    }
    if slot < visible {
        push_row_start(&mut s, slot + 3);
        proof {
            assert(s@ =~= head + list_text(
                (slot + 1) as nat,
                selected as nat,
                rows as nat,
                ps,
                w as nat,
            ));
            lemma_list_after_break(
                slot as nat,
                visible as nat,
                selected as nat,
                rows as nat,
                ps,
                w as nat,
            );
        }
    }
    assert(s@ == head + list_text(visible as nat, selected as nat, rows as nat, ps, w as nat));
    push_row_start(&mut s, visible + 3);
    push_str(&mut s, "\x1b[38;2;60;60;80m");
    push_repeat(&mut s, '─', cols);
    push_str(&mut s, "\x1b[0m");
    assert(s@ =~= picker_text(selected as nat, cols as nat, rows as nat, ps));
    s
}

} // verus!
