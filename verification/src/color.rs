//! Colours: `#rrggbb` parsing, the built-in palettes and gradient swatches.
use vstd::prelude::*;
use crate::render::Palette;
use crate::text::{
    char_utf8_len, char_utf8_size, chars_of, skip_start, trim, trim_end_by, trim_range,
    trim_start_by, utf8_len, bg_rgb, push_bg_rgb, push_str, sgr_reset,
};

verus! {

/// The value of a hexadecimal digit, either case.
pub open spec fn hex_value(c: char) -> Option<u8> {
    let u = c as u32;
    if 48 <= u <= 57 {
        Some((u - 48) as u8)
    } else if 97 <= u <= 102 {
        Some((u - 87) as u8)
    } else if 65 <= u <= 70 {
        Some((u - 55) as u8)
    } else {
        None
    }
}

/// A two-character field read as base-16 `u8` by `u8::from_str_radix`: two
/// hexadecimal digits, or a `+` sign followed by one.
pub open spec fn hex_byte(a: char, b: char) -> Option<u8> {
    if a == '+' {
        hex_value(b)
    } else {
        match (hex_value(a), hex_value(b)) {
            (Some(x), Some(y)) => Some((x * 16 + y) as u8),
            _ => None,
        }
    }
}

/// The digits of a colour: the text trimmed, without its leading `#`s.
pub open spec fn hex_body(s: Seq<char>) -> Seq<char> {
    trim_start_by(trim(s), Some('#'))
}

/// The colour that `hex_to_rgb` reads from `s`: six bytes of digits, split
/// into three two-character fields.
pub open spec fn hex_color(s: Seq<char>) -> Option<(u8, u8, u8)> {
    let h = hex_body(s);
    if h.len() == 6 && utf8_len(h) == 6 {
        match (hex_byte(h[0], h[1]), hex_byte(h[2], h[3]), hex_byte(h[4], h[5])) {
            (Some(r), Some(g), Some(b)) => Some((r, g, b)),
            _ => None,
        }
    } else {
        None
    }
}

/// Some prefix of `h` takes exactly `n` bytes.
pub open spec fn is_byte_boundary(h: Seq<char>, n: nat) -> bool {
    exists|k: int| 0 <= k <= h.len() && #[trigger] utf8_len(h.take(k)) == n
}

/// Reading the fields of `s` slices through a character, which panics: the
/// digits take six bytes, and either byte 2 falls inside a character, or the
/// first field reads as a byte (so reading goes on) and byte 4 falls inside
/// a character.
pub open spec fn hex_splits_char(s: Seq<char>) -> bool {
    let h = hex_body(s);
    &&& utf8_len(h) == 6
    &&& {
        ||| !is_byte_boundary(h, 2)
        ||| h.len() >= 2 && hex_byte(h[0], h[1]) is Some && !is_byte_boundary(h, 4)
    }
}

proof fn lemma_utf8_len_take(h: Seq<char>, k: int)
    requires
        0 <= k < h.len(),
    ensures
        utf8_len(h.take(k + 1)) == utf8_len(h.take(k)) + char_utf8_len(h[k]),
{
    assert(h.take(k + 1).drop_last() =~= h.take(k));
}

/// The UTF-8 size of `v[lo..hi]`, or a number above `cap` where it is larger.
pub(crate) fn utf8_size_upto(v: &Vec<char>, lo: usize, hi: usize, cap: usize) -> (n: usize)
    requires
        lo <= hi <= v@.len(),
        cap < 1000,
    ensures
        utf8_len(v@.subrange(lo as int, hi as int)) <= cap ==> n == utf8_len(
            v@.subrange(lo as int, hi as int),
        ),
        utf8_len(v@.subrange(lo as int, hi as int)) > cap ==> n > cap,
{
    let mut n: usize = 0;
    let mut i = lo;
    while i < hi
        invariant
            lo <= i <= hi <= v@.len(),
            cap < 1000,
            n == utf8_len(v@.subrange(lo as int, i as int)),
            n <= cap,
        decreases hi - i,
    {
        assert(v@.subrange(lo as int, i + 1).drop_last() =~= v@.subrange(lo as int, i as int));
        n = n + char_utf8_size(v[i]);
        if n > cap {
            proof {
                lemma_utf8_len_prefix_grows(v@.subrange(lo as int, hi as int), i - lo + 1);
                assert(v@.subrange(lo as int, hi as int).take(i - lo + 1) =~= v@.subrange(
                    lo as int,
                    i + 1,
                ));
            }
            return n;
        }
        i = i + 1;
    }
    n
}

proof fn lemma_utf8_len_prefix_grows(h: Seq<char>, k: int)
    requires
        0 <= k <= h.len(),
    ensures
        utf8_len(h.take(k)) <= utf8_len(h),
    decreases h.len() - k,
{
    if k < h.len() {
        lemma_utf8_len_take(h, k);
        lemma_utf8_len_prefix_grows(h, k + 1);
    } else {
        assert(h.take(k) =~= h);
    }
}

fn hex_digit_value(c: char) -> (r: Option<u8>)
    ensures
        r == hex_value(c),
{
    let u = c as u32;
    if 48 <= u && u <= 57 {
        Some((u - 48) as u8)
    } else if 97 <= u && u <= 102 {
        Some((u - 87) as u8)
    } else if 65 <= u && u <= 70 {
        Some((u - 55) as u8)
    } else {
        None
    }
}

fn parse_hex_byte(a: char, b: char) -> (r: Option<u8>)
    ensures
        r == hex_byte(a, b),
{
    if a == '+' {
        hex_digit_value(b)
    } else {
        match (hex_digit_value(a), hex_digit_value(b)) {
            (Some(x), Some(y)) => Some(x * 16 + y),
            _ => None,
        }
    }
}

/// The bounds of the digits of `v` (see `hex_body`).
fn hex_body_range(v: &Vec<char>) -> (r: (usize, usize))
    ensures
        r.0 <= r.1 <= v@.len(),
        v@.subrange(r.0 as int, r.1 as int) == hex_body(v@),
{
    let (a, b) = trim_range(v, 0, v.len());
    let c = skip_start(v, a, b, Some('#'));
    assert(v@.subrange(0, v@.len() as int) =~= v@);
    (c, b)
}

/// Whether reading `hex` as a colour would slice through a character.
pub fn hex_slices_char(hex: &str) -> (b: bool)
    ensures
        b == hex_splits_char(hex@),
{
    let v = chars_of(hex);
    let (lo, hi) = hex_body_range(&v);
    let ghost h = hex_body(hex@);
    if utf8_size_upto(&v, lo, hi, 6) != 6 {
        return false;
    }
    let mut n: usize = 0;
    let mut at2 = false;
    let mut at4 = false;
    let mut i = lo;
    proof {
        assert(h.take(0) =~= Seq::<char>::empty());
    }
    while i < hi
        invariant
            lo <= i <= hi <= v@.len(),
            h == v@.subrange(lo as int, hi as int),
            utf8_len(h) == 6,
            n == utf8_len(h.take(i - lo)),
            at2 <==> exists|k: int| 0 <= k <= i - lo && #[trigger] utf8_len(h.take(k)) == 2,
            at4 <==> exists|k: int| 0 <= k <= i - lo && #[trigger] utf8_len(h.take(k)) == 4,
            n <= 6,
        decreases hi - i,
    {
        proof {
            lemma_utf8_len_take(h, i - lo);
            lemma_utf8_len_prefix_grows(h, i - lo + 1);
            assert(h[i - lo] == v@[i as int]);
        }
        n = n + char_utf8_size(v[i]);
        i = i + 1;
        if n == 2 {
            at2 = true;
        }
        if n == 4 {
            at4 = true;
        }
        proof {
            if !at2 {
                assert forall|k: int| 0 <= k <= i - lo implies #[trigger] utf8_len(h.take(k)) != 2 by {
                    if k == i - lo {
                    }
                }
            }
            if !at4 {
                assert forall|k: int| 0 <= k <= i - lo implies #[trigger] utf8_len(h.take(k)) != 4 by {
                    if k == i - lo {
                    }
                }
            }
        }
    }
    let first_reads = hi - lo >= 2 && parse_hex_byte(v[lo], v[lo + 1]).is_some();
    proof {
        if hi - lo >= 2 {
            assert(h[0] == v@[lo as int] && h[1] == v@[lo + 1]);
        }
    }
    !at2 || (first_reads && !at4)
}

/// Every character of `s` is ASCII.
pub open spec fn all_ascii(s: Seq<char>) -> bool {
    forall|i: int| 0 <= i < s.len() ==> (#[trigger] s[i] as u32) < 128
}

proof fn lemma_trim_keeps_ascii(s: Seq<char>, pat: Option<char>)
    requires
        all_ascii(s),
    ensures
        all_ascii(trim_start_by(s, pat)),
        all_ascii(trim_end_by(s, pat)),
    decreases s.len(),
{
    if s.len() > 0 {
        assert(all_ascii(s.drop_first()));
        assert(all_ascii(s.drop_last()));
        lemma_trim_keeps_ascii(s.drop_first(), pat);
        lemma_trim_keeps_ascii(s.drop_last(), pat);
    }
}

pub proof fn lemma_ascii_utf8_len(s: Seq<char>)
    requires
        all_ascii(s),
    ensures
        utf8_len(s) == s.len(),
    decreases s.len(),
{
    if s.len() > 0 {
        assert(all_ascii(s.drop_last()));
        lemma_ascii_utf8_len(s.drop_last());
        assert((s.last() as u32) < 128);
    }
}

/// Text that is all ASCII never makes `hex_to_rgb` slice through a
/// character.
pub proof fn lemma_ascii_never_splits(s: Seq<char>)
    requires
        all_ascii(s),
    ensures
        !hex_splits_char(s),
{
    lemma_trim_keeps_ascii(s, None);
    lemma_trim_keeps_ascii(trim_start_by(s, None), None);
    lemma_trim_keeps_ascii(trim(s), Some('#'));
    let h = hex_body(s);
    lemma_ascii_utf8_len(h);
    if utf8_len(h) == 6 {
        assert(all_ascii(h.take(2)));
        assert(all_ascii(h.take(4)));
        lemma_ascii_utf8_len(h.take(2));
        lemma_ascii_utf8_len(h.take(4));
        assert(is_byte_boundary(h, 2));
        assert(is_byte_boundary(h, 4));
    }
}

/// Reads a colour written `#rrggbb` (see `hex_color`): surrounding white
/// space and any number of leading `#` are ignored.
pub fn hex_to_rgb(hex: &str) -> (r: Option<(u8, u8, u8)>)
    requires
        !hex_splits_char(hex@),
    ensures
        r == hex_color(hex@),
{
    let v = chars_of(hex);
    let (lo, hi) = hex_body_range(&v);
    let ghost h = hex_body(hex@);
    if utf8_size_upto(&v, lo, hi, 6) != 6 {
        return None;
    }
    if hi - lo != 6 {
        return None;
    }
    let r = parse_hex_byte(v[lo], v[lo + 1]);
    let g = parse_hex_byte(v[lo + 2], v[lo + 3]);
    let b = parse_hex_byte(v[lo + 4], v[lo + 5]);
    match (r, g, b) {
        (Some(r), Some(g), Some(b)) => Some((r, g, b)),
        _ => None,
    }
}

/// Channel `i` of `width` evenly spaced steps from `a` to `b`, rounded to
/// the nearest integer (halves round up); a single step is black.
pub open spec fn ramp_channel(a: u8, b: u8, width: nat, i: nat) -> u8 {
    if width <= 1 {
        0
    } else {
        let g: int = width - 1;
        let v: int = (g - i) * a + i * b;
        ((2 * v + g) / (2 * g)) as u8
    }
}

/// A gradient of two or more steps starts exactly at its first colour and
/// ends exactly at its last.
pub proof fn lemma_ramp_ends(a: u8, b: u8, width: nat)
    requires
        width >= 2,
    ensures
        ramp_channel(a, b, width, 0) == a,
        ramp_channel(a, b, width, (width - 1) as nat) == b,
{
    let g: int = width - 1;
    assert((2 * ((g - 0) * a + 0 * b) + g) / (2 * g) == a) by (nonlinear_arith)
        requires
            g >= 1,
            0 <= a <= 255,
    ;
    assert((2 * ((g - g) * a + g * b) + g) / (2 * g) == b) by (nonlinear_arith)
        requires
            g >= 1,
            0 <= b <= 255,
    ;
}

/// Colour `i` of a `width`-step gradient from `from` to `to`.
pub open spec fn ramp_color(from: (u8, u8, u8), to: (u8, u8, u8), width: nat, i: nat) -> (
    u8,
    u8,
    u8,
) {
    (
        ramp_channel(from.0, to.0, width, i),
        ramp_channel(from.1, to.1, width, i),
        ramp_channel(from.2, to.2, width, i),
    )
}

/// Cells `0..n` of a swatch: a background colour code and a space each.
pub open spec fn swatch_cells(colors: spec_fn(nat) -> (u8, u8, u8), n: nat) -> Seq<char>
    decreases n,
{
    if n == 0 {
        Seq::empty()
    } else {
        let c = colors((n - 1) as nat);
        swatch_cells(colors, (n - 1) as nat) + bg_rgb(c.0, c.1, c.2) + " "@
    }
}

/// The text of a `width`-cell gradient swatch from `from` to `to`.
pub open spec fn swatch_text(from: (u8, u8, u8), to: (u8, u8, u8), width: nat) -> Seq<char> {
    swatch_cells(|i: nat| ramp_color(from, to, width, i), width) + sgr_reset()
}

/// The palette entry shown at cell `i` of a `width`-cell palette swatch:
/// heat levels `1..=36` spread evenly over the cells, nearest level, halves
/// up; a one-cell swatch shows entry 0.
pub open spec fn swatch_level(width: nat, i: nat) -> nat {
    if width <= 1 {
        0
    } else {
        let g: int = width - 1;
        let l: int = (72 * i + g) / (2 * g);
        if l < 1 {
            1
        } else if l > 36 {
            36
        } else {
            l as nat
        }
    }
}

/// A palette swatch of two or more cells starts at heat level 1 and ends at
/// level 36, the hottest.
pub proof fn lemma_swatch_levels_span(width: nat)
    requires
        width >= 2,
    ensures
        swatch_level(width, 0) == 1,
        swatch_level(width, (width - 1) as nat) == 36,
{
    let g: int = width - 1;
    assert((72 * 0 + g) / (2 * g) == 0) by (nonlinear_arith)
        requires
            g >= 1,
    ;
    assert((72 * g + g) / (2 * g) == 36) by (nonlinear_arith)
        requires
            g >= 1,
    ;
}

/// A palette swatch never steps back to a cooler level.
pub proof fn lemma_swatch_levels_rise(width: nat, i: nat, j: nat)
    requires
        i <= j < width,
    ensures
        swatch_level(width, i) <= swatch_level(width, j),
{
    if width > 1 {
        let g: int = width - 1;
        vstd::arithmetic::div_mod::lemma_div_is_ordered(72 * i + g, 72 * j + g, 2 * g);
    }
}

/// The text of a `width`-cell swatch of a palette.
pub open spec fn palette_swatch_text(palette: Seq<(u8, u8, u8)>, width: nat) -> Seq<char> {
    swatch_cells(|i: nat| palette[swatch_level(width, i) as int], width) + sgr_reset()
}

fn ramp_channel_at(a: u8, b: u8, width: usize, i: usize) -> (c: u8)
    requires
        i < width,
    ensures
        c == ramp_channel(a, b, width as nat, i as nat),
{
    if width <= 1 {
        return 0;
    }
    let g = (width - 1) as u128;
    let i = i as u128;
    proof {
        assert((g - i) * (a as u128) <= g * 255) by (nonlinear_arith)
            requires
                i <= g,
                a <= 255,
        ;
        assert(i * (b as u128) <= g * 255) by (nonlinear_arith)
            requires
                i <= g,
                b <= 255,
        ;
        assert(g * 255 <= 0x1_0000_0000_0000_0000 * 255) by (nonlinear_arith)
            requires
                g < 0x1_0000_0000_0000_0000,
        ;
    }
    let v = (g - i) * (a as u128) + i * (b as u128);
    proof {
        assert(v <= g * 255) by (nonlinear_arith)
            requires
                v == (g - i) * (a as u128) + i * (b as u128),
                i <= g,
                a <= 255,
                b <= 255,
        ;
    }
    let q = (2 * v + g) / (2 * g);
    proof {
        assert(q <= 255) by (nonlinear_arith)
            requires
                v <= g * 255,
                g >= 1,
                q == (2 * v + g) / (2 * g),
        ;
    }
    q as u8
}

/// A gradient swatch of `width` cells from `from` to `to`.
pub fn swatch(from: (u8, u8, u8), to: (u8, u8, u8), width: usize) -> (s: String)
    ensures
        s@ == swatch_text(from, to, width as nat),
{
    let ghost colors = |i: nat| ramp_color(from, to, width as nat, i);
    let mut s = String::new();
    let mut i: usize = 0;
    while i < width
        invariant
            i <= width,
            colors == (|i: nat| ramp_color(from, to, width as nat, i)),
            s@ == swatch_cells(colors, i as nat),
        decreases width - i,
    {
        let r = ramp_channel_at(from.0, to.0, width, i);
        let g = ramp_channel_at(from.1, to.1, width, i);
        let b = ramp_channel_at(from.2, to.2, width, i);
        push_bg_rgb(&mut s, r, g, b);
        push_str(&mut s, " ");
        proof {
            assert(colors(i as nat) == (r, g, b));
        }
        i = i + 1;
    }
    push_str(&mut s, "\x1b[0m");
    s
}

fn swatch_level_at(width: usize, i: usize) -> (l: usize)
    requires
        i < width,
    ensures
        l == swatch_level(width as nat, i as nat),
        l <= 36,
{
    if width <= 1 {
        return 0;
    }
    let g = (width - 1) as u128;
    let i = i as u128;
    let l = (72 * i + g) / (2 * g);
    if l < 1 {
        1
    } else if l > 36 {
        36
    } else {
        l as usize
    }
}

/// A swatch of `width` cells showing the heat levels of a palette.
pub fn palette_swatch(palette: &Palette, width: usize) -> (s: String)
    requires
        width >= 1,
    ensures
        s@ == palette_swatch_text(palette@, width as nat),
{
    let ghost colors = |i: nat| palette@[swatch_level(width as nat, i) as int];
    let mut s = String::new();
    let mut i: usize = 0;
    while i < width
        invariant
            i <= width,
            colors == (|i: nat| palette@[swatch_level(width as nat, i) as int]),
            s@ == swatch_cells(colors, i as nat),
        decreases width - i,
    {
        let (r, g, b) = palette[swatch_level_at(width, i)];
        push_bg_rgb(&mut s, r, g, b);
        push_str(&mut s, " ");
        i = i + 1;
    }
    push_str(&mut s, "\x1b[0m");
    s
}

/// The built-in fire ramp, from a dark ember to white.
pub open spec fn fire_ramp() -> Seq<(u8, u8, u8)> {
    seq![
        (0x08, 0x00, 0x00), (0x28, 0x02, 0x00), (0x3E, 0x08, 0x00), (0x56, 0x0A, 0x00),
        (0x6E, 0x0C, 0x00), (0x88, 0x10, 0x00), (0x9C, 0x14, 0x00), (0xB2, 0x1A, 0x00),
        (0xC4, 0x20, 0x00), (0xD4, 0x2C, 0x00), (0xE0, 0x38, 0x00), (0xE8, 0x44, 0x00),
        (0xF0, 0x50, 0x00), (0xF4, 0x5A, 0x00), (0xF6, 0x62, 0x00), (0xF6, 0x6A, 0x02),
        (0xF4, 0x72, 0x04), (0xF2, 0x7C, 0x06), (0xEE, 0x86, 0x08), (0xEA, 0x90, 0x0A),
        (0xE6, 0x9A, 0x0C), (0xE2, 0xA4, 0x0E), (0xDC, 0xAE, 0x10), (0xD8, 0xB8, 0x14),
        (0xD4, 0xC0, 0x18), (0xD0, 0xC8, 0x1C), (0xCC, 0xD0, 0x20), (0xD4, 0xD6, 0x38),
        (0xDC, 0xDC, 0x54), (0xE4, 0xE4, 0x74), (0xEA, 0xEA, 0x94), (0xF0, 0xF0, 0xB0),
        (0xF4, 0xF4, 0xC8), (0xF8, 0xF6, 0xDC), (0xFA, 0xFA, 0xEC), (0xFC, 0xFC, 0xF6),
        (0xFF, 0xFF, 0xFF),
    ]
}

/// The built-in fire ramp.
pub fn fire_palette() -> (p: Palette)
    ensures
        p@ == fire_ramp(),
{
    let p: Palette = [
        (0x08, 0x00, 0x00), (0x28, 0x02, 0x00), (0x3E, 0x08, 0x00), (0x56, 0x0A, 0x00),
        (0x6E, 0x0C, 0x00), (0x88, 0x10, 0x00), (0x9C, 0x14, 0x00), (0xB2, 0x1A, 0x00),
        (0xC4, 0x20, 0x00), (0xD4, 0x2C, 0x00), (0xE0, 0x38, 0x00), (0xE8, 0x44, 0x00),
        (0xF0, 0x50, 0x00), (0xF4, 0x5A, 0x00), (0xF6, 0x62, 0x00), (0xF6, 0x6A, 0x02),
        (0xF4, 0x72, 0x04), (0xF2, 0x7C, 0x06), (0xEE, 0x86, 0x08), (0xEA, 0x90, 0x0A),
        (0xE6, 0x9A, 0x0C), (0xE2, 0xA4, 0x0E), (0xDC, 0xAE, 0x10), (0xD8, 0xB8, 0x14),
        (0xD4, 0xC0, 0x18), (0xD0, 0xC8, 0x1C), (0xCC, 0xD0, 0x20), (0xD4, 0xD6, 0x38),
        (0xDC, 0xDC, 0x54), (0xE4, 0xE4, 0x74), (0xEA, 0xEA, 0x94), (0xF0, 0xF0, 0xB0),
        (0xF4, 0xF4, 0xC8), (0xF8, 0xF6, 0xDC), (0xFA, 0xFA, 0xEC), (0xFC, 0xFC, 0xF6),
        (0xFF, 0xFF, 0xFF),
    ];
    assert(p@ =~= fire_ramp());
    p
}

} // verus!
