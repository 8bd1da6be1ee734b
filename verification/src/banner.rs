//! The coloured banner and palette list that the help and list modes print.
use vstd::prelude::*;
use crate::text::{chars_of, decimal, push_char, push_decimal, push_str};

verus! {

/// Line `i` of the banner's block lettering.
pub open spec fn banner_line(i: int) -> Seq<char> {
    if i == 0 {
        "  ██████╗ ██╗   ██╗██████╗  ██████╗  ██████╗██╗     ███████╗ █████╗ ██████╗ "@
    } else if i == 1 {
        "  ██╔══██╗╚██╗ ██╔╝██╔══██╗██╔═══██╗██╔════╝██║     ██╔════╝██╔══██╗██╔══██╗"@
    } else if i == 2 {
        "  ██████╔╝ ╚████╔╝ ██████╔╝██║   ██║██║     ██║     █████╗  ███████║██████╔╝"@
    } else if i == 3 {
        "  ██╔═══╝   ╚██╔╝  ██╔══██╗██║   ██║██║     ██║     ██╔══╝  ██╔══██║██╔══██╗"@
    } else if i == 4 {
        "  ██║        ██║   ██║  ██║╚██████╔╝╚██████╗███████╗███████╗██║  ██║██║  ██║"@
    } else {
        "  ╚═╝        ╚═╝   ╚═╝  ╚═╝ ╚═════╝  ╚═════╝╚══════╝╚══════╝╚═╝  ╚═╝╚═╝  ╚═╝"@
    }
}

/// The colour of banner line `i`: deep red at the top to bright orange at
/// the bottom.
pub open spec fn banner_color(i: int) -> (u8, u8, u8) {
    if i == 0 {
        (180, 10, 0)
    } else if i == 1 {
        (210, 30, 0)
    } else if i == 2 {
        (230, 60, 0)
    } else if i == 3 {
        (240, 100, 0)
    } else if i == 4 {
        (250, 160, 10)
    } else {
        (255, 200, 30)
    }
}

/// The escape sequence that sets the text colour.
pub open spec fn fg_rgb(c: (u8, u8, u8)) -> Seq<char> {
    "\x1b[38;2;"@ + decimal(c.0 as nat) + ";"@ + decimal(c.1 as nat) + ";"@ + decimal(c.2 as nat)
        + "m"@
}

/// The first `n` banner lines, each in its colour and ended by a newline.
pub open spec fn banner_lines(n: nat) -> Seq<char>
    decreases n,
{
    if n == 0 {
        Seq::empty()
    } else {
        banner_lines((n - 1) as nat) + fg_rgb(banner_color(n - 1)) + banner_line(n - 1)
            + "\x1b[0m"@ + "\n"@
    }
}

/// The banner: six coloured lines, then a blank line.
pub open spec fn banner_spec() -> Seq<char> {
    banner_lines(6) + "\n"@
}

fn push_fg(s: &mut String, c: (u8, u8, u8))
    ensures
        final(s)@ == old(s)@ + fg_rgb(c),
{
    push_str(s, "\x1b[38;2;");
    push_decimal(s, c.0 as u64);
    push_str(s, ";");
    push_decimal(s, c.1 as u64);
    push_str(s, ";");
    push_decimal(s, c.2 as u64);
    push_str(s, "m");
    assert(final(s)@ =~= old(s)@ + fg_rgb(c));
}

fn banner_line_at(i: usize) -> (r: (&'static str, (u8, u8, u8)))
    requires
        i < 6,
    ensures
        r.0@ == banner_line(i as int),
        r.1 == banner_color(i as int),
{
    if i == 0 {
        ("  ██████╗ ██╗   ██╗██████╗  ██████╗  ██████╗██╗     ███████╗ █████╗ ██████╗ ", (180, 10, 0))
    } else if i == 1 {
        ("  ██╔══██╗╚██╗ ██╔╝██╔══██╗██╔═══██╗██╔════╝██║     ██╔════╝██╔══██╗██╔══██╗", (210, 30, 0))
    } else if i == 2 {
        ("  ██████╔╝ ╚████╔╝ ██████╔╝██║   ██║██║     ██║     █████╗  ███████║██████╔╝", (230, 60, 0))
    } else if i == 3 {
        ("  ██╔═══╝   ╚██╔╝  ██╔══██╗██║   ██║██║     ██║     ██╔══╝  ██╔══██║██╔══██╗", (240, 100, 0))
    } else if i == 4 {
        ("  ██║        ██║   ██║  ██║╚██████╔╝╚██████╗███████╗███████╗██║  ██║██║  ██║", (250, 160, 10))
    } else {
        ("  ╚═╝        ╚═╝   ╚═╝  ╚═╝ ╚═════╝  ╚═════╝╚══════╝╚══════╝╚═╝  ╚═╝╚═╝  ╚═╝", (255, 200, 30))
    }
}

/// The banner the help and list modes start with.
pub fn banner_text() -> (s: String)
    ensures
        s@ == banner_spec(),
{
    let mut s = String::new();
    let mut i: usize = 0;
    while i < 6
        invariant
            i <= 6,
            s@ == banner_lines(i as nat),
        decreases 6 - i,
    {
        let (line, color) = banner_line_at(i);
        push_fg(&mut s, color);
        push_str(&mut s, line);
        push_str(&mut s, "\x1b[0m");
        push_str(&mut s, "\n");
        i = i + 1;
    }
    push_str(&mut s, "\n");
    s
}

/// `s` padded with spaces to eight characters.
pub open spec fn pad8(s: Seq<char>) -> Seq<char> {
    if s.len() < 8 {
        s + Seq::new((8 - s.len()) as nat, |i: int| ' ')
    } else {
        s
    }
}

/// One line of the palette list: the id in bold amber, the swatch, and the
/// description in grey.
pub open spec fn color_list_spec(id: Seq<char>, sw: Seq<char>, desc: Seq<char>) -> Seq<char> {
    "  \x1b[1;38;2;255;200;80m"@ + pad8(id) + "\x1b[0m  "@ + sw + "  \x1b[38;2;180;180;180m"@
        + desc + "\x1b[0m"@
}

/// One line of the palette list.
pub fn color_list_line(id: &str, sw: &str, desc: &str) -> (s: String)
    ensures
        s@ == color_list_spec(id@, sw@, desc@),
{
    let mut s = String::new();
    push_str(&mut s, "  \x1b[1;38;2;255;200;80m");
    let ghost head = s@;
    push_str(&mut s, id);
    let n = chars_of(id).len();
    if n < 8 {
        let mut k = n;
        while k < 8
            invariant
                n <= k <= 8,
                n == id@.len(),
                s@ == head + id@ + Seq::new((k - n) as nat, |i: int| ' '),
            decreases 8 - k,
        {
            push_char(&mut s, ' ');
            assert(s@ =~= head + id@ + Seq::new((k + 1 - n) as nat, |i: int| ' '));
            k = k + 1;
        }
    }
    assert(s@ =~= head + pad8(id@));
    push_str(&mut s, "\x1b[0m  ");
    push_str(&mut s, sw);
    push_str(&mut s, "  \x1b[38;2;180;180;180m");
    push_str(&mut s, desc);
    push_str(&mut s, "\x1b[0m");
    assert(s@ =~= color_list_spec(id@, sw@, desc@));
    s
}

} // verus!
