//! The palette a burn uses: the built-in named palettes, a custom gradient,
//! and how a choice is checked, named and resolved.
use vstd::prelude::*;
use crate::color::{all_ascii, hex_color, hex_to_rgb, lemma_ascii_never_splits};
use crate::text::{hex2, join, push_hex2, push_str, same_text};

verus! {

/// How many named palettes there are.
pub const NAMED_PALETTE_COUNT: usize = 9;

/// A built-in palette: its id, its display name, a description, and the
/// two ends of its gradient (empty for `fire`, which has its own ramp).
pub struct NamedPalette {
    pub id: &'static str,
    pub display: &'static str,
    pub desc: &'static str,
    pub from_hex: &'static str,
    pub to_hex: &'static str,
}

/// The id of named palette `i`.
pub open spec fn palette_id(i: int) -> Seq<char> {
    if i == 0 {
        "fire"@
    } else if i == 1 {
        "ice"@
    } else if i == 2 {
        "toxic"@
    } else if i == 3 {
        "purple"@
    } else if i == 4 {
        "plasma"@
    } else if i == 5 {
        "sunset"@
    } else if i == 6 {
        "ocean"@
    } else if i == 7 {
        "lava"@
    } else {
        "mono"@
    }
}

/// The display name of named palette `i`.
pub open spec fn palette_display(i: int) -> Seq<char> {
    if i == 0 {
        "Fire"@
    } else if i == 1 {
        "Ice"@
    } else if i == 2 {
        "Toxic"@
    } else if i == 3 {
        "Purple"@
    } else if i == 4 {
        "Plasma"@
    } else if i == 5 {
        "Sunset"@
    } else if i == 6 {
        "Ocean"@
    } else if i == 7 {
        "Lava"@
    } else {
        "Mono"@
    }
}

/// The description of named palette `i`.
pub open spec fn palette_desc(i: int) -> Seq<char> {
    if i == 0 {
        "classic ember red → orange → white"@
    } else if i == 1 {
        "deep cold → electric cyan → white"@
    } else if i == 2 {
        "void black → acid lime → pale"@
    } else if i == 3 {
        "dark void → violet → hot lavender"@
    } else if i == 4 {
        "deep violet → magenta → white hot"@
    } else if i == 5 {
        "midnight blue → crimson → gold"@
    } else if i == 6 {
        "abyssal black → ocean blue → foam"@
    } else if i == 7 {
        "basalt black → blood red → neon orange"@
    } else {
        "black → dim grey → pure white"@
    }
}

/// The gradient ends of named palette `i`.
pub open spec fn palette_ends(i: int) -> (Seq<char>, Seq<char>) {
    if i == 0 {
        (""@, ""@)
    } else if i == 1 {
        ("#030a10"@, "#c8ffff"@)
    } else if i == 2 {
        ("#020800"@, "#bbff44"@)
    } else if i == 3 {
        ("#060010"@, "#e060ff"@)
    } else if i == 4 {
        ("#0a0018"@, "#ff50ff"@)
    } else if i == 5 {
        ("#040010"@, "#ffaa00"@)
    } else if i == 6 {
        ("#000810"@, "#00e8ff"@)
    } else if i == 7 {
        ("#0a0000"@, "#ff4400"@)
    } else {
        ("#080808"@, "#ffffff"@)
    }
}

/// The ids of all named palettes, in order.
pub open spec fn palette_ids() -> Seq<Seq<char>> {
    Seq::new(NAMED_PALETTE_COUNT as nat, |i: int| palette_id(i))
}

/// Named palette `i`.
pub fn named_palette(i: usize) -> (p: NamedPalette)
    requires
        i < NAMED_PALETTE_COUNT,
    ensures
        p.id@ == palette_id(i as int),
        p.display@ == palette_display(i as int),
        p.desc@ == palette_desc(i as int),
        p.from_hex@ == palette_ends(i as int).0,
        p.to_hex@ == palette_ends(i as int).1,
{
    if i == 0 {
        NamedPalette {
            id: "fire",
            display: "Fire",
            desc: "classic ember red → orange → white",
            from_hex: "",
            to_hex: "",
        }
    } else if i == 1 {
        NamedPalette {
            id: "ice",
            display: "Ice",
            desc: "deep cold → electric cyan → white",
            from_hex: "#030a10",
            to_hex: "#c8ffff",
        }
    } else if i == 2 {
        NamedPalette {
            id: "toxic",
            display: "Toxic",
            desc: "void black → acid lime → pale",
            from_hex: "#020800",
            to_hex: "#bbff44",
        }
    } else if i == 3 {
        NamedPalette {
            id: "purple",
            display: "Purple",
            desc: "dark void → violet → hot lavender",
            from_hex: "#060010",
            to_hex: "#e060ff",
        }
    } else if i == 4 {
        NamedPalette {
            id: "plasma",
            display: "Plasma",
            desc: "deep violet → magenta → white hot",
            from_hex: "#0a0018",
            to_hex: "#ff50ff",
        }
    } else if i == 5 {
        NamedPalette {
            id: "sunset",
            display: "Sunset",
            desc: "midnight blue → crimson → gold",
            from_hex: "#040010",
            to_hex: "#ffaa00",
        }
    } else if i == 6 {
        NamedPalette {
            id: "ocean",
            display: "Ocean",
            desc: "abyssal black → ocean blue → foam",
            from_hex: "#000810",
            to_hex: "#00e8ff",
        }
    } else if i == 7 {
        NamedPalette {
            id: "lava",
            display: "Lava",
            desc: "basalt black → blood red → neon orange",
            from_hex: "#0a0000",
            to_hex: "#ff4400",
        }
    } else {
        NamedPalette {
            id: "mono",
            display: "Mono",
            desc: "black → dim grey → pure white",
            from_hex: "#080808",
            to_hex: "#ffffff",
        }
    }
}

/// The first named palette whose id is `name`.
pub fn find_named(name: &str) -> (r: Option<usize>)
    ensures
        r matches Some(i) ==> i < NAMED_PALETTE_COUNT && palette_id(i as int) == name@ && forall|
            j: int,
        | 0 <= j < i ==> palette_id(j) != name@,
        r is None ==> forall|j: int| 0 <= j < NAMED_PALETTE_COUNT ==> palette_id(j) != name@,
{
    let mut i: usize = 0;
    while i < NAMED_PALETTE_COUNT
        invariant
            i <= NAMED_PALETTE_COUNT,
            forall|j: int| 0 <= j < i ==> palette_id(j) != name@,
        decreases NAMED_PALETTE_COUNT - i,
    {
        let p = named_palette(i);
        if same_text(p.id, name) {
            return Some(i);
        }
        i = i + 1;
    }
    None
}

/// The message for a palette name that is not built in.
pub open spec fn unknown_palette_message(name: Seq<char>) -> Seq<char> {
    "Unknown palette '"@ + name + "'. Valid names: "@ + join(palette_ids(), ", "@)
        + "\nTry --list-colors or --pick for an interactive selector."@
}

/// Accepts the id of a built-in palette; anything else is refused with a
/// message that lists the valid ids.
pub fn validate_named(name: &str) -> (r: Result<(), String>)
    ensures
        r is Ok <==> palette_ids().contains(name@),
        r matches Err(m) ==> m@ == unknown_palette_message(name@),
{
    match find_named(name) {
        Some(i) => {
            assert(palette_ids()[i as int] == name@);
            Ok(())
        },
        None => {
            assert(!palette_ids().contains(name@)) by {
                if palette_ids().contains(name@) {
                    let j = choose|j: int| 0 <= j < palette_ids().len() && palette_ids()[j] == name@;
                    assert(palette_id(j) == name@);
                }
            }
            let mut m = String::new();
            push_str(&mut m, "Unknown palette '");
            push_str(&mut m, name);
            push_str(&mut m, "'. Valid names: ");
            let ghost head = m@;
            let mut i: usize = 0;
            while i < NAMED_PALETTE_COUNT
                invariant
                    i <= NAMED_PALETTE_COUNT,
                    m@ == head + join(palette_ids().take(i as int), ", "@),
                decreases NAMED_PALETTE_COUNT - i,
            {
                if i > 0 {
                    push_str(&mut m, ", ");
                }
                let p = named_palette(i);
                push_str(&mut m, p.id);
                proof {
                    let t = palette_ids().take(i + 1);
                    assert(t.drop_last() =~= palette_ids().take(i as int));
                    if i == 0 {
                        assert(palette_ids().take(0) =~= Seq::<Seq<char>>::empty());
                    }
                }
                i = i + 1;
            }
            assert(palette_ids().take(NAMED_PALETTE_COUNT as int) =~= palette_ids());
            push_str(&mut m, "\nTry --list-colors or --pick for an interactive selector.");
            Err(m)
        },
    }
}

/// A palette choice: a built-in palette by name, or a custom gradient
/// between two colours.
pub enum PaletteChoice {
    Named(String),
    Custom { from: (u8, u8, u8), to: (u8, u8, u8) },
}

/// A palette choice as the specification sees it.
pub enum ChoiceView {
    Named(Seq<char>),
    Custom { from: (u8, u8, u8), to: (u8, u8, u8) },
}

impl View for PaletteChoice {
    type V = ChoiceView;

    open spec fn view(&self) -> ChoiceView {
        match self {
            PaletteChoice::Named(n) => ChoiceView::Named(n@),
            PaletteChoice::Custom { from, to } => ChoiceView::Custom { from: *from, to: *to },
        }
    }
}

/// A colour as `#rrggbb` in lower case.
pub open spec fn hex_text(c: (u8, u8, u8)) -> Seq<char> {
    "#"@ + hex2(c.0) + hex2(c.1) + hex2(c.2)
}

/// How a choice is shown: the palette's name, or `#rrggbb→#rrggbb`.
pub open spec fn display_name(c: ChoiceView) -> Seq<char> {
    match c {
        ChoiceView::Named(n) => n,
        ChoiceView::Custom { from, to } => hex_text(from) + "→"@ + hex_text(to),
    }
}

fn push_hex_color(s: &mut String, c: (u8, u8, u8))
    ensures
        final(s)@ == old(s)@ + hex_text(c),
{
    push_str(s, "#");
    push_hex2(s, c.0);
    push_hex2(s, c.1);
    push_hex2(s, c.2);
    assert(final(s)@ =~= old(s)@ + hex_text(c));
}

/// The label a choice is shown under.
pub fn choice_display_name(choice: &PaletteChoice) -> (s: String)
    ensures
        s@ == display_name(choice@),
{
    match choice {
        PaletteChoice::Named(n) => n.clone(),
        PaletteChoice::Custom { from, to } => {
            let mut s = String::new();
            push_hex_color(&mut s, *from);
            push_str(&mut s, "→");
            push_hex_color(&mut s, *to);
            assert(s@ =~= display_name(choice@));
            s
        },
    }
}

/// The choice to burn with: the one given, else the saved one, else the
/// `fire` palette.
pub open spec fn resolved(given: Option<ChoiceView>, saved: Option<ChoiceView>) -> ChoiceView {
    match given {
        Some(g) => g,
        None => match saved {
            Some(s) => s,
            None => ChoiceView::Named("fire"@),
        },
    }
}

/// An optional choice as the specification sees it.
pub open spec fn opt_choice(c: Option<PaletteChoice>) -> Option<ChoiceView> {
    match c {
        Some(x) => Some(x@),
        None => None,
    }
}

/// The choice to burn with: the one given on the command line, else the
/// saved one, else the `fire` palette.
pub fn resolve_choice(given: Option<PaletteChoice>, saved: Option<PaletteChoice>) -> (c:
    PaletteChoice)
    ensures
        c@ == resolved(opt_choice(given), opt_choice(saved)),
{
    match given {
        Some(g) => g,
        None => match saved {
            Some(s) => s,
            None => PaletteChoice::Named(String::from_str("fire")),
        },
    }
}

/// Where a burn's palette comes from before its colours are made vivid.
#[derive(Clone, Copy, Debug)]
pub enum PaletteSource {
    /// The built-in fire ramp.
    Fire,
    /// A ramp generated between two colours.
    Gradient { from: (u8, u8, u8), to: (u8, u8, u8) },
    /// A name that is not built in: reported, then the fire ramp is used.
    UnknownName,
}

/// The gradient a named palette stands for, with black and white in place
/// of ends that do not read as colours.
pub open spec fn named_gradient(i: int) -> PaletteSource {
    PaletteSource::Gradient {
        from: match hex_color(palette_ends(i).0) {
            Some(c) => c,
            None => (0, 0, 0),
        },
        to: match hex_color(palette_ends(i).1) {
            Some(c) => c,
            None => (255, 255, 255),
        },
    }
}

/// The source of the palette for a choice.
pub open spec fn source_of(c: ChoiceView) -> PaletteSource {
    match c {
        ChoiceView::Named(n) => if n == "fire"@ {
            PaletteSource::Fire
        } else if palette_ids().contains(n) {
            named_gradient(palette_ids().index_of(n))
        } else {
            PaletteSource::UnknownName
        },
        ChoiceView::Custom { from, to } => PaletteSource::Gradient { from, to },
    }
}

proof fn lemma_table_ascii(i: int)
    requires
        0 <= i < NAMED_PALETTE_COUNT,
    ensures
        all_ascii(palette_ends(i).0),
        all_ascii(palette_ends(i).1),
{
    reveal_strlit("");
    reveal_strlit("#030a10");
    reveal_strlit("#c8ffff");
    reveal_strlit("#020800");
    reveal_strlit("#bbff44");
    reveal_strlit("#060010");
    reveal_strlit("#e060ff");
    reveal_strlit("#0a0018");
    reveal_strlit("#ff50ff");
    reveal_strlit("#040010");
    reveal_strlit("#ffaa00");
    reveal_strlit("#000810");
    reveal_strlit("#00e8ff");
    reveal_strlit("#0a0000");
    reveal_strlit("#ff4400");
    reveal_strlit("#080808");
    reveal_strlit("#ffffff");
}

proof fn lemma_ids_distinct()
    ensures
        forall|i: int, j: int|
            0 <= i < j < NAMED_PALETTE_COUNT ==> palette_id(i) != palette_id(j),
{
    reveal_strlit("fire");
    reveal_strlit("ice");
    reveal_strlit("toxic");
    reveal_strlit("purple");
    reveal_strlit("plasma");
    reveal_strlit("sunset");
    reveal_strlit("ocean");
    reveal_strlit("lava");
    reveal_strlit("mono");
    assert forall|i: int, j: int| 0 <= i < j < NAMED_PALETTE_COUNT implies palette_id(i)
        != palette_id(j) by {
        if palette_id(i) == palette_id(j) {
            assert(palette_id(i).len() == palette_id(j).len());
            assert(palette_id(i)[0] == palette_id(j)[0]);
            assert(palette_id(i)[1] == palette_id(j)[1]);
        }
    }
}

/// Where the palette for `choice` comes from.
pub fn palette_source(choice: &PaletteChoice) -> (r: PaletteSource)
    ensures
        r == source_of(choice@),
{
    match choice {
        PaletteChoice::Named(name) => {
            if same_text(name.as_str(), "fire") {
                PaletteSource::Fire
            } else {
                match find_named(name.as_str()) {
                    Some(i) => {
                        let p = named_palette(i);
                        proof {
                            lemma_table_ascii(i as int);
                            lemma_ascii_never_splits(p.from_hex@);
                            lemma_ascii_never_splits(p.to_hex@);
                            lemma_ids_distinct();
                            assert(palette_ids()[i as int] == name@);
                            assert(palette_ids().index_of(name@) == i);
                        }
                        let from = match hex_to_rgb(p.from_hex) {
                            Some(c) => c,
                            None => (0, 0, 0),
                        };
                        let to = match hex_to_rgb(p.to_hex) {
                            Some(c) => c,
                            None => (255, 255, 255),
                        };
                        PaletteSource::Gradient { from, to }
                    },
                    None => {
                        assert(!palette_ids().contains(name@)) by {
                            if palette_ids().contains(name@) {
                                let j = choose|j: int|
                                    0 <= j < palette_ids().len() && palette_ids()[j] == name@;
                                assert(palette_id(j) == name@);
                            }
                        }
                        PaletteSource::UnknownName
                    },
                }
            }
        },
        PaletteChoice::Custom { from, to } => PaletteSource::Gradient { from: *from, to: *to },
    }
}

} // verus!
