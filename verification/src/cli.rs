//! The command line: which flags pick a palette and which start another mode.
use vstd::prelude::*;
use crate::choice::{unknown_palette_message, validate_named, ChoiceView, PaletteChoice};
use crate::color::{hex_color, hex_splits_char, hex_to_rgb};
use crate::text::{push_str, same_text};

verus! {

/// A flag that leaves the burn for another mode, at the first place it
/// appears.
#[derive(Clone, Copy, Debug, PartialEq, Eq, Structural)]
pub enum Mode {
    /// `--list-colors` or `--list`: show the palettes.
    ListColors,
    /// `--pick` or `-p`: the interactive picker.
    Pick,
    /// `-h` or `--help`: the usage text.
    Help,
}

/// What the scan of the arguments found, as the specification sees it.
pub struct ScanView {
    pub mode: Option<Mode>,
    pub color: Option<Seq<char>>,
    pub from: Option<Seq<char>>,
    pub to: Option<Seq<char>>,
}

/// The argument after position `i`, if there is one.
pub open spec fn next_arg(args: Seq<Seq<char>>, i: int) -> Option<Seq<char>> {
    if i + 1 < args.len() {
        Some(args[i + 1])
    } else {
        None
    }
}

/// The scan from argument `i` on: `--color`/`-c`, `--from` and `--to` take
/// the next argument as their value (none at the end), the last of each
/// winning; a mode flag ends the scan; anything else is skipped.
pub open spec fn scan_from(args: Seq<Seq<char>>, i: int, st: ScanView) -> ScanView
    decreases args.len() + 2 - i,
{
    if i < 0 || i >= args.len() {
        st
    } else {
        let a = args[i];
        if a == "--color"@ || a == "-c"@ {
            scan_from(args, i + 2, ScanView { color: next_arg(args, i), ..st })
        } else if a == "--from"@ {
            scan_from(args, i + 2, ScanView { from: next_arg(args, i), ..st })
        } else if a == "--to"@ {
            scan_from(args, i + 2, ScanView { to: next_arg(args, i), ..st })
        } else if a == "--list-colors"@ || a == "--list"@ {
            ScanView { mode: Some(Mode::ListColors), ..st }
        } else if a == "--pick"@ || a == "-p"@ {
            ScanView { mode: Some(Mode::Pick), ..st }
        } else if a == "-h"@ || a == "--help"@ {
            ScanView { mode: Some(Mode::Help), ..st }
        } else {
            scan_from(args, i + 1, st)
        }
    }
}

/// The scan of a whole command line; the first argument is the program.
pub open spec fn scan_spec(args: Seq<Seq<char>>) -> ScanView {
    scan_from(args, 1, ScanView { mode: None, color: None, from: None, to: None })
}

/// The text of each argument.
pub open spec fn arg_texts(args: Seq<String>) -> Seq<Seq<char>> {
    Seq::new(args.len(), |i: int| args[i]@)
}

/// Why a command line is refused.
pub enum CliError {
    /// Only one of `--from` and `--to` was given.
    UnpairedGradient,
    /// `--from` or `--to` is not a colour.
    BadHex,
    /// `--color` names no built-in palette; holds the message.
    UnknownPalette(String),
}

/// What the command line asks for.
pub enum Command {
    /// Burn, with the palette the flags chose, if any.
    Burn(Option<PaletteChoice>),
    /// Leave for another mode.
    Enter(Mode),
    /// Refuse the command line.
    Fail(CliError),
}

/// The flags found on a command line.
pub struct ArgScan {
    pub mode: Option<Mode>,
    pub color: Option<String>,
    pub from: Option<String>,
    pub to: Option<String>,
}

/// An optional string's text.
pub open spec fn opt_text(s: Option<String>) -> Option<Seq<char>> {
    match s {
        Some(x) => Some(x@),
        None => None,
    }
}

impl View for ArgScan {
    type V = ScanView;

    open spec fn view(&self) -> ScanView {
        ScanView {
            mode: self.mode,
            color: opt_text(self.color),
            from: opt_text(self.from),
            to: opt_text(self.to),
        }
    }
}

fn next_arg_of(args: &Vec<String>, i: usize) -> (r: Option<String>)
    requires
        i < args@.len(),
    ensures
        opt_text(r) == next_arg(arg_texts(args@), i as int),
{
    let n = args.len();
    if i < n - 1 {
        Some(args[i + 1].clone())
    } else {
        None
    }
}

/// Scans the command line (see `scan_spec`).
pub fn scan_args(args: &Vec<String>) -> (s: ArgScan)
    ensures
        s@ == scan_spec(arg_texts(args@)),
{
    let ghost t = arg_texts(args@);
    let mut st = ArgScan { mode: None, color: None, from: None, to: None };
    let mut i: usize = 1;
    while i < args.len()
        invariant
            1 <= i,
            t == arg_texts(args@),
            st.mode is None,
            scan_from(t, i as int, st@) == scan_spec(t),
        decreases args@.len() - i,
    {
        let a = args[i].as_str();
        assert(a@ == t[i as int]);
        let ghost i0 = i as int;
        let ghost st0 = st@;
        if same_text(a, "--color") || same_text(a, "-c") {
            st.color = next_arg_of(args, i);
            i = if args.len() - i > 2 { i + 2 } else { args.len() };
            assert(scan_from(t, i0 + 2, st@) == scan_from(t, i as int, st@));
        } else if same_text(a, "--from") {
            st.from = next_arg_of(args, i);
            i = if args.len() - i > 2 { i + 2 } else { args.len() };
            assert(scan_from(t, i0 + 2, st@) == scan_from(t, i as int, st@));
        } else if same_text(a, "--to") {
            st.to = next_arg_of(args, i);
            i = if args.len() - i > 2 { i + 2 } else { args.len() };
            assert(scan_from(t, i0 + 2, st@) == scan_from(t, i as int, st@));
        } else if same_text(a, "--list-colors") || same_text(a, "--list") {
            st.mode = Some(Mode::ListColors);
            return st;
        } else if same_text(a, "--pick") || same_text(a, "-p") {
            st.mode = Some(Mode::Pick);
            return st;
        } else if same_text(a, "-h") || same_text(a, "--help") {
            st.mode = Some(Mode::Help);
            return st;
        } else {
            i = i + 1;
        }
    }
    st
}

/// The command line asks that the choice not be saved: `--no-save` is one
/// of its arguments after the program's name.
pub open spec fn no_save_requested(args: Seq<Seq<char>>) -> bool {
    exists|i: int| 1 <= i < args.len() && #[trigger] args[i] == "--no-save"@
}

/// Whether the choice made on this command line is to be saved: it is,
/// unless `--no-save` is given.
pub fn saves_choice(args: &Vec<String>) -> (b: bool)
    ensures
        b == !no_save_requested(arg_texts(args@)),
{
    let ghost t = arg_texts(args@);
    let mut i: usize = 1;
    while i < args.len()
        invariant
            1 <= i,
            t == arg_texts(args@),
            forall|j: int| 1 <= j < i && j < t.len() ==> t[j] != "--no-save"@,
        decreases args@.len() - i,
    {
        if same_text(args[i].as_str(), "--no-save") {
            assert(t[i as int] == "--no-save"@);
            return false;
        }
        i = i + 1;
    }
    true
}

/// One of the flags the scan acts on: those that take a value and those that
/// leave for another mode.
pub open spec fn known_flag(a: Seq<char>) -> bool {
    ||| a == "--color"@
    ||| a == "-c"@
    ||| a == "--from"@
    ||| a == "--to"@
    ||| a == "--list-colors"@
    ||| a == "--list"@
    ||| a == "--pick"@
    ||| a == "-p"@
    ||| a == "-h"@
    ||| a == "--help"@
}

proof fn lemma_skip_unknown(args: Seq<Seq<char>>, i: int, j: int, st: ScanView)
    requires
        1 <= i <= j < args.len(),
        forall|k: int| i <= k < j ==> !known_flag(#[trigger] args[k]),
    ensures
        scan_from(args, i, st) == scan_from(args, j, st),
    decreases j - i,
{
    if i < j {
        lemma_skip_unknown(args, i + 1, j, st);
    }
}

/// A mode flag that comes before every other flag the scan knows decides
/// the command, whatever follows it: `--list-colors` and `--list` list the
/// palettes, `--pick` and `-p` open the picker, `-h` and `--help` show the
/// usage; arguments the scan does not know are passed over.
pub proof fn lemma_first_mode_flag_decides(args: Seq<Seq<char>>, j: int)
    requires
        1 <= j < args.len(),
        forall|k: int| 1 <= k < j ==> !known_flag(#[trigger] args[k]),
    ensures
        args[j] == "--list-colors"@ || args[j] == "--list"@ ==> command_of(scan_spec(args))
            == CommandView::Enter(Mode::ListColors),
        args[j] == "--pick"@ || args[j] == "-p"@ ==> command_of(scan_spec(args))
            == CommandView::Enter(Mode::Pick),
        args[j] == "-h"@ || args[j] == "--help"@ ==> command_of(scan_spec(args))
            == CommandView::Enter(Mode::Help),
{
    reveal_strlit("--color");
    reveal_strlit("-c");
    reveal_strlit("--from");
    reveal_strlit("--to");
    reveal_strlit("--list-colors");
    reveal_strlit("--list");
    reveal_strlit("--pick");
    reveal_strlit("-p");
    reveal_strlit("-h");
    reveal_strlit("--help");
    let st = ScanView { mode: None, color: None, from: None, to: None };
    lemma_skip_unknown(args, 1, j, st);
    let a = args[j];
    if a == "--list-colors"@ || a == "--list"@ || a == "--pick"@ || a == "--help"@ {
        assert(a[2] != "--from"@[2]);
        assert(a.len() != "--color"@.len() && a.len() != "-c"@.len() && a.len() != "--to"@.len());
    }
    if a == "-p"@ || a == "-h"@ {
        assert(a[1] != "-c"@[1]);
        assert(a.len() != "--color"@.len() && a.len() != "--from"@.len() && a.len() != "--to"@.len());
    }
    if a == "--pick"@ || a == "--help"@ {
        assert(a[2] != "--list"@[2]);
        assert(a.len() != "--list-colors"@.len());
    }
    if a == "-p"@ || a == "-h"@ {
        assert(a.len() != "--list"@.len() && a.len() != "--list-colors"@.len());
    }
    if a == "--help"@ {
        assert(a[2] != "--pick"@[2]);
    }
    if a == "-h"@ {
        assert(a[1] != "-p"@[1]);
        assert(a.len() != "--pick"@.len());
    }
    if a == "--help"@ {
        assert(a.len() != "-p"@.len());
    }
}

/// Reading `--from` and `--to` as colours would slice through a character.
pub open spec fn args_split_char(args: Seq<Seq<char>>) -> bool {
    let s = scan_spec(args);
    s.mode is None && match (s.from, s.to) {
        (Some(f), Some(t)) => hex_splits_char(f) || hex_splits_char(t),
        _ => false,
    }
}

/// Whether reading `--from` and `--to` as colours would slice through a
/// character (see `args_split_char`).
pub fn args_slice_char(args: &Vec<String>) -> (b: bool)
    ensures
        b == args_split_char(arg_texts(args@)),
{
    let s = scan_args(args);
    if s.mode.is_some() {
        return false;
    }
    match (&s.from, &s.to) {
        (Some(f), Some(t)) => crate::color::hex_slices_char(f.as_str())
            || crate::color::hex_slices_char(t.as_str()),
        _ => false,
    }
}

/// What a command line asks for, as the specification sees it.
pub enum CommandView {
    Burn(Option<ChoiceView>),
    Enter(Mode),
    UnpairedGradient,
    BadHex,
    UnknownPalette(Seq<char>),
}

/// The command a scan stands for: a mode flag wins; then a gradient, which
/// needs both ends and both must be colours; then a palette name, which must
/// be built in; else a burn with no palette chosen.
pub open spec fn command_of(s: ScanView) -> CommandView {
    match s.mode {
        Some(m) => CommandView::Enter(m),
        None => if s.from is Some || s.to is Some {
            match (s.from, s.to) {
                (Some(f), Some(t)) => match (hex_color(f), hex_color(t)) {
                    (Some(a), Some(b)) => CommandView::Burn(
                        Some(ChoiceView::Custom { from: a, to: b }),
                    ),
                    _ => CommandView::BadHex,
                },
                _ => CommandView::UnpairedGradient,
            }
        } else {
            match s.color {
                Some(n) => if crate::choice::palette_ids().contains(n) {
                    CommandView::Burn(Some(ChoiceView::Named(n)))
                } else {
                    CommandView::UnknownPalette(unknown_palette_message(n))
                },
                None => CommandView::Burn(None),
            }
        },
    }
}

impl View for Command {
    type V = CommandView;

    open spec fn view(&self) -> CommandView {
        match self {
            Command::Burn(Some(c)) => CommandView::Burn(Some(c@)),
            Command::Burn(None) => CommandView::Burn(None),
            Command::Enter(m) => CommandView::Enter(*m),
            Command::Fail(CliError::UnpairedGradient) => CommandView::UnpairedGradient,
            Command::Fail(CliError::BadHex) => CommandView::BadHex,
            Command::Fail(CliError::UnknownPalette(m)) => CommandView::UnknownPalette(m@),
        }
    }
}

/// What the command line asks for (see `command_of`).
pub fn parse_args(args: &Vec<String>) -> (c: Command)
    requires
        !args_split_char(arg_texts(args@)),
    ensures
        c@ == command_of(scan_spec(arg_texts(args@))),
{
    let s = scan_args(args);
    match s.mode {
        Some(m) => {
            return Command::Enter(m);
        },
        None => {},
    }
    if s.from.is_some() || s.to.is_some() {
        match (&s.from, &s.to) {
            (Some(f), Some(t)) => {
                match (hex_to_rgb(f.as_str()), hex_to_rgb(t.as_str())) {
                    (Some(a), Some(b)) => Command::Burn(
                        Some(PaletteChoice::Custom { from: a, to: b }),
                    ),
                    _ => Command::Fail(CliError::BadHex),
                }
            },
            _ => Command::Fail(CliError::UnpairedGradient),
        }
    } else {
        match s.color {
            Some(name) => match validate_named(name.as_str()) {
                Ok(()) => Command::Burn(Some(PaletteChoice::Named(name))),
                Err(m) => Command::Fail(CliError::UnknownPalette(m)),
            },
            None => Command::Burn(None),
        }
    }
}

/// The red `error:` tag the program puts before a refusal.
pub open spec fn error_tag() -> Seq<char> {
    "\x1b[1;31merror:\x1b[0m "@
}

/// The line printed for a refused command line.
pub open spec fn error_text(e: CommandView) -> Seq<char> {
    match e {
        CommandView::UnpairedGradient => error_tag()
            + "--from and --to must be used together, e.g.\n  pyroclear --from \"#1a0000\" --to \"#ffcc00\""@,
        CommandView::BadHex => error_tag() + "Invalid hex color(s) — expected format #rrggbb"@,
        CommandView::UnknownPalette(m) => error_tag() + m,
        _ => Seq::empty(),
    }
}

/// The line to print for a refused command line.
pub fn error_line(e: &CliError) -> (s: String)
    ensures
        s@ == error_text(Command::Fail(*e)@),
{
    let mut s = String::new();
    push_str(&mut s, "\x1b[1;31merror:\x1b[0m ");
    match e {
        CliError::UnpairedGradient => push_str(
            &mut s,
            "--from and --to must be used together, e.g.\n  pyroclear --from \"#1a0000\" --to \"#ffcc00\"",
        ),
        CliError::BadHex => push_str(&mut s, "Invalid hex color(s) — expected format #rrggbb"),
        CliError::UnknownPalette(m) => push_str(&mut s, m.as_str()),
    }
    s
}

} // verus!
