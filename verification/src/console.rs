//! Terminal bookkeeping: the size to draw at, and the console modes a raw
//! session switches on Windows.
use vstd::prelude::*;

verus! {

/// The size used when the terminal cannot be asked.
pub const DEFAULT_SIZE: (usize, usize) = (80, 24);

/// The size to draw at from what the terminal reported (`None` when the
/// query failed): the reported columns and rows when both are positive,
/// else 80 by 24.
pub fn size_or_default(reported: Option<(u16, u16)>) -> (s: (usize, usize))
    ensures
        s == (match reported {
            Some((c, r)) => if c > 0 && r > 0 {
                (c as usize, r as usize)
            } else {
                (80usize, 24usize)
            },
            None => (80usize, 24usize),
        }),
{
    match reported {
        Some((c, r)) => {
            if c > 0 && r > 0 {
                (c as usize, r as usize)
            } else {
                DEFAULT_SIZE
            }
        },
        None => DEFAULT_SIZE,
    }
}

/// The local terminal flags for raw input: canonical (line) input, echo
/// and signal keys switched off, every other flag kept. The three flags are
/// passed in as the platform defines them.
pub fn raw_lflag(lflag: u32, icanon: u32, echo: u32, isig: u32) -> (r: u32)
    ensures
        r == lflag & !(icanon | echo | isig),
        r & icanon == 0,
        r & echo == 0,
        r & isig == 0,
        r | (icanon | echo | isig) == lflag | (icanon | echo | isig),
{
    let r = lflag & !(icanon | echo | isig);
    assert(r & icanon == 0 && r & echo == 0 && r & isig == 0 && r | (icanon | echo | isig) == lflag
        | (icanon | echo | isig)) by (bit_vector)
        requires
            r == lflag & !(icanon | echo | isig),
    ;
    r
}

/// Console input mode bit: Ctrl+C and friends are handled by the system.
pub const ENABLE_PROCESSED_INPUT: u32 = 0x0001;

/// Console input mode bit: input is read a line at a time.
pub const ENABLE_LINE_INPUT: u32 = 0x0002;

/// Console input mode bit: typed characters are echoed.
pub const ENABLE_ECHO_INPUT: u32 = 0x0004;

/// Console input mode bit: keys arrive as terminal escape sequences.
pub const ENABLE_VIRTUAL_TERMINAL_INPUT: u32 = 0x0200;

/// Console output mode bit: escape sequences in output are interpreted.
pub const ENABLE_VIRTUAL_TERMINAL_PROCESSING: u32 = 0x0004;

/// The console modes saved when entering raw mode, to be put back when
/// leaving it; the output mode only when it could be read.
pub struct RawConsole {
    pub in_mode: u32,
    pub out_mode: u32,
    pub out_saved: bool,
}

/// The raw input mode: line input, echo and processed input off, virtual
/// terminal input on, every other bit kept.
pub fn raw_input_mode(in_mode: u32) -> (m: u32)
    ensures
        m == (in_mode & !(ENABLE_LINE_INPUT | ENABLE_ECHO_INPUT | ENABLE_PROCESSED_INPUT))
            | ENABLE_VIRTUAL_TERMINAL_INPUT,
        m & ENABLE_LINE_INPUT == 0,
        m & ENABLE_ECHO_INPUT == 0,
        m & ENABLE_PROCESSED_INPUT == 0,
        m & ENABLE_VIRTUAL_TERMINAL_INPUT != 0,
        m & !0x207u32 == in_mode & !0x207u32,
{
    let m = in_mode & !(ENABLE_LINE_INPUT | ENABLE_ECHO_INPUT | ENABLE_PROCESSED_INPUT)
        | ENABLE_VIRTUAL_TERMINAL_INPUT;
    assert(m & 2 == 0 && m & 4 == 0 && m & 1 == 0 && m & 0x200 != 0 && m & !0x207u32 == in_mode
        & !0x207u32) by (bit_vector)
        requires
            m == (in_mode & !(2u32 | 4u32 | 1u32)) | 0x200u32,
    ;
    m
}

/// The output mode with escape-sequence processing switched on, every other
/// bit kept.
pub fn vt_output_mode(out_mode: u32) -> (m: u32)
    ensures
        m == out_mode | ENABLE_VIRTUAL_TERMINAL_PROCESSING,
        m & ENABLE_VIRTUAL_TERMINAL_PROCESSING != 0,
        m & !4u32 == out_mode & !4u32,
{
    let m = out_mode | ENABLE_VIRTUAL_TERMINAL_PROCESSING;
    assert(m & 4 != 0 && m & !4u32 == out_mode & !4u32) by (bit_vector)
        requires
            m == out_mode | 4u32,
    ;
    m
}

/// The size of a console window from its edges (inclusive), when both
/// sides come out positive.
pub fn window_size(left: i16, top: i16, right: i16, bottom: i16) -> (s: Option<(usize, usize)>)
    requires
        i16::MIN <= right - left < i16::MAX,
        i16::MIN <= bottom - top < i16::MAX,
    ensures
        s == (if right - left + 1 > 0 && bottom - top + 1 > 0 {
            Some(((right - left + 1) as usize, (bottom - top + 1) as usize))
        } else {
            None
        }),
{
    let w = right - left + 1;
    let h = bottom - top + 1;
    if w > 0 && h > 0 {
        Some((w as usize, h as usize))
    } else {
        None
    }
}

} // verus!
