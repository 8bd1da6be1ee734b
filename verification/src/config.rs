//! The saved choice: the small `config.toml` the program writes and reads
//! back on later runs.
use vstd::prelude::*;
use crate::choice::{
    hex_text, palette_id, palette_ids, resolved, ChoiceView, PaletteChoice, NAMED_PALETTE_COUNT,
};
use crate::cli::{command_of, no_save_requested, scan_spec, CommandView};
use crate::color::{
    all_ascii, hex_body, hex_color, hex_slices_char, hex_splits_char, hex_to_rgb, hex_value,
    lemma_ascii_never_splits, lemma_ascii_utf8_len,
};
use crate::text::{
    chars_of, hex2, hex_digit, is_white_space, push_hex2, push_str, skip_end, skip_start, string_of_range,
    trim, trim_end_by, trim_matches, trim_range, trim_start_by, trimmed_by,
};

verus! {

/// The values a config file sets, the last one of each winning.
pub struct ConfigEntries {
    pub palette: Option<Seq<char>>,
    pub from: Option<Seq<char>>,
    pub to: Option<Seq<char>>,
}

/// The first position at or after `i` that holds `c`, or the length.
pub open spec fn find_char(s: Seq<char>, c: char, i: int) -> int
    decreases s.len() - i,
{
    if i >= s.len() || s[i] == c {
        i
    } else {
        find_char(s, c, i + 1)
    }
}

/// What one line does to the entries: blank lines, `[section]` headers and
/// `#` comments do nothing; `key = value` sets `palette`, `from` or `to`,
/// with the value trimmed and stripped of surrounding quotes.
pub open spec fn apply_line(e: ConfigEntries, raw: Seq<char>) -> ConfigEntries {
    let line = trim(raw);
    if line.len() == 0 || line[0] == '[' || line[0] == '#' {
        e
    } else {
        let eq = find_char(line, '=', 0);
        if eq >= line.len() {
            e
        } else {
            let key = trim(line.subrange(0, eq));
            let val = trim_matches(trim(line.subrange(eq + 1, line.len() as int)), '"');
            if key == "palette"@ {
                ConfigEntries { palette: Some(val), ..e }
            } else if key == "from"@ {
                ConfigEntries { from: Some(val), ..e }
            } else if key == "to"@ {
                ConfigEntries { to: Some(val), ..e }
            } else {
                e
            }
        }
    }
}

/// The entries after the lines that start at position `i`.
pub open spec fn scan_lines(c: Seq<char>, i: int, e: ConfigEntries) -> ConfigEntries
    decreases c.len() - i,
{
    if i < 0 || i > c.len() {
        e
    } else {
        let end = find_char(c, '\n', i);
        let e2 = apply_line(e, c.subrange(i, end));
        if end >= c.len() {
            e2
        } else {
            proof {
                lemma_find_char_bounds(c, '\n', i);
            }
            scan_lines(c, end + 1, e2)
        }
    }
}

/// `find_char` moves forward and stays within the text.
pub proof fn lemma_find_char_bounds(s: Seq<char>, c: char, i: int)
    requires
        0 <= i <= s.len(),
    ensures
        i <= find_char(s, c, i) <= s.len(),
        find_char(s, c, i) < s.len() ==> s[find_char(s, c, i)] == c,
        forall|j: int| i <= j < find_char(s, c, i) ==> s[j] != c,
    decreases s.len() - i,
{
    if i < s.len() && s[i] != c {
        lemma_find_char_bounds(s, c, i + 1);
    }
}

/// The entries a config file sets.
pub open spec fn config_entries(c: Seq<char>) -> ConfigEntries {
    scan_lines(c, 0, ConfigEntries { palette: None, from: None, to: None })
}

/// Reading the colours of a config that sets both `from` and `to` would
/// slice through a character of one of them.
pub open spec fn config_splits_char(c: Seq<char>) -> bool {
    let e = config_entries(c);
    match (e.from, e.to) {
        (Some(f), Some(t)) => hex_splits_char(f) || hex_splits_char(t),
        _ => false,
    }
}

/// The choice a config file holds: the custom gradient when both ends are
/// set and read as colours, else the named palette when one is set.
pub open spec fn config_choice(c: Seq<char>) -> Option<ChoiceView> {
    let e = config_entries(c);
    let custom = match (e.from, e.to) {
        (Some(f), Some(t)) => match (hex_color(f), hex_color(t)) {
            (Some(a), Some(b)) => Some(ChoiceView::Custom { from: a, to: b }),
            _ => None,
        },
        _ => None,
    };
    match custom {
        Some(x) => Some(x),
        None => match e.palette {
            Some(p) => Some(ChoiceView::Named(p)),
            None => None,
        },
    }
}

/// The text saved for a choice.
pub open spec fn config_text(c: ChoiceView) -> Seq<char> {
    match c {
        ChoiceView::Named(n) => "[color]\npalette = \""@ + n + "\"\n"@,
        ChoiceView::Custom { from, to } => "[color]\nfrom = \""@ + hex_text(from) + "\"\nto = \""@
            + hex_text(to) + "\"\n"@,
    }
}

/// The text to save for a choice.
pub fn config_contents(choice: &PaletteChoice) -> (s: String)
    ensures
        s@ == config_text(choice@),
{
    let mut s = String::new();
    match choice {
        PaletteChoice::Named(name) => {
            push_str(&mut s, "[color]\npalette = \"");
            push_str(&mut s, name.as_str());
            push_str(&mut s, "\"\n");
        },
        PaletteChoice::Custom { from, to } => {
            push_str(&mut s, "[color]\nfrom = \"#");
            push_hex2(&mut s, from.0);
            push_hex2(&mut s, from.1);
            push_hex2(&mut s, from.2);
            push_str(&mut s, "\"\nto = \"#");
            push_hex2(&mut s, to.0);
            push_hex2(&mut s, to.1);
            push_hex2(&mut s, to.2);
            push_str(&mut s, "\"\n");
            proof {
                reveal_strlit("[color]\nfrom = \"#");
                reveal_strlit("[color]\nfrom = \"");
                reveal_strlit("\"\nto = \"#");
                reveal_strlit("\"\nto = \"");
                reveal_strlit("#");
            }
        },
    }
    assert(s@ =~= config_text(choice@));
    s
}

fn find_char_from(v: &Vec<char>, c: char, i: usize, hi: usize) -> (r: usize)
    requires
        i <= hi <= v@.len(),
    ensures
        r == find_char(v@.subrange(0, hi as int), c, i as int),
        i <= r <= hi,
{
    let mut j = i;
    while j < hi && v[j] != c
        invariant
            i <= j <= hi <= v@.len(),
            find_char(v@.subrange(0, hi as int), c, i as int) == find_char(
                v@.subrange(0, hi as int),
                c,
                j as int,
            ),
        decreases hi - j,
    {
        j = j + 1;
    }
    j
}

fn range_is(v: &Vec<char>, lo: usize, hi: usize, lit: &str) -> (r: bool)
    requires
        lo <= hi <= v@.len(),
    ensures
        r == (v@.subrange(lo as int, hi as int) == lit@),
{
    let w = chars_of(lit);
    if hi - lo != w.len() {
        return false;
    }
    let mut k: usize = 0;
    while k < w.len()
        invariant
            w@ == lit@,
            lo <= hi <= v@.len(),
            hi - lo == w@.len(),
            k <= w@.len(),
            forall|j: int| 0 <= j < k ==> v@[lo + j] == w@[j],
        decreases w@.len() - k,
    {
        if v[lo + k] != w[k] {
            assert(v@.subrange(lo as int, hi as int)[k as int] != lit@[k as int]);
            return false;
        }
        k = k + 1;
    }
    assert(v@.subrange(lo as int, hi as int) =~= lit@);
    true
}

/// The values a config file sets.
pub struct ConfigScan {
    pub palette: Option<String>,
    pub from: Option<String>,
    pub to: Option<String>,
}

impl View for ConfigScan {
    type V = ConfigEntries;

    open spec fn view(&self) -> ConfigEntries {
        ConfigEntries {
            palette: match self.palette {
                Some(p) => Some(p@),
                None => None,
            },
            from: match self.from {
                Some(p) => Some(p@),
                None => None,
            },
            to: match self.to {
                Some(p) => Some(p@),
                None => None,
            },
        }
    }
}

/// Reads the `palette`, `from` and `to` values a config file sets.
pub fn scan_config(content: &str) -> (e: ConfigScan)
    ensures
        e@ == config_entries(content@),
{
    let v = chars_of(content);
    let n = v.len();
    let mut e = ConfigScan { palette: None, from: None, to: None };
    let mut i: usize = 0;
    assert(v@.subrange(0, n as int) =~= v@);
    loop
        invariant
            i <= n,
            n == v@.len(),
            v@ == content@,
            v@.subrange(0, n as int) == v@,
            scan_lines(content@, i as int, e@) == config_entries(content@),
        decreases n - i,
    {
        let end = find_char_from(&v, '\n', i, n);
        let ghost before = e@;
        let (a, b) = trim_range(&v, i, end);
        proof {
            assert(v@.subrange(i as int, end as int).len() == end - i);
        }
        if a < b && v[a] != '[' && v[a] != '#' {
            let eq = find_char_from(&v, '=', a, b);
            proof {
                let line = v@.subrange(a as int, b as int);
                assert(v@.subrange(0, b as int).subrange(a as int, b as int) =~= line);
                lemma_find_shift(v@.subrange(0, b as int), '=', a as int, line);
            }
            if eq < b {
                let (ka, kb) = trim_range(&v, a, eq);
                let (va0, vb0) = trim_range(&v, eq + 1, b);
                let va = skip_start(&v, va0, vb0, Some('"'));
                let vb = skip_end(&v, va, vb0, Some('"'));
                proof {
                    let line = v@.subrange(a as int, b as int);
                    let k = eq - a;
                    assert(line.subrange(0, k) =~= v@.subrange(a as int, eq as int));
                    assert(line.subrange(k + 1, line.len() as int) =~= v@.subrange(
                        eq + 1,
                        b as int,
                    ));
                }
                if range_is(&v, ka, kb, "palette") {
                    e.palette = Some(string_of_range(&v, va, vb));
                } else if range_is(&v, ka, kb, "from") {
                    e.from = Some(string_of_range(&v, va, vb));
                } else if range_is(&v, ka, kb, "to") {
                    e.to = Some(string_of_range(&v, va, vb));
                }
            }
        }
        assert(e@ == apply_line(before, content@.subrange(i as int, end as int)));
        if end >= n {
            return e;
        }
        i = end + 1;
    }
}

/// Whether reading the colours of this config would slice through a
/// character (see `config_splits_char`).
pub fn config_slices_char(content: &str) -> (b: bool)
    ensures
        b == config_splits_char(content@),
{
    let e = scan_config(content);
    match (&e.from, &e.to) {
        (Some(f), Some(t)) => hex_slices_char(f.as_str()) || hex_slices_char(t.as_str()),
        _ => false,
    }
}

/// The choice a saved config holds (see `config_choice`).
pub fn parse_config(content: &str) -> (r: Option<PaletteChoice>)
    requires
        !config_splits_char(content@),
    ensures
        match r {
            Some(c) => config_choice(content@) == Some(c@),
            None => config_choice(content@) is None,
        },
{
    let e = scan_config(content);
    match (&e.from, &e.to) {
        (Some(f), Some(t)) => {
            match (hex_to_rgb(f.as_str()), hex_to_rgb(t.as_str())) {
                (Some(fc), Some(tc)) => {
                    return Some(PaletteChoice::Custom { from: fc, to: tc });
                },
                _ => {},
            }
        },
        _ => {},
    }
    match e.palette {
        Some(p) => Some(PaletteChoice::Named(p)),
        None => None,
    }
}

/// A name that the saved config gives back unchanged: no line break in it,
/// and no quote at either end.
pub open spec fn name_survives_config(n: Seq<char>) -> bool {
    &&& !n.contains('\n')
    &&& n.len() > 0 ==> n[0] != '"' && n.last() != '"'
}

proof fn lemma_find_char_at(s: Seq<char>, c: char, i: int, j: int)
    requires
        0 <= i <= j <= s.len(),
        j < s.len() ==> s[j] == c,
        forall|k: int| i <= k < j ==> s[k] != c,
    ensures
        find_char(s, c, i) == j,
    decreases j - i,
{
    if i < j {
        lemma_find_char_at(s, c, i + 1, j);
    }
}

proof fn lemma_scan_line(c: Seq<char>, i: int, j: int, e: ConfigEntries)
    requires
        0 <= i <= j <= c.len(),
        j < c.len() ==> c[j] == '\n',
        forall|k: int| i <= k < j ==> c[k] != '\n',
    ensures
        j < c.len() ==> scan_lines(c, i, e) == scan_lines(
            c,
            j + 1,
            apply_line(e, c.subrange(i, j)),
        ),
        j == c.len() ==> scan_lines(c, i, e) == apply_line(e, c.subrange(i, j)),
{
    lemma_find_char_at(c, '\n', i, j);
}

proof fn lemma_trim_start_stops(s: Seq<char>, pat: Option<char>)
    requires
        s.len() > 0 ==> !trimmed_by(pat, s[0]),
    ensures
        trim_start_by(s, pat) == s,
{
}

proof fn lemma_trim_end_stops(s: Seq<char>, pat: Option<char>)
    requires
        s.len() > 0 ==> !trimmed_by(pat, s.last()),
    ensures
        trim_end_by(s, pat) == s,
{
}

proof fn lemma_unquote(v: Seq<char>)
    requires
        v.len() > 0 ==> v[0] != '"' && v.last() != '"',
    ensures
        trim_matches(trim(" \""@ + v + "\""@), '"') == v,
{
    reveal_strlit(" \"");
    reveal_strlit("\"");
    let q = " \""@ + v + "\""@;
    let inner = "\""@ + v + "\""@;
    assert(q.drop_first() =~= inner);
    lemma_trim_start_stops(inner, None);
    assert(trim_start_by(q, None) == inner);
    lemma_trim_end_stops(inner, None);
    assert(trim(q) == inner);
    let vq = v + "\""@;
    assert(inner.drop_first() =~= vq);
    assert(trim_start_by(inner, Some('"')) == trim_start_by(vq, Some('"')));
    if v.len() > 0 {
        lemma_trim_start_stops(vq, Some('"'));
        assert(vq.drop_last() =~= v);
        assert(trim_end_by(vq, Some('"')) == trim_end_by(v, Some('"')));
        lemma_trim_end_stops(v, Some('"'));
    } else {
        assert(vq.drop_first() =~= Seq::<char>::empty());
        assert(trim_start_by(vq, Some('"')) == trim_start_by(Seq::<char>::empty(), Some('"')));
        lemma_trim_start_stops(Seq::<char>::empty(), Some('"'));
        lemma_trim_end_stops(Seq::<char>::empty(), Some('"'));
        assert(v =~= Seq::<char>::empty());
    }
}

proof fn lemma_entry_line(e: ConfigEntries, key: Seq<char>, v: Seq<char>)
    requires
        key == "palette"@ || key == "from"@ || key == "to"@,
        v.len() > 0 ==> v[0] != '"' && v.last() != '"',
    ensures
        apply_line(e, key + " = \""@ + v + "\""@) == (if key == "palette"@ {
            ConfigEntries { palette: Some(v), ..e }
        } else if key == "from"@ {
            ConfigEntries { from: Some(v), ..e }
        } else {
            ConfigEntries { to: Some(v), ..e }
        }),
{
    reveal_strlit("palette");
    reveal_strlit("from");
    reveal_strlit("to");
    reveal_strlit(" = \"");
    reveal_strlit("\"");
    reveal_strlit(" \"");
    let line = key + " = \""@ + v + "\""@;
    lemma_trim_start_stops(line, None);
    lemma_trim_end_stops(line, None);
    assert(trim(line) == line);
    let k = key.len() as int;
    lemma_find_char_at(line, '=', 0, k + 1);
    let kp = line.subrange(0, k + 1);
    assert(kp =~= key + " "@) by {
        reveal_strlit(" ");
    }
    reveal_strlit(" ");
    assert(kp.drop_last() =~= key);
    lemma_trim_start_stops(kp, None);
    lemma_trim_end_stops(key, None);
    assert(trim(kp) == key);
    assert(line.subrange(k + 2, line.len() as int) =~= " \""@ + v + "\""@);
    lemma_unquote(v);
}

proof fn lemma_header_line(e: ConfigEntries)
    ensures
        apply_line(e, "[color]"@) == e,
{
    reveal_strlit("[color]");
    lemma_trim_start_stops("[color]"@, None);
    lemma_trim_end_stops("[color]"@, None);
}

proof fn lemma_hex_digit_reads_back(d: int)
    requires
        0 <= d < 16,
    ensures
        hex_value(hex_digit(d)) == Some(d as u8),
        hex_digit(d) != '+',
        hex_digit(d) != '"',
        hex_digit(d) != '#',
        hex_digit(d) != '\n',
        !is_white_space(hex_digit(d)),
        (hex_digit(d) as u32) < 128,
{
}

/// A colour written as `#rrggbb` reads back as the same colour.
pub proof fn lemma_hex_text_reads_back(c: (u8, u8, u8))
    ensures
        hex_color(hex_text(c)) == Some(c),
        !hex_splits_char(hex_text(c)),
        !hex_text(c).contains('\n'),
        hex_text(c)[0] != '"',
        hex_text(c).last() != '"',
        hex_text(c).len() == 7,
{
    reveal_strlit("#");
    let t = hex_text(c);
    lemma_hex_digit_reads_back((c.0 / 16) as int);
    lemma_hex_digit_reads_back((c.0 % 16) as int);
    lemma_hex_digit_reads_back((c.1 / 16) as int);
    lemma_hex_digit_reads_back((c.1 % 16) as int);
    lemma_hex_digit_reads_back((c.2 / 16) as int);
    lemma_hex_digit_reads_back((c.2 % 16) as int);
    assert(t.len() == 7);
    assert(all_ascii(t));
    lemma_ascii_never_splits(t);
    lemma_trim_start_stops(t, None);
    lemma_trim_end_stops(t, None);
    let h = t.drop_first();
    assert(hex_body(t) == h) by {
        lemma_trim_start_stops(h, Some('#'));
    }
    assert(all_ascii(h));
    lemma_ascii_utf8_len(h);
    assert(h =~= hex2(c.0) + hex2(c.1) + hex2(c.2));
    assert(!t.contains('\n'));
}

proof fn lemma_empty_line(e: ConfigEntries)
    ensures
        apply_line(e, Seq::<char>::empty()) == e,
{
}

proof fn lemma_named_round_trip(n: Seq<char>)
    requires
        name_survives_config(n),
    ensures
        !config_splits_char(config_text(ChoiceView::Named(n))),
        config_choice(config_text(ChoiceView::Named(n))) == Some(ChoiceView::Named(n)),
{
    reveal_strlit("[color]\npalette = \"");
    reveal_strlit("[color]\nfrom = \"");
    reveal_strlit("\"\nto = \"");
    reveal_strlit("\"\n");
    reveal_strlit("[color]");
    reveal_strlit("palette");
    reveal_strlit("from");
    reveal_strlit("to");
    reveal_strlit(" = \"");
    reveal_strlit("\"");
    let e0 = ConfigEntries { palette: None, from: None, to: None };
    let t = config_text(ChoiceView::Named(n));
        let m = n.len() as int;
        assert(t.len() == 21 + m);
        assert forall|k: int| 8 <= k < 20 + m implies t[k] != '\n' by {
            if 19 <= k < 19 + m {
                assert(t[k] == n[k - 19]);
            }
        }
        lemma_scan_line(t, 0, 7, e0);
        assert(t.subrange(0, 7) =~= "[color]"@);
        lemma_header_line(e0);
        lemma_scan_line(t, 8, 20 + m, e0);
        assert(t.subrange(8, 20 + m) =~= "palette"@ + " = \""@ + n + "\""@);
        lemma_entry_line(e0, "palette"@, n);
        let e1 = ConfigEntries { palette: Some(n), ..e0 };
        lemma_scan_line(t, 21 + m, 21 + m, e1);
        assert(t.subrange(21 + m, 21 + m) =~= Seq::<char>::empty());
        lemma_empty_line(e1);
        assert(config_entries(t) == e1);
}

proof fn lemma_custom_round_trip(from: (u8, u8, u8), to: (u8, u8, u8))
    ensures
        !config_splits_char(config_text(ChoiceView::Custom { from, to })),
        config_choice(config_text(ChoiceView::Custom { from, to })) == Some(
            ChoiceView::Custom { from, to },
        ),
{
    reveal_strlit("[color]\npalette = \"");
    reveal_strlit("[color]\nfrom = \"");
    reveal_strlit("\"\nto = \"");
    reveal_strlit("\"\n");
    reveal_strlit("[color]");
    reveal_strlit("palette");
    reveal_strlit("from");
    reveal_strlit("to");
    reveal_strlit(" = \"");
    reveal_strlit("\"");
    let e0 = ConfigEntries { palette: None, from: None, to: None };
    let t = config_text(ChoiceView::Custom { from, to });
        let hf = hex_text(from);
        let ht = hex_text(to);
        lemma_hex_text_reads_back(from);
        lemma_hex_text_reads_back(to);
        assert(t.len() == 40);
        assert forall|k: int| 8 <= k < 24 implies t[k] != '\n' by {
            if 16 <= k < 23 {
                assert(t[k] == hf[k - 16]);
            }
        }
        assert forall|k: int| 25 <= k < 39 implies t[k] != '\n' by {
            if 31 <= k < 38 {
                assert(t[k] == ht[k - 31]);
            }
        }
        lemma_scan_line(t, 0, 7, e0);
        assert(t.subrange(0, 7) =~= "[color]"@);
        lemma_header_line(e0);
        lemma_scan_line(t, 8, 24, e0);
        assert(t.subrange(8, 24) =~= "from"@ + " = \""@ + hf + "\""@);
        lemma_entry_line(e0, "from"@, hf);
        let e1 = ConfigEntries { from: Some(hf), ..e0 };
        lemma_scan_line(t, 25, 39, e1);
        assert(t.subrange(25, 39) =~= "to"@ + " = \""@ + ht + "\""@);
        lemma_entry_line(e1, "to"@, ht);
        let e2 = ConfigEntries { to: Some(ht), ..e1 };
        lemma_scan_line(t, 40, 40, e2);
        assert(t.subrange(40, 40) =~= Seq::<char>::empty());
        lemma_empty_line(e2);
        assert(config_entries(t) == e2);
}

/// What is saved is what is read back: the text saved for a choice reads
/// back as the same choice, for every custom gradient and for every name
/// without a line break or an end quote.
pub proof fn lemma_config_round_trip(c: ChoiceView)
    requires
        c matches ChoiceView::Named(n) ==> name_survives_config(n),
    ensures
        !config_splits_char(config_text(c)),
        config_choice(config_text(c)) == Some(c),
{
    match c {
        ChoiceView::Named(n) => lemma_named_round_trip(n),
        ChoiceView::Custom { from, to } => lemma_custom_round_trip(from, to),
    }
}

/// Whatever `palette` a config sets, when its `from` and `to` entries both
/// read as colours the choice read back is the gradient between them; only
/// without such a pair does the palette name count.
pub proof fn lemma_gradient_over_palette(c: Seq<char>)
    ensures
        ({
            let e = config_entries(c);
            let named = match e.palette {
                Some(p) => Some(ChoiceView::Named(p)),
                None => None,
            };
            match (e.from, e.to) {
                (Some(f), Some(t)) => match (hex_color(f), hex_color(t)) {
                    (Some(a), Some(b)) => config_choice(c) == Some(
                        ChoiceView::Custom { from: a, to: b },
                    ),
                    _ => config_choice(c) == named,
                },
                _ => config_choice(c) == named,
            }
        }),
{
}

/// A complete custom gradient wins over a palette name: a config whose
/// `palette` line names any palette and whose `from` and `to` lines that
/// follow both hold colours reads back as the gradient between those two
/// colours.
pub proof fn lemma_complete_gradient_wins(n: Seq<char>, from: (u8, u8, u8), to: (u8, u8, u8))
    requires
        name_survives_config(n),
    ensures
        ({
            let t = "[color]\npalette = \""@ + n + "\"\nfrom = \""@ + hex_text(from) + "\"\nto = \""@
                + hex_text(to) + "\"\n"@;
            &&& !config_splits_char(t)
            &&& config_choice(t) == Some(ChoiceView::Custom { from, to })
        }),
{
    reveal_strlit("[color]\npalette = \"");
    reveal_strlit("\"\nfrom = \"");
    reveal_strlit("\"\nto = \"");
    reveal_strlit("\"\n");
    reveal_strlit("[color]");
    reveal_strlit("palette");
    reveal_strlit("from");
    reveal_strlit("to");
    reveal_strlit(" = \"");
    reveal_strlit("\"");
    let e0 = ConfigEntries { palette: None, from: None, to: None };
    let hf = hex_text(from);
    let ht = hex_text(to);
    let t = "[color]\npalette = \""@ + n + "\"\nfrom = \""@ + hf + "\"\nto = \""@ + ht + "\"\n"@;
    lemma_hex_text_reads_back(from);
    lemma_hex_text_reads_back(to);
    let m = n.len() as int;
    assert(t.len() == 53 + m);
    assert forall|k: int| 8 <= k < 20 + m implies t[k] != '\n' by {
        if 19 <= k < 19 + m {
            assert(t[k] == n[k - 19]);
        }
    }
    assert forall|k: int| 21 + m <= k < 37 + m implies t[k] != '\n' by {
        if 29 + m <= k < 36 + m {
            assert(t[k] == hf[k - 29 - m]);
        }
    }
    assert forall|k: int| 38 + m <= k < 52 + m implies t[k] != '\n' by {
        if 44 + m <= k < 51 + m {
            assert(t[k] == ht[k - 44 - m]);
        }
    }
    lemma_scan_line(t, 0, 7, e0);
    assert(t.subrange(0, 7) =~= "[color]"@);
    lemma_header_line(e0);
    lemma_scan_line(t, 8, 20 + m, e0);
    assert(t.subrange(8, 20 + m) =~= "palette"@ + " = \""@ + n + "\""@);
    lemma_entry_line(e0, "palette"@, n);
    let e1 = ConfigEntries { palette: Some(n), ..e0 };
    lemma_scan_line(t, 21 + m, 37 + m, e1);
    assert(t.subrange(21 + m, 37 + m) =~= "from"@ + " = \""@ + hf + "\""@);
    lemma_entry_line(e1, "from"@, hf);
    let e2 = ConfigEntries { from: Some(hf), ..e1 };
    lemma_scan_line(t, 38 + m, 52 + m, e2);
    assert(t.subrange(38 + m, 52 + m) =~= "to"@ + " = \""@ + ht + "\""@);
    lemma_entry_line(e2, "to"@, ht);
    let e3 = ConfigEntries { to: Some(ht), ..e2 };
    lemma_scan_line(t, 53 + m, 53 + m, e3);
    assert(t.subrange(53 + m, 53 + m) =~= Seq::<char>::empty());
    lemma_empty_line(e3);
    assert(config_entries(t) == e3);
}

/// Every built-in palette name survives being saved.
pub proof fn lemma_built_in_names_survive(i: int)
    requires
        0 <= i < NAMED_PALETTE_COUNT,
    ensures
        name_survives_config(palette_id(i)),
{
    reveal_strlit("fire");
    reveal_strlit("ice");
    reveal_strlit("toxic");
    reveal_strlit("purple");
    reveal_strlit("plasma");
    reveal_strlit("sunset");
    reveal_strlit("ocean");
    reveal_strlit("lava");
    reveal_strlit("mono");
    let n = palette_id(i);
    assert(!n.contains('\n')) by {
        if n.contains('\n') {
            let k = choose|k: int| 0 <= k < n.len() && n[k] == '\n';
        }
    }
}

/// A saved choice is reused: with no choice given, the program burns with
/// the choice it saved last (for every custom gradient and every name that
/// survives being saved).
pub proof fn lemma_saved_choice_is_reused(c: ChoiceView)
    requires
        c matches ChoiceView::Named(n) ==> name_survives_config(n),
    ensures
        resolved(None, config_choice(config_text(c))) == c,
{
    lemma_config_round_trip(c);
}

/// The config after a run of the program that burns: the palette chosen on
/// the command line is saved unless `--no-save` is given; otherwise the
/// config (`None`: there is none) is left as it was.
pub open spec fn config_after(args: Seq<Seq<char>>, config: Option<Seq<char>>) -> Option<
    Seq<char>,
> {
    match command_of(scan_spec(args)) {
        CommandView::Burn(Some(c)) => if no_save_requested(args) {
            config
        } else {
            Some(config_text(c))
        },
        _ => config,
    }
}

/// The palette a run of the program burns with: the one chosen on the
/// command line, else the one the config holds, else `fire`.
pub open spec fn run_choice(args: Seq<Seq<char>>, config: Option<Seq<char>>) -> ChoiceView {
    let given = match command_of(scan_spec(args)) {
        CommandView::Burn(g) => g,
        _ => None,
    };
    let saved = match given {
        Some(_) => None,
        None => match config {
            Some(t) => config_choice(t),
            None => None,
        },
    };
    resolved(given, saved)
}

/// What is chosen is kept: after a run that burns without `--no-save`, a
/// later run given no choice burns with the same palette, and reading its config never slices through a
/// character. A run given no choice, or told `--no-save`, leaves the config
/// as it was.
pub proof fn lemma_choice_carries_to_next_run(
    first: Seq<Seq<char>>,
    second: Seq<Seq<char>>,
    config: Option<Seq<char>>,
)
    requires
        command_of(scan_spec(first)) is Burn,
        command_of(scan_spec(second)) == CommandView::Burn(None),
    ensures
        config_after(first, config) != config ==> (config_after(first, config) matches Some(t)
            && !config_splits_char(t)),
        !no_save_requested(first) ==> run_choice(second, config_after(first, config))
            == run_choice(first, config),
        (no_save_requested(first) || command_of(scan_spec(first)) == CommandView::Burn(None))
            ==> config_after(first, config) == config,
{
    match command_of(scan_spec(first)) {
        CommandView::Burn(Some(c)) => {
            if let ChoiceView::Named(n) = c {
                assert(palette_ids().contains(n));
                let i = choose|i: int| 0 <= i < palette_ids().len() && palette_ids()[i] == n;
                assert(palette_id(i) == n);
                lemma_built_in_names_survive(i);
            }
            lemma_config_round_trip(c);
        },
        _ => {},
    }
}

proof fn lemma_find_shift(s: Seq<char>, c: char, a: int, line: Seq<char>)
    requires
        0 <= a <= s.len(),
        line == s.subrange(a, s.len() as int),
    ensures
        find_char(s, c, a) == a + find_char(line, c, 0),
{
    lemma_find_shift_from(s, c, a, line, 0);
}

proof fn lemma_find_shift_from(s: Seq<char>, c: char, a: int, line: Seq<char>, k: int)
    requires
        0 <= a <= s.len(),
        0 <= k <= line.len(),
        line == s.subrange(a, s.len() as int),
    ensures
        find_char(s, c, a + k) == a + find_char(line, c, k),
    decreases line.len() - k,
{
    if k < line.len() && line[k] != c {
        lemma_find_shift_from(s, c, a, line, k + 1);
    }
}

} // verus!
