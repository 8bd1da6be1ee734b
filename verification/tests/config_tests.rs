use pyroclear::choice::{resolve_choice, PaletteChoice};
use pyroclear::config::{config_contents, config_slices_char, parse_config, scan_config};

#[test]
fn named_choice_is_saved_and_read_back() {
    let c = PaletteChoice::Named("toxic".to_string());
    let text = config_contents(&c);
    assert_eq!(text, "[color]\npalette = \"toxic\"\n");
    assert!(matches!(parse_config(&text), Some(PaletteChoice::Named(n)) if n == "toxic"));
}

#[test]
fn custom_choice_is_saved_and_read_back() {
    let c = PaletteChoice::Custom { from: (0x1a, 0, 0), to: (0xff, 0xcc, 0) };
    let text = config_contents(&c);
    assert_eq!(text, "[color]\nfrom = \"#1a0000\"\nto = \"#ffcc00\"\n");
    assert!(matches!(
        parse_config(&text),
        Some(PaletteChoice::Custom { from: (0x1a, 0, 0), to: (0xff, 0xcc, 0) })
    ));
}

#[test]
fn comments_headers_and_blank_lines_are_skipped() {
    let text = "# saved\n\n[color]\n  palette =   \"\"ice\"\"  \r\nfoo = bar\nnot a pair\n";
    assert!(matches!(parse_config(text), Some(PaletteChoice::Named(n)) if n == "ice"));
}

#[test]
fn the_last_value_wins() {
    let text = "palette = \"ice\"\npalette = \"lava\"\n";
    assert!(matches!(parse_config(text), Some(PaletteChoice::Named(n)) if n == "lava"));
}

#[test]
fn gradient_needs_both_ends_that_read_as_colours() {
    let only_from = "palette = \"ice\"\nfrom = \"#000000\"\n";
    assert!(matches!(parse_config(only_from), Some(PaletteChoice::Named(n)) if n == "ice"));
    let bad = "palette = \"ice\"\nfrom = \"#000000\"\nto = \"nope\"\n";
    assert!(matches!(parse_config(bad), Some(PaletteChoice::Named(n)) if n == "ice"));
    assert!(parse_config("from = \"#000000\"\nto = \"zz\"").is_none());
    assert!(parse_config("").is_none());
}

#[test]
fn value_may_hold_an_equals_sign() {
    let e = scan_config("palette = a=b\nto=#010203");
    assert_eq!(e.palette.as_deref(), Some("a=b"));
    assert_eq!(e.to.as_deref(), Some("#010203"));
    assert_eq!(e.from, None);
}

#[test]
fn slicing_hazard_in_config_is_detected() {
    assert!(config_slices_char("from = \"aé123\"\nto = \"#000000\""));
    assert!(!config_slices_char("from = \"aé123\""));
    assert!(!config_slices_char("[color]\npalette = \"ice\"\n"));
}

#[test]
fn saved_choice_is_reused_when_none_is_given() {
    let c = PaletteChoice::Named("sunset".to_string());
    let back = resolve_choice(None, parse_config(&config_contents(&c)));
    assert!(matches!(back, PaletteChoice::Named(n) if n == "sunset"));
    let g = PaletteChoice::Custom { from: (0, 0, 0), to: (255, 255, 255) };
    let back = resolve_choice(None, parse_config(&config_contents(&g)));
    assert!(matches!(back, PaletteChoice::Custom { from: (0, 0, 0), to: (255, 255, 255) }));
}

#[test]
fn a_name_ending_in_a_quote_does_not_survive() {
    let c = PaletteChoice::Named("a\"".to_string());
    assert!(matches!(parse_config(&config_contents(&c)), Some(PaletteChoice::Named(n)) if n == "a"));
}
