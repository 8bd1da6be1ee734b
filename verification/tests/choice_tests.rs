use pyroclear::choice::{
    choice_display_name, find_named, named_palette, palette_source, resolve_choice,
    validate_named, PaletteChoice, PaletteSource, NAMED_PALETTE_COUNT,
};

fn named(s: &str) -> PaletteChoice {
    PaletteChoice::Named(s.to_string())
}

#[test]
fn every_built_in_name_is_valid() {
    for i in 0..NAMED_PALETTE_COUNT {
        assert_eq!(validate_named(named_palette(i).id), Ok(()));
    }
    assert_eq!(find_named("lava"), Some(7));
    assert_eq!(find_named("Lava"), None);
}

#[test]
fn unknown_name_lists_the_valid_ones() {
    assert_eq!(
        validate_named("nope"),
        Err("Unknown palette 'nope'. Valid names: fire, ice, toxic, purple, plasma, sunset, ocean, lava, mono\nTry --list-colors or --pick for an interactive selector.".to_string())
    );
    assert!(validate_named("").is_err());
}

#[test]
fn display_names() {
    assert_eq!(choice_display_name(&named("ocean")), "ocean");
    assert_eq!(
        choice_display_name(&PaletteChoice::Custom { from: (0x1a, 0, 0), to: (0xff, 0xcc, 0) }),
        "#1a0000→#ffcc00"
    );
}

#[test]
fn given_beats_saved_beats_fire() {
    let r = resolve_choice(Some(named("ice")), Some(named("lava")));
    assert!(matches!(r, PaletteChoice::Named(n) if n == "ice"));
    let r = resolve_choice(None, Some(named("lava")));
    assert!(matches!(r, PaletteChoice::Named(n) if n == "lava"));
    let r = resolve_choice(None, None);
    assert!(matches!(r, PaletteChoice::Named(n) if n == "fire"));
}

#[test]
fn palette_sources() {
    assert!(matches!(palette_source(&named("fire")), PaletteSource::Fire));
    assert!(matches!(
        palette_source(&named("ice")),
        PaletteSource::Gradient { from: (3, 10, 16), to: (200, 255, 255) }
    ));
    assert!(matches!(
        palette_source(&named("mono")),
        PaletteSource::Gradient { from: (8, 8, 8), to: (255, 255, 255) }
    ));
    assert!(matches!(palette_source(&named("blaze")), PaletteSource::UnknownName));
    assert!(matches!(
        palette_source(&PaletteChoice::Custom { from: (1, 2, 3), to: (4, 5, 6) }),
        PaletteSource::Gradient { from: (1, 2, 3), to: (4, 5, 6) }
    ));
}
