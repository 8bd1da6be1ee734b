use pyroclear::color::{fire_palette, hex_slices_char, hex_to_rgb, palette_swatch, swatch};

#[test]
fn hex_reads_lower_and_upper_case() {
    assert_eq!(hex_to_rgb("#1a0000"), Some((0x1a, 0, 0)));
    assert_eq!(hex_to_rgb("  #FFcc00 "), Some((255, 204, 0)));
    assert_eq!(hex_to_rgb("00e8ff"), Some((0, 0xe8, 0xff)));
    assert_eq!(hex_to_rgb("###0a0018"), Some((10, 0, 24)));
}

#[test]
fn hex_fields_may_carry_a_plus_sign() {
    assert_eq!(hex_to_rgb("#+f+f+f"), Some((15, 15, 15)));
    assert_eq!(hex_to_rgb("#-f0000"), None);
    assert_eq!(hex_to_rgb("#++0000"), None);
}

#[test]
fn hex_refuses_other_shapes() {
    assert_eq!(hex_to_rgb(""), None);
    assert_eq!(hex_to_rgb("#fff"), None);
    assert_eq!(hex_to_rgb("#ff00000"), None);
    assert_eq!(hex_to_rgb("#gg0000"), None);
    assert_eq!(hex_to_rgb("# ff0000"), None);
    // six bytes, three two-byte characters: the fields are not digits
    assert_eq!(hex_to_rgb("ééé"), None);
}

#[test]
fn hex_slicing_through_a_character_is_detected() {
    assert!(hex_slices_char("aé123"));
    assert!(hex_slices_char("#1€12"));
    assert!(!hex_slices_char("ééé"));
    assert!(!hex_slices_char("#ff0000"));
    assert!(!hex_slices_char("é"));
    // a first field that does not read ends the reading before byte 4
    assert!(!hex_slices_char("zzxéy"));
    assert!(!hex_slices_char("zz€a"));
    assert!(hex_slices_char("12€a"));
    assert!(!hex_slices_char("12éé"));
}

#[test]
fn unreadable_first_field_is_refused_safely() {
    assert_eq!(hex_to_rgb("zzxéy"), None);
    assert_eq!(hex_to_rgb("12éé"), None);
}

#[test]
fn swatch_runs_between_its_ends() {
    assert_eq!(
        swatch((0, 0, 0), (255, 255, 255), 3),
        "\x1b[48;2;0;0;0m \x1b[48;2;128;128;128m \x1b[48;2;255;255;255m \x1b[0m"
    );
    assert_eq!(
        swatch((200, 10, 0), (0, 20, 255), 2),
        "\x1b[48;2;200;10;0m \x1b[48;2;0;20;255m \x1b[0m"
    );
}

#[test]
fn swatch_edge_widths() {
    assert_eq!(swatch((1, 2, 3), (4, 5, 6), 0), "\x1b[0m");
    // a single step is black
    assert_eq!(swatch((1, 2, 3), (4, 5, 6), 1), "\x1b[48;2;0;0;0m \x1b[0m");
}

#[test]
fn palette_swatch_spans_levels_one_to_thirty_six() {
    let p = fire_palette();
    assert_eq!(
        palette_swatch(&p, 2),
        "\x1b[48;2;40;2;0m \x1b[48;2;255;255;255m \x1b[0m"
    );
    // one cell shows entry 0
    assert_eq!(palette_swatch(&p, 1), "\x1b[48;2;8;0;0m \x1b[0m");
    // three cells: levels 1, 18, 36
    assert_eq!(
        palette_swatch(&p, 3),
        "\x1b[48;2;40;2;0m \x1b[48;2;238;134;8m \x1b[48;2;255;255;255m \x1b[0m"
    );
}

#[test]
fn fire_palette_ends() {
    let p = fire_palette();
    assert_eq!(p[0], (8, 0, 0));
    assert_eq!(p[36], (255, 255, 255));
}
