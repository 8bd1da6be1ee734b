use pyroclear::choice::PaletteChoice;
use pyroclear::cli::{
    args_slice_char, error_line, parse_args, saves_choice, scan_args, CliError, Command, Mode,
};

fn args(list: &[&str]) -> Vec<String> {
    let mut v = vec!["pyroclear".to_string()];
    v.extend(list.iter().map(|s| s.to_string()));
    v
}

#[test]
fn no_flags_means_no_choice() {
    assert!(matches!(parse_args(&args(&[])), Command::Burn(None)));
    assert!(matches!(parse_args(&args(&["--whatever"])), Command::Burn(None)));
}

#[test]
fn color_flag_picks_a_named_palette() {
    assert!(matches!(
        parse_args(&args(&["--color", "ocean"])),
        Command::Burn(Some(PaletteChoice::Named(n))) if n == "ocean"
    ));
    assert!(matches!(
        parse_args(&args(&["-c", "ice", "-c", "lava"])),
        Command::Burn(Some(PaletteChoice::Named(n))) if n == "lava"
    ));
}

#[test]
fn color_flag_at_the_end_clears_the_name() {
    assert!(matches!(parse_args(&args(&["-c", "ice", "--color"])), Command::Burn(None)));
}

#[test]
fn unknown_palette_is_refused() {
    match parse_args(&args(&["--color", "blaze"])) {
        Command::Fail(CliError::UnknownPalette(m)) => {
            assert!(m.starts_with("Unknown palette 'blaze'. Valid names: fire, ice"));
            let line = error_line(&CliError::UnknownPalette(m.clone()));
            assert_eq!(line, format!("\x1b[1;31merror:\x1b[0m {m}"));
        }
        _ => panic!("expected a refusal"),
    }
}

#[test]
fn gradient_flags() {
    assert!(matches!(
        parse_args(&args(&["--from", "#1a0000", "--to", "#ffcc00", "--color", "ice"])),
        Command::Burn(Some(PaletteChoice::Custom { from: (0x1a, 0, 0), to: (0xff, 0xcc, 0) }))
    ));
    assert!(matches!(
        parse_args(&args(&["--from", "#1a0000"])),
        Command::Fail(CliError::UnpairedGradient)
    ));
    assert!(matches!(
        parse_args(&args(&["--from", "#1a0000", "--to", "red"])),
        Command::Fail(CliError::BadHex)
    ));
}

#[test]
fn first_mode_flag_wins() {
    assert!(matches!(parse_args(&args(&["--help", "--pick"])), Command::Enter(Mode::Help)));
    assert!(matches!(parse_args(&args(&["-p", "-h"])), Command::Enter(Mode::Pick)));
    assert!(matches!(
        parse_args(&args(&["--from", "x", "--list"])),
        Command::Enter(Mode::ListColors)
    ));
    // a flag's value is taken as a value, not as a mode
    assert!(matches!(
        parse_args(&args(&["--color", "--help"])),
        Command::Fail(CliError::UnknownPalette(_))
    ));
}

#[test]
fn error_lines() {
    assert_eq!(
        error_line(&CliError::UnpairedGradient),
        "\x1b[1;31merror:\x1b[0m --from and --to must be used together, e.g.\n  pyroclear --from \"#1a0000\" --to \"#ffcc00\""
    );
    assert_eq!(
        error_line(&CliError::BadHex),
        "\x1b[1;31merror:\x1b[0m Invalid hex color(s) — expected format #rrggbb"
    );
}

#[test]
fn scan_and_hazard() {
    let s = scan_args(&args(&["--to", "#000000", "--from", "aé123"]));
    assert_eq!(s.from.as_deref(), Some("aé123"));
    assert_eq!(s.mode, None);
    assert!(args_slice_char(&args(&["--to", "#000000", "--from", "aé123"])));
    assert!(!args_slice_char(&args(&["--from", "aé123", "-h"])));
}

#[test]
fn no_save_flag_turns_saving_off() {
    let a = args(&["--color", "ocean", "--no-save"]);
    assert!(!saves_choice(&a));
    assert!(matches!(
        parse_args(&a),
        Command::Burn(Some(PaletteChoice::Named(n))) if n == "ocean"
    ));
    assert!(saves_choice(&args(&["--color", "ocean"])));
    assert!(saves_choice(&vec!["--no-save".to_string()]));
}

#[test]
fn unreadable_gradient_end_is_refused() {
    let a = args(&["--from", "zzxéy", "--to", "#000000"]);
    assert!(!args_slice_char(&a));
    assert!(matches!(parse_args(&a), Command::Fail(CliError::BadHex)));
}
