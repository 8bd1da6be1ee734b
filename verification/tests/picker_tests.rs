use pyroclear::choice::PaletteChoice;
use pyroclear::color::fire_palette;
use pyroclear::picker::{decode_key, pick_key, picker_frame, prompt_key, Key, PickStep, PromptOutcome};

#[test]
fn keys_decode() {
    assert_eq!(decode_key(&[0x1b, b'[', b'A']), Key::Up);
    assert_eq!(decode_key(&[0x1b, b'[', b'B', b'x']), Key::Down);
    assert_eq!(decode_key(&[0x1b]), Key::Esc);
    assert_eq!(decode_key(&[0x1b, b'[']), Key::Other);
    assert_eq!(decode_key(&[0x0d]), Key::Enter);
    assert_eq!(decode_key(&[0x0a]), Key::Enter);
    assert_eq!(decode_key(&[0x7f]), Key::Backspace);
    assert_eq!(decode_key(&[0x08]), Key::Backspace);
    assert_eq!(decode_key(b"q"), Key::Char('q'));
    assert_eq!(decode_key(&[0x7e]), Key::Char('~'));
    assert_eq!(decode_key(&[0x1f]), Key::Other);
    assert_eq!(decode_key(b"ab"), Key::Other);
    assert_eq!(decode_key(&[]), Key::Other);
}

#[test]
fn prompt_edits_and_accepts() {
    let mut input = String::new();
    for c in "#ff00001".chars() {
        assert!(matches!(prompt_key(&mut input, Key::Char(c)), PromptOutcome::Editing));
    }
    // at most seven bytes
    assert_eq!(input, "#ff0000");
    assert!(matches!(prompt_key(&mut input, Key::Backspace), PromptOutcome::Editing));
    assert_eq!(input, "#ff000");
    prompt_key(&mut input, Key::Char('a'));
    assert!(matches!(prompt_key(&mut input, Key::Enter), PromptOutcome::Done(s) if s == "#ff000a"));
}

#[test]
fn prompt_rejects_and_cancels() {
    let mut input = String::from(" zz ");
    assert!(matches!(prompt_key(&mut input, Key::Enter), PromptOutcome::Rejected));
    assert_eq!(input, "");
    assert!(matches!(prompt_key(&mut input, Key::Enter), PromptOutcome::Cancelled));
    assert!(matches!(prompt_key(&mut input, Key::Backspace), PromptOutcome::Editing));
    let mut other = String::from("#12");
    assert!(matches!(prompt_key(&mut other, Key::Esc), PromptOutcome::Cancelled));
    assert!(matches!(prompt_key(&mut other, Key::Up), PromptOutcome::Editing));
    assert_eq!(other, "#12");
}

#[test]
fn picker_moves_and_chooses() {
    assert!(matches!(pick_key(0, Key::Up), PickStep::Select(0)));
    assert!(matches!(pick_key(3, Key::Up), PickStep::Select(2)));
    assert!(matches!(pick_key(3, Key::Down), PickStep::Select(4)));
    assert!(matches!(pick_key(9, Key::Down), PickStep::Select(9)));
    assert!(matches!(pick_key(2, Key::Enter), PickStep::Choose(PaletteChoice::Named(n)) if n == "toxic"));
    assert!(matches!(pick_key(9, Key::Enter), PickStep::PromptGradient));
    assert!(matches!(pick_key(4, Key::Esc), PickStep::Cancel));
    assert!(matches!(pick_key(4, Key::Char('q')), PickStep::Cancel));
    assert!(matches!(pick_key(4, Key::Char('x')), PickStep::Select(4)));
}

#[test]
fn picker_frame_layout() {
    let pals = vec![fire_palette(); 9];
    let f = picker_frame(0, 80, 24, &pals);
    // title bar: 80 - (28 + 51) = 1 space of gap
    assert!(f.starts_with(
        "\x1b[H\x1b[48;2;30;30;50m\x1b[38;2;255;200;80m pyroclear — color picker \x1b[38;2;140;140;160m  [↑↓] navigate"
    ));
    // the selected first entry, padded to ten characters
    assert!(f.contains("\x1b[3;1H\x1b[2K\x1b[48;2;20;25;40m\x1b[1;38;2;255;220;80m  ▸ Fire        "));
    // all ten entries fit in 20 rows; row 13 is only cleared
    assert!(f.contains("\x1b[12;1H\x1b[2K\x1b[38;2;200;200;210m    Custom      "));
    assert!(f.contains("\x1b[13;1H\x1b[2K\x1b[23;1H"));
    assert!(!f.contains("\x1b[14;1H"));
    // separator on row 23, one rule per column
    assert!(f.ends_with(&format!("\x1b[23;1H\x1b[2K\x1b[38;2;60;60;80m{}\x1b[0m", "─".repeat(80))));
}

#[test]
fn picker_scrolls_to_the_selection() {
    let pals = vec![fire_palette(); 9];
    // 7 rows: 3 visible, selection 9 shows entries 7, 8, 9
    let f = picker_frame(9, 40, 7, &pals);
    assert!(f.contains("\x1b[3;1H\x1b[2K\x1b[38;2;200;200;210m    Lava"));
    assert!(f.contains("\x1b[5;1H\x1b[2K\x1b[48;2;20;25;40m\x1b[1;38;2;255;220;80m  ▸ Custom"));
    assert!(f.contains("\x1b[6;1H\x1b[2K\x1b[38;2;60;60;80m"));
    // tiny terminal: no list rows, separator on row 3
    let g = picker_frame(0, 10, 2, &pals);
    assert!(g.contains("\x1b[0m\x1b[3;1H\x1b[2K\x1b[38;2;60;60;80m"));
}
