use pyroclear::banner::{banner_text, color_list_line};

#[test]
fn banner_has_six_coloured_lines_and_a_blank() {
    let b = banner_text();
    assert_eq!(b.lines().count(), 7);
    assert!(b.starts_with("\x1b[38;2;180;10;0m  ██████╗ "));
    assert!(b.contains("\x1b[0m\n\x1b[38;2;255;200;30m  ╚═╝"));
    assert!(b.ends_with("\x1b[0m\n\n"));
}

#[test]
fn list_line_pads_the_id() {
    assert_eq!(
        color_list_line("ice", "SW", "cold"),
        "  \x1b[1;38;2;255;200;80mice     \x1b[0m  SW  \x1b[38;2;180;180;180mcold\x1b[0m"
    );
    assert_eq!(
        color_list_line("longername", "", ""),
        "  \x1b[1;38;2;255;200;80mlongername\x1b[0m    \x1b[38;2;180;180;180m\x1b[0m"
    );
}
