use pyroclear::color::fire_palette;
use pyroclear::render::render;

#[test]
fn cold_cells_use_default_background() {
    let pal = fire_palette();
    let mut buf = String::from("old text");
    render(&mut buf, &[0, 36], 2, 1, &pal, "");
    assert_eq!(buf, "\x1b[H\x1b[49m \x1b[48;2;255;255;255m \n");
}

#[test]
fn colour_code_only_when_colour_changes() {
    let pal = fire_palette();
    let mut buf = String::new();
    // 2x2: the same heat across the row break needs no new code
    render(&mut buf, &[1, 1, 1, 0], 2, 2, &pal, "");
    assert_eq!(buf, "\x1b[H\x1b[48;2;40;2;0m  \n \x1b[49m \n");
}

#[test]
fn label_goes_bottom_right_when_it_fits() {
    let pal = fire_palette();
    let mut buf = String::new();
    let grid = vec![0u8; 6];
    render(&mut buf, &grid, 6, 1, &pal, "ice");
    // 6 > 3 + 2, column 6 - 3 - 1 = 2
    assert_eq!(
        buf,
        "\x1b[H\x1b[49m      \n\x1b[1;2H\x1b[0m\x1b[38;2;80;80;80m ice \x1b[0m"
    );
    let mut narrow = String::new();
    render(&mut narrow, &grid[..5], 5, 1, &pal, "ice");
    assert_eq!(narrow, "\x1b[H\x1b[49m     \n");
}

#[test]
fn label_width_counts_bytes() {
    let pal = fire_palette();
    let mut buf = String::new();
    let label = "#1a0000→#ffcc00"; // 17 bytes
    let grid = vec![0u8; 20];
    render(&mut buf, &grid, 20, 1, &pal, label);
    assert!(buf.ends_with("\x1b[1;2H\x1b[0m\x1b[38;2;80;80;80m #1a0000→#ffcc00 \x1b[0m"));
    let mut buf2 = String::new();
    render(&mut buf2, &grid[..19], 19, 1, &pal, label);
    assert!(!buf2.contains("80;80;80"));
}

#[test]
fn empty_grid_is_just_newlines() {
    let pal = fire_palette();
    let mut buf = String::new();
    render(&mut buf, &[], 0, 3, &pal, "");
    assert_eq!(buf, "\x1b[H\n\n\n");
}
