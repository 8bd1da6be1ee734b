use pyroclear::console::{raw_input_mode, raw_lflag, size_or_default, vt_output_mode, window_size, RawConsole};

#[test]
fn size_falls_back_to_80_by_24() {
    assert_eq!(size_or_default(Some((120, 40))), (120, 40));
    assert_eq!(size_or_default(Some((0, 40))), (80, 24));
    assert_eq!(size_or_default(Some((120, 0))), (80, 24));
    assert_eq!(size_or_default(None), (80, 24));
}

#[test]
fn raw_mode_bits() {
    assert_eq!(raw_input_mode(0x0007), 0x0200);
    assert_eq!(raw_input_mode(0x01f7), 0x03f0);
    assert_eq!(vt_output_mode(0x0003), 0x0007);
    assert_eq!(vt_output_mode(0x0004), 0x0004);
    let saved = RawConsole { in_mode: 0x1f7, out_mode: 3, out_saved: true };
    assert!(saved.out_saved && saved.in_mode == 0x1f7 && saved.out_mode == 3);
}

#[test]
fn window_size_from_edges() {
    assert_eq!(window_size(0, 0, 119, 29), Some((120, 30)));
    assert_eq!(window_size(5, 5, 4, 10), None);
    assert_eq!(window_size(0, 3, 10, 2), None);
}

#[test]
fn raw_local_flags_clear_line_echo_and_signals() {
    // ICANON 0o2, ECHO 0o10, ISIG 0o1 as on Linux
    assert_eq!(raw_lflag(0o177777, 0o2, 0o10, 0o1), 0o177764);
    assert_eq!(raw_lflag(0, 0o2, 0o10, 0o1), 0);
}
