use pyroclear::fire::{cool_source, peak, resize_grid, spread_fire, MAX_HEAT};
use pyroclear::rng::Rng;

#[test]
fn fresh_grid_has_hot_bottom_row() {
    assert_eq!(resize_grid(3, 2), vec![0, 0, 0, 36, 36, 36]);
    assert_eq!(resize_grid(2, 1), vec![36, 36]);
    assert_eq!(resize_grid(0, 0), Vec::<u8>::new());
    assert_eq!(resize_grid(0, 5), Vec::<u8>::new());
}

#[test]
fn spread_one_column_exact() {
    let mut g = resize_grid(1, 2);
    let mut rng = Rng::from_nanos(0);
    spread_fire(&mut g, 1, 2, &mut rng);
    // decay 1, drift clamped into the single column
    assert_eq!(g, vec![35, 36]);
    assert_eq!(rng.next_u64(), 18309282447448061861);
}

#[test]
fn spread_never_heats_and_keeps_source() {
    let (cols, rows) = (17, 9);
    let mut g = resize_grid(cols, rows);
    let mut rng = Rng::from_nanos(424242);
    for _ in 0..50 {
        spread_fire(&mut g, cols, rows, &mut rng);
        assert_eq!(g.len(), cols * rows);
        assert!(g.iter().all(|&h| h <= MAX_HEAT));
        assert!(g[(rows - 1) * cols..].iter().all(|&h| h == MAX_HEAT));
    }
    assert!(g[..cols].iter().any(|&h| h > 0) || g.iter().all(|&h| h <= MAX_HEAT));
}

#[test]
fn spread_on_empty_or_flat_grids_is_safe() {
    let mut rng = Rng::from_nanos(5);
    let mut g: Vec<u8> = Vec::new();
    spread_fire(&mut g, 0, 0, &mut rng);
    assert!(g.is_empty());
    let mut flat = resize_grid(4, 1);
    spread_fire(&mut flat, 4, 1, &mut rng);
    assert_eq!(flat, vec![36; 4]);
}

#[test]
fn cool_lowers_only_the_source() {
    let mut g = vec![35, 36];
    let mut rng = Rng::from_nanos(0);
    rng.next_u64();
    rng.next_u64();
    cool_source(&mut g, 1, 2, &mut rng);
    // range(2, 6) draws 3
    assert_eq!(g, vec![35, 33]);
}

#[test]
fn cool_floors_at_zero_and_spares_other_rows() {
    let (cols, rows) = (8, 3);
    let mut g = vec![7u8; cols * rows];
    for x in 0..cols {
        g[(rows - 1) * cols + x] = 1;
    }
    let mut rng = Rng::from_nanos(77);
    cool_source(&mut g, cols, rows, &mut rng);
    assert!(g[..(rows - 1) * cols].iter().all(|&h| h == 7));
    assert!(g[(rows - 1) * cols..].iter().all(|&h| h == 0));
}

#[test]
fn peak_finds_the_hottest_cell() {
    assert_eq!(peak(&[]), 0);
    assert_eq!(peak(&[3, 9, 1]), 9);
    assert_eq!(peak(&[0, 0]), 0);
}
