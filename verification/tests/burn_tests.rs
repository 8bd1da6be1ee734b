use pyroclear::burn::{Burn, Tick, MAX_DURATION_NS};
use pyroclear::color::fire_palette;
use pyroclear::fire::resize_grid;
use pyroclear::rng::Rng;

#[test]
fn interrupt_stops_without_drawing() {
    let pal = fire_palette();
    let mut b = Burn::new(4, 3, Rng::from_nanos(1));
    assert_eq!(b.tick(true, 0, 836_000_000, (4, 3), &pal, ""), Tick::Stop);
    assert_eq!(b.frame(), "");
    assert_eq!(b.grid(), resize_grid(4, 3).as_slice());
}

#[test]
fn burn_ends_after_its_duration() {
    let pal = fire_palette();
    let mut b = Burn::new(4, 3, Rng::from_nanos(1));
    assert_eq!(b.tick(false, MAX_DURATION_NS + 1, 836_000_000, (4, 3), &pal, ""), Tick::Stop);
    assert!(matches!(
        b.tick(false, MAX_DURATION_NS, 836_000_000, (4, 3), &pal, ""),
        Tick::Show { last: false }
    ));
}

#[test]
fn a_tick_draws_the_grid() {
    let pal = fire_palette();
    let mut b = Burn::new(3, 2, Rng::from_nanos(9));
    let t = b.tick(false, 1_000, 836_000_000, (3, 2), &pal, "");
    assert_eq!(t, Tick::Show { last: false });
    assert!(b.frame().starts_with("\x1b[H"));
    // the source row stays white while the source is not cooling
    assert_eq!(&b.grid()[3..], &[36, 36, 36]);
    assert!(b.frame().matches('\n').count() == 2);
}

#[test]
fn resize_starts_a_fresh_grid() {
    let pal = fire_palette();
    let mut b = Burn::new(3, 2, Rng::from_nanos(9));
    b.tick(false, 1_000, 836_000_000, (3, 2), &pal, "");
    b.tick(false, 2_000, 836_000_000, (5, 4), &pal, "");
    assert_eq!(b.grid().len(), 20);
    assert_eq!(&b.grid()[15..], &[36; 5]);
    assert_eq!(b.frame().matches('\n').count(), 4);
}

#[test]
fn fire_dies_out_once_the_source_cools() {
    let pal = fire_palette();
    let mut b = Burn::new(6, 4, Rng::from_nanos(31337));
    let mut last_seen = false;
    for frame in 0..200u64 {
        match b.tick(false, 900_000_000 + frame, 836_000_000, (6, 4), &pal, "x") {
            Tick::Stop => panic!("not past the duration"),
            Tick::Show { last } => {
                if last {
                    last_seen = true;
                    assert!(b.grid().iter().all(|&h| h < 2));
                    break;
                }
            }
        }
    }
    assert!(last_seen);
}
