use pyroclear::rng::Rng;

#[test]
fn seed_keeps_low_bit_on() {
    let mut a = Rng::from_nanos(0);
    // seed 0 | 1 == 1; states 1082269761, then 1152992998833853505, each
    // returned times 0x2545F4914F6CDD1D (wrapping)
    assert_eq!(a.next_u64(), 13473309256371520605);
    assert_eq!(a.next_u64(), 205591708820793437);
}

#[test]
fn odd_seed_is_kept() {
    let mut a = Rng::from_nanos(123456789);
    assert_eq!(a.next_u64(), 17616991524766993779);
}

#[test]
fn range_is_offset_remainder() {
    let mut a = Rng::from_nanos(0);
    // 13473309256371520605 % 4 == 1
    assert_eq!(a.range(0, 3), 1);
    // 205591708820793437 % 3 == 2, minus 1
    assert_eq!(a.range(-1, 1), 1);
}

#[test]
fn range_stays_in_bounds() {
    let mut a = Rng::from_nanos(987654321);
    for _ in 0..1000 {
        let v = a.range(2, 6);
        assert!((2..=6).contains(&v));
        let d = a.range(-1, 1);
        assert!((-1..=1).contains(&d));
    }
}

#[test]
fn outputs_never_zero() {
    let mut a = Rng::from_nanos(1);
    for _ in 0..10000 {
        assert_ne!(a.next_u64(), 0);
    }
}

#[test]
fn clock_seed_is_odd_and_small() {
    let mut a = Rng::new().expect("clock after the epoch");
    // the first output is a deterministic function of the odd seed; it is never zero
    assert_ne!(a.next_u64(), 0);
}

#[test]
fn different_states_step_apart() {
    let mut a = Rng::from_nanos(2);
    let mut b = Rng::from_nanos(4);
    assert_ne!(a.next_u64(), b.next_u64());
}
