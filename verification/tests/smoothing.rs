use sysmetrics::ema_update;

#[test]
fn ema_step_exact_values() {
    // (3 * 10000 + 7 * 0) / 10
    assert_eq!(ema_update(10000, 0), 3000);
    // (3 * 0 + 7 * 10000) / 10
    assert_eq!(ema_update(0, 10000), 7000);
    // (3 * 2000 + 7 * 1000) / 10
    assert_eq!(ema_update(2000, 1000), 1300);
}

#[test]
fn ema_fixed_point_at_sample() {
    assert_eq!(ema_update(4200, 4200), 4200);
}

#[test]
fn ema_converges_within_resolution_floor() {
    // Feeding a constant sample converges to within three hundredths of a
    // percent in at most |sample - seed| steps.
    let x: u64 = 5000;
    let mut e: u64 = 0;
    for _ in 0..5000 {
        e = ema_update(x, e);
    }
    assert!(x.abs_diff(e) <= 3);

    let mut high: u64 = 10000;
    for _ in 0..5000 {
        high = ema_update(x, high);
    }
    assert!(x.abs_diff(high) <= 3);
}

#[test]
fn ema_distance_never_grows() {
    let x: u64 = 777;
    let mut e: u64 = 10000;
    let mut dist = x.abs_diff(e);
    for _ in 0..200 {
        e = ema_update(x, e);
        let next = x.abs_diff(e);
        assert!(next <= dist);
        dist = next;
    }
}
