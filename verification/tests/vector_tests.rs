use shooting_server::trig::{cos_fixed, sin_fixed, QUARTER_TURN, TRIG_ONE};
use shooting_server::vector::{Vector, HEIGHT, MARGIN, WIDTH};

// One arena unit is 1000 milli-units; the arena is 600x600 units
// with a 15-unit margin.

#[test]
fn overflow_test() {
    let a = Vector::new(300_000, 400_000);
    let b = Vector::new(100_000, 1_100_000);

    assert_eq!(a, Vector::new(300_000, 400_000));
    assert_eq!(b, Vector::new(100_000, 470_000));
    assert_eq!(a.add(b), Vector::new(400_000, 240_000));
}

#[test]
fn dist_test() {
    let mut before = Vector::new(0, 0);
    let mut after = Vector::new(0, 0);
    let diff = Vector::new(100_000, 0);

    after = after.add(diff);
    for _ in 0..6 {
        assert!(Vector::dist2(before, after) <= 10_001_000_000);
        before = after;
        after = after.add(diff);
    }
    assert!(Vector::dist2(before, after) >= 10_001_000_000);
}

#[test]
fn wrap_invariant_after_arithmetic() {
    // every constructed vector lies in [-MARGIN, WIDTH + MARGIN) on each axis
    let samples = [
        Vector::new(0, 0),
        Vector::new(615_000, -15_001),
        Vector::new(-1_000_000_000, 1_000_000_000),
        Vector::new(9_000_000_000, -9_000_000_000),
        Vector::new(614_999, -15_000),
    ];
    for v in samples.iter() {
        assert!(-MARGIN <= v.x && v.x < WIDTH + MARGIN);
        assert!(-MARGIN <= v.y && v.y < HEIGHT + MARGIN);
    }
    let a = samples[1];
    let b = samples[2];
    let ops = [
        a.add(b),
        a.sub(b),
        a.scale(995, 1000),
        a.rotate(12345),
        b.add(a),
        b.rotate(-54321),
    ];
    for v in ops.iter() {
        assert!(-MARGIN <= v.x && v.x < WIDTH + MARGIN);
        assert!(-MARGIN <= v.y && v.y < HEIGHT + MARGIN);
    }
    // the wrap folds exactly one period
    assert_eq!(Vector::new(615_000, -15_001), Vector::new(-15_000, 614_999));
}

#[test]
fn rotate_quarter_turn_is_exact() {
    assert_eq!(sin_fixed(0), 0);
    assert_eq!(cos_fixed(0), TRIG_ONE);
    assert_eq!(sin_fixed(QUARTER_TURN), TRIG_ONE);
    assert_eq!(cos_fixed(QUARTER_TURN), 0);

    let v = Vector::new(100_000, 0);
    assert_eq!(v.rotate(QUARTER_TURN), Vector::new(0, 100_000));
    assert_eq!(v.rotate(2 * QUARTER_TURN), Vector::new(-100_000, 0));
}
