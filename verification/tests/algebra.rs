//! Tests of the tagged time algebra.

use untimely::{GameDt, GameTime, LocalDt, LocalTime};

#[test]
fn time_difference_roundtrip() {
    // For instants a and b, a + (b - a) lands exactly on b.
    let cases: [(i64, i64); 5] = [(0, 0), (1, 2), (500_000, -3), (-7, 1_000_000), (123, 123)];
    for (am, bm) in cases {
        let a = GameTime::from_micros(am);
        let b = GameTime::from_micros(bm);
        let d = b.sub_time(a);
        assert_eq!(a.add(d).to_micros(), b.to_micros());
    }
}

#[test]
fn span_roundtrip() {
    // (a + d) - d is exactly a again.
    let cases: [(i64, i64); 4] = [(0, 0), (10, -10), (1_000_000, 16_700), (-50, 49)];
    for (am, dm) in cases {
        let a = LocalTime::from_micros(am);
        let d = LocalDt::from_micros(dm);
        assert_eq!(a.add(d).sub(d).to_micros(), a.to_micros());
        assert_eq!(a.add(d).sub_time(a).to_micros(), d.to_micros());
    }
}

#[test]
fn from_hz_matches_reciprocal() {
    for hz in [1i64, 2, 3, 20, 50, 60, 144, 1000, 9999, 10_000] {
        let period = GameDt::from_hz(hz);
        assert_eq!(period.to_micros(), 1_000_000 / hz);
        let seconds = period.to_micros() as f64 / 1.0e6;
        let reciprocal = 1.0 / hz as f64;
        assert!((seconds - reciprocal).abs() <= 1.0e-6);
    }
}

#[test]
fn constructors_and_accessors() {
    assert_eq!(LocalDt::from_millis(20).to_micros(), 20_000);
    assert_eq!(LocalDt::from_secs(3).to_micros(), 3_000_000);
    assert_eq!(LocalDt::zero().to_micros(), 0);
    assert_eq!(GameTime::from_millis(50).to_micros(), 50_000);
    assert_eq!(GameTime::zero().to_micros(), 0);
    assert_eq!(GameTime::from_dt(GameDt::from_micros(77)).to_micros(), 77);
    assert_eq!(GameTime::from_micros(77).to_dt().to_micros(), 77);
}

#[test]
fn order_and_extrema() {
    let a = LocalDt::from_micros(5);
    let b = LocalDt::from_micros(9);
    assert!(a.lt(b));
    assert!(a.le(b));
    assert!(!b.le(a));
    assert!(a.eq_val(a));
    assert_eq!(a.max(b).to_micros(), 9);
    assert_eq!(a.min(b).to_micros(), 5);
    let ta = LocalTime::from_micros(-5);
    let tb = LocalTime::from_micros(2);
    assert!(ta.lt(tb));
    assert_eq!(ta.max(tb).to_micros(), 2);
    assert_eq!(ta.min(tb).to_micros(), -5);
}

#[test]
fn scaling_and_negation() {
    let d = GameDt::from_millis(50);
    assert_eq!(d.scale(2).to_micros(), 100_000);
    assert_eq!(d.scale(-1).to_micros(), -50_000);
    assert_eq!(d.neg().to_micros(), -50_000);
    assert_eq!(d.add(d).to_micros(), 100_000);
    assert_eq!(d.sub(d).to_micros(), 0);
}

#[test]
fn cross_domain_conversions_keep_micros() {
    let local = LocalDt::from_millis(16);
    assert_eq!(local.to_game_dt().to_micros(), 16_000);
    let game = GameDt::from_millis(16);
    assert_eq!(game.to_local_dt().to_micros(), 16_000);
}

#[test]
fn clone_keeps_value() {
    let d = GameDt::from_micros(4242);
    assert_eq!(d.clone().to_micros(), 4242);
    let t = LocalTime::from_micros(-17);
    assert_eq!(t.clone().to_micros(), -17);
}
