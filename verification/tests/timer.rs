//! Tests of the periodic timer.

use untimely::{LocalDt, PeriodicTimer};

fn fire_all(timer: &mut PeriodicTimer) -> u64 {
    let mut count = 0u64;
    while timer.trigger() {
        count += 1;
    }
    count
}

#[test]
fn sixty_frames_at_twenty_hertz() {
    // Sixty frames of about sixteen and two-thirds milliseconds against a
    // fifty-millisecond period: the total of one second and two hundred
    // microseconds fires exactly twenty ticks.
    let mut timer = PeriodicTimer::new(LocalDt::from_millis(50));
    let mut fired = 0u64;
    for _ in 0..60 {
        timer.advance(LocalDt::from_micros(16_670));
        fired += fire_all(&mut timer);
    }
    assert_eq!(fired, 20);
}

#[test]
fn trigger_count_is_total_over_period() {
    // However the same total is split into frames, the number of triggers is
    // the total divided by the period, rounded down.
    let period = LocalDt::from_millis(50);
    let splits: [&[i64]; 3] = [
        &[1_000_200],
        &[500_100, 500_100],
        &[100_000, 1, 900_199],
    ];
    for dts in splits {
        let mut timer = PeriodicTimer::new(period);
        let mut fired = 0u64;
        let mut total: i64 = 0;
        for &dt in dts {
            timer.advance(LocalDt::from_micros(dt));
            fired += fire_all(&mut timer);
            total += dt;
        }
        assert_eq!(fired as i64, total / 50_000);
    }
}

#[test]
fn trigger_below_period_does_not_fire() {
    let mut timer = PeriodicTimer::new(LocalDt::from_millis(50));
    timer.advance(LocalDt::from_micros(49_999));
    assert!(!timer.trigger());
    assert_eq!(timer.accumulator().to_micros(), 49_999);
    timer.advance(LocalDt::from_micros(1));
    assert!(timer.trigger());
    assert_eq!(timer.accumulator().to_micros(), 0);
    assert_eq!(timer.period().to_micros(), 50_000);
}

#[test]
fn reset_empties_accumulator() {
    let mut timer = PeriodicTimer::new(LocalDt::from_millis(10));
    timer.advance(LocalDt::from_millis(25));
    timer.reset();
    assert!(!timer.trigger());
    assert_eq!(timer.accumulator().to_micros(), 0);
}

#[test]
fn zero_period_fires_whenever_queried() {
    let mut timer = PeriodicTimer::new(LocalDt::zero());
    assert!(timer.trigger());
    timer.advance(LocalDt::from_micros(5));
    assert!(timer.trigger());
}
