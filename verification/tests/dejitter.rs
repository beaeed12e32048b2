//! Tests of the dejitter buffer keyed by tick number.

use untimely::{DejitterBuffer, LocalDt, LocalTime, TickNum};

#[test]
fn stalls_below_two_samples() {
    let mut buffer: DejitterBuffer<&str> = DejitterBuffer::new(
        LocalDt::from_millis(100),
        LocalDt::from_secs(5),
    );
    let now = LocalTime::from_secs(1);
    assert!(buffer.pop(now).is_none());
    buffer.insert(now, LocalTime::from_micros(0), TickNum::from_u64(0), "only");
    assert_eq!(buffer.len(), 1);
    // One sample is not enough evidence to fit a model, so the buffer holds
    // the tick back even though it is old.
    assert!(buffer.pop(LocalTime::from_secs(100)).is_none());
}

#[test]
fn twenty_hertz_inputs_come_out_dense_and_in_order() {
    // Inputs arrive alternating fast and slow: the first at zero, then at
    // fifty, sixty, one hundred fifty, one hundred sixty milliseconds and so
    // on. Popping at one second yields a dense prefix of the tick numbers,
    // in order and with no repeats.
    let mut buffer: DejitterBuffer<u64> = DejitterBuffer::new(
        LocalDt::from_millis(100),
        LocalDt::from_secs(5),
    );
    let mut arrival: i64 = 0;
    for num in 0u64..20 {
        let receive = LocalTime::from_micros(arrival);
        buffer.insert(receive, receive, TickNum::from_u64(num), num);
        arrival += if num == 0 {
            50_000
        } else if num % 2 == 1 {
            10_000
        } else {
            90_000
        };
    }

    let now = LocalTime::from_secs(1);
    let mut popped: Vec<u64> = Vec::new();
    while let Some((num, value)) = buffer.pop(now) {
        assert_eq!(num.to_u64(), value);
        popped.push(value);
    }
    assert!(!popped.is_empty());
    let expected: Vec<u64> = (0..popped.len() as u64).collect();
    assert_eq!(popped, expected);
}

#[test]
fn pops_are_strictly_increasing_for_any_insertion_order() {
    let mut buffer: DejitterBuffer<u64> = DejitterBuffer::new(
        LocalDt::zero(),
        LocalDt::from_secs(60),
    );
    let order: [u64; 7] = [3, 0, 6, 1, 5, 2, 4];
    let mut receive: i64 = 0;
    for num in order {
        receive += 10_000;
        let at = LocalTime::from_micros(receive);
        buffer.insert(at, at, TickNum::from_u64(num), num);
    }
    let now = LocalTime::from_secs(3600);
    let mut previous: Option<u64> = None;
    while let Some((num, _)) = buffer.pop(now) {
        if let Some(p) = previous {
            assert!(num.to_u64() > p);
        }
        previous = Some(num.to_u64());
    }
    assert!(previous.is_some());
}

#[test]
fn outdated_and_duplicate_inserts_are_dropped() {
    let mut buffer: DejitterBuffer<&str> = DejitterBuffer::new(
        LocalDt::zero(),
        LocalDt::from_secs(60),
    );
    let at = |m: i64| LocalTime::from_micros(m);
    buffer.insert(at(0), at(0), TickNum::from_u64(0), "zero");
    buffer.insert(at(1_000_000), at(1_000_000), TickNum::from_u64(1), "one");
    // A duplicate tick number leaves the queue unchanged.
    buffer.insert(at(2_000_000), at(2_000_000), TickNum::from_u64(1), "one again");
    assert_eq!(buffer.len(), 2);

    let now = LocalTime::from_secs(3600);
    let (first, value) = buffer.pop(now).expect("tick zero is ready");
    assert_eq!(first.to_u64(), 0);
    assert_eq!(value, "zero");

    // A tick at or before the last popped number is dropped outright.
    buffer.insert(at(3_000_000), at(3_000_000), TickNum::from_u64(0), "stale");
    assert_eq!(buffer.len(), 1);
    let (second, _) = buffer.pop(now).expect("tick one is ready");
    assert_eq!(second.to_u64(), 1);
}

#[test]
fn delay_can_be_changed() {
    let mut buffer: DejitterBuffer<u8> = DejitterBuffer::new(
        LocalDt::from_millis(40),
        LocalDt::from_secs(5),
    );
    assert_eq!(buffer.delay().to_micros(), 40_000);
    buffer.set_delay(LocalDt::from_millis(80));
    assert_eq!(buffer.delay().to_micros(), 80_000);
}
