//! Tests of the local clock, the sample window, the metrics store, and the
//! sender tick buffer.

use untimely::{
    Gauge, LocalClock, LocalDt, LocalTime, Metrics, SenderTickBuffer, Samples, TickNum,
};

#[test]
fn local_clock_clamps_backward_steps() {
    let mut clock = LocalClock::new();
    assert_eq!(clock.local_time().to_micros(), 0);
    // The first report yields a zero span.
    assert_eq!(clock.set_local_time(LocalTime::from_millis(100)).to_micros(), 0);
    assert_eq!(clock.set_local_time(LocalTime::from_millis(116)).to_micros(), 16_000);
    // A backward step yields zero, not a negative span.
    assert_eq!(clock.set_local_time(LocalTime::from_millis(110)).to_micros(), 0);
    assert_eq!(clock.local_time().to_micros(), 110_000);
    clock.advance(LocalDt::from_millis(5));
    assert_eq!(clock.local_time().to_micros(), 115_000);
}

#[test]
fn sample_window_evicts_by_wall_clock_age() {
    let mut window: Samples<u32> = Samples::new(LocalDt::from_millis(100));
    let record = |w: &mut Samples<u32>, now: i64, at: i64, v: u32| {
        w.record(LocalTime::from_micros(now), LocalTime::from_micros(at), v);
    };
    record(&mut window, 0, 0, 1);
    record(&mut window, 50_000, 50_000, 2);
    record(&mut window, 100_000, 100_000, 3);
    assert_eq!(window.len(), 3);
    // At one hundred fifty milliseconds, the first entry is older than the
    // bound and falls out.
    record(&mut window, 150_000, 150_000, 4);
    assert_eq!(window.len(), 3);
    assert_eq!(window.front().unwrap().1, 2);
    assert_eq!(window.back().unwrap().1, 4);
    assert_eq!(window.get(1).1, 3);
}

#[test]
fn stalled_stream_ages_out_entirely() {
    // Age is measured against the wall clock: when nothing arrives for
    // longer than the bound, one late recording leaves only itself.
    let mut window: Samples<&str> = Samples::new(LocalDt::from_millis(100));
    window.record(LocalTime::zero(), LocalTime::zero(), "old");
    window.record(
        LocalTime::from_secs(10),
        LocalTime::from_secs(10),
        "fresh",
    );
    assert_eq!(window.len(), 1);
    assert_eq!(window.back().unwrap().1, "fresh");
}

#[test]
fn gauges_compute_exact_statistics() {
    let mut metrics = Metrics::new(LocalDt::from_secs(10));
    let name = String::from("residual");
    let now = LocalTime::from_secs(1);
    for value in [10i64, -30, 50] {
        metrics.record_gauge(now, &name, value);
    }
    let gauge: &Gauge = metrics.get_gauge(&name).expect("gauge exists");
    assert_eq!(gauge.len(), 3);
    assert_eq!(gauge.mean(), Some(10));
    assert_eq!(gauge.min(), Some(-30));
    assert_eq!(gauge.max(), Some(50));
    // The mean rounds towards minus infinity.
    let mut more = Metrics::new(LocalDt::from_secs(10));
    more.record_gauge(now, &name, -1);
    more.record_gauge(now, &name, -2);
    assert_eq!(more.get_gauge(&name).unwrap().mean(), Some(-2));
}

#[test]
fn gauges_are_separate_and_discoverable() {
    let mut metrics = Metrics::new(LocalDt::from_secs(10));
    let now = LocalTime::from_secs(1);
    let a = String::from("alpha");
    let b = String::from("beta");
    metrics.record_gauge(now, &a, 1);
    metrics.record_gauge(now, &b, 2);
    metrics.record_gauge(now, &a, 3);
    assert_eq!(metrics.len(), 2);
    assert_eq!(metrics.get_gauge(&a).unwrap().len(), 2);
    assert_eq!(metrics.get_gauge(&b).unwrap().len(), 1);
    assert!(metrics.get_gauge(&String::from("gamma")).is_none());
    let (first_name, _) = metrics.get(0);
    assert_eq!(first_name, &a);
    let empty = Gauge::new(LocalDt::from_secs(1));
    assert_eq!(empty.mean(), None);
    assert_eq!(empty.min(), None);
    assert_eq!(empty.max(), None);
}

#[test]
fn sender_buffer_tracks_newest_ack() {
    let mut buffer: SenderTickBuffer<&str> = SenderTickBuffer::new();
    assert!(buffer.get_last_client_ack_num().is_none());
    assert!(buffer.get_last_client_ack_tick().is_none());

    buffer.record_sent_tick(TickNum::from_u64(0), "zero");
    buffer.record_sent_tick(TickNum::from_u64(1), "one");
    buffer.record_sent_tick(TickNum::from_u64(2), "two");

    buffer.record_client_ack(TickNum::from_u64(1));
    assert_eq!(buffer.get_last_client_ack_num().unwrap().to_u64(), 1);
    assert_eq!(buffer.get_last_client_ack_tick(), Some(&"one"));

    // An older acknowledgement does not move the newest one backwards.
    buffer.record_client_ack(TickNum::from_u64(0));
    assert_eq!(buffer.get_last_client_ack_num().unwrap().to_u64(), 1);

    // An acknowledgement for a tick never sent has no payload.
    buffer.record_client_ack(TickNum::from_u64(7));
    assert_eq!(buffer.get_last_client_ack_num().unwrap().to_u64(), 7);
    assert!(buffer.get_last_client_ack_tick().is_none());
}

#[test]
fn tick_numbers_convert_to_times() {
    let num = TickNum::from_u64(3);
    assert_eq!(num.to_tick_time().to_micros(), 3_000_000);
    assert_eq!(num.succ().to_u64(), 4);
    assert_eq!(TickNum::zero().to_u64(), 0);
    assert_eq!(
        TickNum::from_tick_time(untimely::TickTime::from_micros(2_500_000)).to_u64(),
        2
    );
    assert_eq!(
        TickNum::from_tick_time(untimely::TickTime::from_micros(-5)).to_u64(),
        0
    );
    let tick_dt = untimely::GameDt::from_millis(50);
    assert_eq!(num.to_game_time(tick_dt).to_micros(), 150_000);
}

#[test]
fn player_and_entity_ids_expose_their_values() {
    let p = untimely::PlayerId(7);
    assert_eq!(p.to_u32(), 7);
    assert_eq!(p.to_usize(), 7usize);
    let e = untimely::EntityId(9);
    assert_eq!(e.to_u32(), 9);
    assert_eq!(e.to_usize(), 9usize);
}
