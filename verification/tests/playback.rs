//! Scenario tests of the playback clock and tick playback.

use untimely::{
    GameDt, GameTime, LocalDt, LocalTime, PlaybackClock, PlaybackClockParams, TickPlayback,
    TickPlaybackParams,
};

fn params_100ms_delay() -> PlaybackClockParams {
    PlaybackClockParams {
        delay: GameDt::from_millis(100),
        max_overtake: GameDt::zero(),
        max_sample_age: LocalDt::from_secs(1),
    }
}

/// Drive a tick playback over a perfect link: ticks every fifty
/// milliseconds, arriving exactly twenty milliseconds after their game time,
/// with frames of sixteen point seven milliseconds, up to `end_micros`.
/// Returns the playback and the local time reached.
fn run_perfect_link(end_micros: i64, max_residual: GameDt) -> (TickPlayback<u64>, i64) {
    let params = TickPlaybackParams {
        playback_clock_params: params_100ms_delay(),
        max_residual,
    };
    let mut playback: TickPlayback<u64> = TickPlayback::new(params);
    let mut now_micros: i64 = 0;
    let mut next_tick: i64 = 0;
    while now_micros < end_micros {
        now_micros += 16_700;
        let now = LocalTime::from_micros(now_micros);
        // Deliver every tick whose arrival time has passed.
        while next_tick * 50_000 + 20_000 <= now_micros {
            let game_micros = next_tick * 50_000;
            playback.record_tick(
                now,
                LocalTime::from_micros(game_micros + 20_000),
                GameTime::from_micros(game_micros),
                next_tick as u64,
            );
            next_tick += 1;
        }
        playback.advance(now, LocalDt::from_micros(16_700));
    }
    (playback, now_micros)
}

#[test]
fn perfect_link_converges_to_delayed_target() {
    // After a second of frames, playback sits at the predicted stream time
    // less the hundred-millisecond delay and the twenty-millisecond latency,
    // within five milliseconds. Advancing a frame integrates that frame's
    // whole span, so the playback read after a frame meets the target of the
    // instant at which the next frame begins.
    let (playback, now_micros) = run_perfect_link(1_000_000, GameDt::from_secs(10));
    let expected = (now_micros + 16_700) - 20_000 - 100_000;
    let got = playback.playback_time().to_micros();
    assert!(
        (got - expected).abs() <= 5_000,
        "playback {} expected about {}",
        got,
        expected
    );
}

#[test]
fn playback_is_monotone_and_below_ceiling() {
    // Under any interleaving of recording and advancing, playback never runs
    // backwards and never exceeds the newest received stream time plus the
    // overtake tolerance.
    let mut clock = PlaybackClock::new(PlaybackClockParams {
        delay: GameDt::from_millis(50),
        max_overtake: GameDt::from_millis(10),
        max_sample_age: LocalDt::from_secs(5),
    });
    let arrivals: [(i64, i64); 6] = [
        (10_000, 40_000),
        (30_000, 20_000),
        (70_000, 90_000),
        (90_000, 60_000),
        (150_000, 150_000),
        (180_000, 200_000),
    ];
    let mut now_micros: i64 = 0;
    let mut max_stream: i64 = 0;
    let mut previous = clock.playback_time().to_micros();
    for (receive, stream) in arrivals {
        let now = LocalTime::from_micros(now_micros);
        clock.record_stream_time(now, LocalTime::from_micros(receive), GameTime::from_micros(stream));
        max_stream = max_stream.max(stream);
        for _ in 0..4 {
            now_micros += 16_700;
            clock.advance(LocalTime::from_micros(now_micros), LocalDt::from_micros(16_700));
            let current = clock.playback_time().to_micros();
            assert!(current >= previous);
            assert!(current <= max_stream + 10_000);
            previous = current;
        }
    }
}

#[test]
fn steady_stream_converges() {
    // A stream advancing in lockstep with the local clock: the residual
    // against the delayed target settles under five milliseconds.
    let mut clock = PlaybackClock::new(PlaybackClockParams {
        delay: GameDt::from_millis(100),
        max_overtake: GameDt::from_millis(50),
        max_sample_age: LocalDt::from_secs(1),
    });
    let mut now_micros: i64 = 0;
    let mut next_sample: i64 = 0;
    let mut last_residual: i64 = 0;
    while next_sample <= 200 {
        now_micros += 16_700;
        let now = LocalTime::from_micros(now_micros);
        while next_sample * 50_000 <= now_micros {
            let t = next_sample * 50_000;
            clock.record_stream_time(now, LocalTime::from_micros(t), GameTime::from_micros(t));
            next_sample += 1;
        }
        let residual = clock.advance(now, LocalDt::from_micros(16_700));
        last_residual = residual.to_micros();
    }
    assert!(last_residual.abs() < 5_000, "residual {}", last_residual);
}

#[test]
fn stream_time_needs_two_samples() {
    let mut clock = PlaybackClock::new(params_100ms_delay());
    let now = LocalTime::from_micros(10_000);
    assert_eq!(clock.stream_time(now).to_micros(), 0);
    clock.record_stream_time(now, LocalTime::from_micros(5_000), GameTime::from_micros(1_000));
    assert_eq!(clock.stream_time(now).to_micros(), 0);
    clock.record_stream_time(now, LocalTime::from_micros(7_000), GameTime::from_micros(3_000));
    // Two samples with residual minus four milliseconds each: the predicted
    // stream time is now minus four milliseconds.
    assert_eq!(clock.stream_time(now).to_micros(), 10_000 - 4_000);
}

#[test]
fn stalled_playback_jumps_to_newest_tick() {
    // Run a healthy stream for two seconds, stall for five, then advance by
    // a single clamped one-second frame: playback must jump to the newest
    // buffered tick and drop the rest.
    let (mut playback, now_micros) = run_perfect_link(2_000_000, GameDt::from_millis(500));
    assert!(playback.next_tick().is_some());

    let resume = now_micros + 5_000_000;
    let started = playback.advance(
        LocalTime::from_micros(resume),
        LocalDt::from_secs(1),
    );
    // The newest buffered tick carried the last game time sent before the
    // stall.
    let newest = started.last().expect("recovery starts the newest tick").0;
    assert_eq!(playback.playback_time().to_micros(), newest.to_micros());
    assert!(playback.next_tick().is_none());
    let (current_time, _) = playback.current_tick().expect("current tick after recovery");
    assert_eq!(current_time.to_micros(), newest.to_micros());
}

#[test]
fn started_ticks_come_in_order() {
    let (playback, _) = run_perfect_link(1_000_000, GameDt::from_secs(10));
    // The ticks started so far are exactly those at or before the playback
    // time; the current tick is the last started one.
    let pb = playback.playback_time().to_micros();
    let (current_time, current_value) = playback.current_tick().expect("a tick has started");
    assert!(current_time.to_micros() <= pb);
    assert_eq!(current_time.to_micros(), *current_value as i64 * 50_000);
    let (next_time, _) = playback.next_tick().expect("a tick is still buffered");
    assert!(next_time.to_micros() > pb);
}

#[test]
fn interpolation_window_between_ticks() {
    let params = TickPlaybackParams {
        playback_clock_params: params_100ms_delay(),
        max_residual: GameDt::from_secs(10),
    };
    let mut playback: TickPlayback<&str> = TickPlayback::new(params);
    let now = LocalTime::from_micros(100_000);
    playback.record_tick(
        now,
        LocalTime::from_micros(20_000),
        GameTime::from_micros(0),
        "first",
    );
    playback.record_tick(
        now,
        LocalTime::from_micros(70_000),
        GameTime::from_micros(50_000),
        "second",
    );
    // Pop the first tick by advancing; playback stays at zero since the
    // ceiling is the newest stream time and the target is far in the past,
    // so the first tick (game time zero) starts at once.
    let started = playback.advance(now, LocalDt::from_micros(16_700));
    assert_eq!(started.len(), 1);
    assert_eq!(started[0].1, "first");
    let window = playback.interpolation().expect("current and next tick exist");
    assert_eq!(window.current_time.to_micros(), 0);
    assert_eq!(*window.current_value, "first");
    assert_eq!(window.next_time.to_micros(), 50_000);
    assert_eq!(*window.next_value, "second");
    let pb = playback.playback_time().to_micros();
    let expected_alpha = (pb * 1000) / 50_000;
    assert_eq!(window.alpha_permille, expected_alpha.clamp(0, 1000));
}
