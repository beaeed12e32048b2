//! Tests of the simulated network.

use rand::SeedableRng;
use rand::rngs::StdRng;

use untimely::{
    GameDt, GameTime, LocalDt, LocalTime, MockChannel, MockChannelParams, MockNet,
    MockSocketParams, PlaybackClock, PlaybackClockParams, PlayerId,
};

fn rng(seed: u64) -> StdRng {
    StdRng::seed_from_u64(seed)
}

#[test]
fn perfect_channel_delivers_in_order() {
    let params = MockChannelParams::perfect();
    let mut channel: MockChannel<u32> = MockChannel::new();
    let mut entropy = rng(1);
    for k in 0u32..5 {
        channel.send(LocalTime::from_millis(k as i64 * 10), &params, &mut entropy, k);
    }
    let mut received: Vec<u32> = Vec::new();
    let now = LocalTime::from_secs(1);
    while let Some((_, message)) = channel.receive(now) {
        received.push(message);
    }
    assert_eq!(received, vec![0, 1, 2, 3, 4]);
}

#[test]
fn nothing_is_received_from_the_future() {
    let params = MockChannelParams {
        latency_mean: LocalDt::from_millis(20),
        latency_std_dev: LocalDt::zero(),
        loss_ppm: 0,
    };
    let mut channel: MockChannel<&str> = MockChannel::new();
    let mut entropy = rng(2);
    channel.send(LocalTime::zero(), &params, &mut entropy, "late");
    // The arrival time is twenty milliseconds; the message is invisible
    // before that instant and delivered once it is reached.
    assert!(channel.receive(LocalTime::from_millis(10)).is_none());
    assert!(channel.receive(LocalTime::from_micros(19_999)).is_none());
    let (arrival, message) = channel.receive(LocalTime::from_millis(20)).expect("arrived");
    assert_eq!(arrival.to_micros(), 20_000);
    assert_eq!(message, "late");
}

#[test]
fn loss_rate_is_respected() {
    // Ten thousand sends with one-in-ten loss: the received count falls
    // within three standard deviations of nine thousand.
    let params = MockChannelParams {
        latency_mean: LocalDt::zero(),
        latency_std_dev: LocalDt::zero(),
        loss_ppm: 100_000,
    };
    let mut channel: MockChannel<u32> = MockChannel::new();
    let mut entropy = rng(3);
    for k in 0u32..10_000 {
        channel.send(LocalTime::zero(), &params, &mut entropy, k);
    }
    let mut count = 0u32;
    while channel.receive(LocalTime::from_secs(1)).is_some() {
        count += 1;
    }
    assert!(
        (8_910..=9_090).contains(&count),
        "received {} of 10000",
        count
    );
}

#[test]
fn jitter_is_bounded_and_centered() {
    let params = MockChannelParams {
        latency_mean: LocalDt::from_millis(20),
        latency_std_dev: LocalDt::from_millis(10),
        loss_ppm: 0,
    };
    let mut channel: MockChannel<u32> = MockChannel::new();
    let mut entropy = rng(4);
    let sends = 2_000u32;
    for k in 0..sends {
        channel.send(LocalTime::zero(), &params, &mut entropy, k);
    }
    let mut sum: i64 = 0;
    let mut count = 0i64;
    while let Some((arrival, _)) = channel.receive(LocalTime::from_secs(10)) {
        let latency = arrival.to_micros();
        assert!(latency >= 0);
        assert!(latency <= 20_000 + 6 * 10_000);
        sum += latency;
        count += 1;
    }
    assert_eq!(count, sends as i64);
    let mean = sum / count;
    assert!((mean - 20_000).abs() < 2_000, "mean latency {}", mean);
}

#[test]
fn net_routes_messages_per_player_in_arrival_order() {
    let players = [PlayerId(1), PlayerId(2)];
    let mut net: MockNet<&str, &str> = MockNet::new(&players, 5);
    net.set_params(
        PlayerId(2),
        MockSocketParams {
            server_out: MockChannelParams::perfect(),
            client_out: MockChannelParams {
                latency_mean: LocalDt::from_millis(30),
                latency_std_dev: LocalDt::zero(),
                loss_ppm: 0,
            },
        },
    );

    net.send_to_server(LocalTime::from_millis(0), PlayerId(2), "slow");
    net.send_to_server(LocalTime::from_millis(10), PlayerId(1), "fast");
    net.send_to_client(LocalTime::from_millis(5), PlayerId(1), "hello");

    let at_server = net.receive_server(LocalTime::from_millis(100));
    let summary: Vec<(i64, u32, &str)> = at_server
        .iter()
        .map(|(t, p, m)| (t.to_micros(), p.to_u32(), *m))
        .collect();
    assert_eq!(summary, vec![(10_000, 1, "fast"), (30_000, 2, "slow")]);

    let at_client = net.receive_client(LocalTime::from_millis(100), PlayerId(1));
    assert_eq!(at_client.len(), 1);
    assert_eq!(at_client[0].0.to_micros(), 5_000);
    assert_eq!(at_client[0].1, "hello");
    assert!(net.receive_client(LocalTime::from_millis(100), PlayerId(2)).is_empty());
}

#[test]
fn ties_break_by_player() {
    let players = [PlayerId(9), PlayerId(3)];
    let mut net: MockNet<(), u32> = MockNet::new(&players, 6);
    net.send_to_server(LocalTime::from_millis(4), PlayerId(9), 9);
    net.send_to_server(LocalTime::from_millis(4), PlayerId(3), 3);
    let received = net.receive_server(LocalTime::from_millis(50));
    let order: Vec<u32> = received.iter().map(|(_, p, _)| p.to_u32()).collect();
    assert_eq!(order, vec![3, 9]);
}

#[test]
fn jittery_stream_keeps_playback_monotone() {
    // Ticks sent every fifty milliseconds through a channel with ten
    // milliseconds of jitter: playback never runs backwards, and the
    // residual settles to a root mean square under twenty milliseconds.
    let params = MockChannelParams {
        latency_mean: LocalDt::from_millis(20),
        latency_std_dev: LocalDt::from_millis(10),
        loss_ppm: 0,
    };
    let mut channel: MockChannel<i64> = MockChannel::new();
    let mut entropy = rng(7);
    let mut clock = PlaybackClock::new(PlaybackClockParams {
        delay: GameDt::from_millis(100),
        max_overtake: GameDt::from_millis(20),
        max_sample_age: LocalDt::from_secs(1),
    });

    let mut now_micros: i64 = 0;
    let mut next_send: i64 = 0;
    let mut previous_playback = clock.playback_time().to_micros();
    let mut squared_sum: f64 = 0.0;
    let mut measured: u32 = 0;
    while now_micros < 3_000_000 {
        now_micros += 16_700;
        let now = LocalTime::from_micros(now_micros);
        while next_send * 50_000 <= now_micros {
            let game_micros = next_send * 50_000;
            channel.send(
                LocalTime::from_micros(game_micros),
                &params,
                &mut entropy,
                game_micros,
            );
            next_send += 1;
        }
        while let Some((arrival, game_micros)) = channel.receive(now) {
            clock.record_stream_time(now, arrival, GameTime::from_micros(game_micros));
        }
        let residual = clock.advance(now, LocalDt::from_micros(16_700));
        let playback = clock.playback_time().to_micros();
        assert!(playback >= previous_playback);
        previous_playback = playback;
        if now_micros >= 1_000_000 {
            let r = residual.to_micros() as f64;
            squared_sum += r * r;
            measured += 1;
        }
    }
    let rms = (squared_sum / measured as f64).sqrt();
    assert!(rms < 20_000.0, "residual root mean square {}", rms);
}
