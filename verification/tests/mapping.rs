//! Tests of the unit-slope time mapping and the stream predictor.

use rand::SeedableRng;
use rand_distr::{Distribution, Normal};

use untimely::{
    GameTag, GameTime, LocalDt, LocalTag, LocalTime, Samples, Time, TimeMapping,
    TimeMappingConfig, predict_stream_time,
};

fn config(max_len: usize) -> TimeMappingConfig {
    TimeMappingConfig {
        max_evidence_len: max_len,
        ignore_if_out_of_order: false,
        ema_alpha_permille: None,
    }
}

#[test]
fn exact_offset_evidence_evaluates_exactly() {
    // Evidence of the form (t, t + c): the fit recovers c exactly, so the
    // mapping evaluates to the query plus c.
    let offset = 250_000i64;
    let mut mapping: TimeMapping<LocalTag, GameTag> = TimeMapping::new(config(32));
    for k in 0..10i64 {
        let src = LocalTime::from_micros(k * 1_000_000);
        let tgt = GameTime::from_micros(k * 1_000_000 + offset);
        mapping.record_evidence(src, tgt);
    }
    mapping.update(LocalTime::from_secs(10));
    for query in [0i64, 123_456, 9_999_999] {
        let evaluated = mapping
            .eval(LocalTime::from_micros(query))
            .expect("fit exists");
        assert_eq!(evaluated.to_micros(), query + offset);
    }
}

#[test]
fn no_fit_below_two_pairs() {
    let mut mapping: TimeMapping<LocalTag, GameTag> = TimeMapping::new(config(8));
    mapping.update(LocalTime::zero());
    assert!(mapping.eval(LocalTime::zero()).is_none());
    mapping.record_evidence(LocalTime::zero(), GameTime::zero());
    mapping.update(LocalTime::zero());
    assert!(mapping.eval(LocalTime::zero()).is_none());
    mapping.record_evidence(LocalTime::from_secs(1), GameTime::from_secs(1));
    mapping.update(LocalTime::from_secs(1));
    assert!(mapping.eval(LocalTime::zero()).is_some());
}

#[test]
fn fit_is_mean_of_residuals() {
    let mut mapping: TimeMapping<LocalTag, GameTag> = TimeMapping::new(config(8));
    mapping.record_evidence(LocalTime::from_micros(0), GameTime::from_micros(10));
    mapping.record_evidence(LocalTime::from_micros(100), GameTime::from_micros(130));
    mapping.update(LocalTime::zero());
    // Residuals ten and thirty: the intercept is their mean, twenty.
    assert_eq!(mapping.eval(LocalTime::zero()).unwrap().to_micros(), 20);
}

#[test]
fn out_of_order_evidence_is_dropped_when_configured() {
    let strict = TimeMappingConfig {
        max_evidence_len: 8,
        ignore_if_out_of_order: true,
        ema_alpha_permille: None,
    };
    let mut mapping: TimeMapping<LocalTag, GameTag> = TimeMapping::new(strict);
    mapping.record_evidence(LocalTime::from_micros(100), GameTime::from_micros(100));
    // Neither time strictly advances, so this pair is ignored.
    mapping.record_evidence(LocalTime::from_micros(100), GameTime::from_micros(500));
    mapping.update(LocalTime::zero());
    assert!(mapping.eval(LocalTime::zero()).is_none());
    // A pair advancing both timelines is kept.
    mapping.record_evidence(LocalTime::from_micros(200), GameTime::from_micros(200));
    mapping.update(LocalTime::zero());
    assert_eq!(mapping.eval(LocalTime::zero()).unwrap().to_micros(), 0);
}

#[test]
fn evidence_ring_is_bounded() {
    // With a ring of two, only the newest two pairs influence the fit.
    let mut mapping: TimeMapping<LocalTag, GameTag> = TimeMapping::new(config(2));
    mapping.record_evidence(LocalTime::from_micros(0), GameTime::from_micros(1_000_000));
    mapping.record_evidence(LocalTime::from_micros(10), GameTime::from_micros(110));
    mapping.record_evidence(LocalTime::from_micros(20), GameTime::from_micros(120));
    mapping.update(LocalTime::zero());
    assert_eq!(mapping.eval(LocalTime::zero()).unwrap().to_micros(), 100);
}

#[test]
fn smoothing_blends_with_previous_fit() {
    let smooth = TimeMappingConfig {
        max_evidence_len: 8,
        ignore_if_out_of_order: false,
        ema_alpha_permille: Some(500),
    };
    let mut mapping: TimeMapping<LocalTag, GameTag> = TimeMapping::new(smooth);
    mapping.record_evidence(LocalTime::from_micros(0), GameTime::from_micros(100));
    mapping.record_evidence(LocalTime::from_micros(10), GameTime::from_micros(110));
    mapping.update(LocalTime::zero());
    // First fit: intercept one hundred (no previous fit to blend with).
    assert_eq!(mapping.eval(LocalTime::zero()).unwrap().to_micros(), 100);
    mapping.record_evidence(LocalTime::from_micros(20), GameTime::from_micros(220));
    mapping.record_evidence(LocalTime::from_micros(30), GameTime::from_micros(230));
    mapping.update(LocalTime::zero());
    // New raw fit: mean of one hundred, one hundred, two hundred, two
    // hundred, which is one hundred fifty; blended half and half with the
    // previous hundred gives one hundred twenty-five.
    assert_eq!(mapping.eval(LocalTime::zero()).unwrap().to_micros(), 125);
}

#[test]
fn from_evidence_seeds_the_ring() {
    let pairs = vec![
        (LocalTime::from_micros(0), GameTime::from_micros(40)),
        (LocalTime::from_micros(10), GameTime::from_micros(50)),
    ];
    let mut mapping: TimeMapping<LocalTag, GameTag> = TimeMapping::from_evidence(config(8), pairs);
    assert!(mapping.eval(LocalTime::zero()).is_none());
    mapping.update(LocalTime::zero());
    assert_eq!(mapping.eval(LocalTime::zero()).unwrap().to_micros(), 40);
}

#[test]
fn predictor_stalls_below_two_samples_and_fits_mean() {
    let mut samples: Samples<Time<GameTag>> = Samples::new(LocalDt::from_secs(10));
    let now = LocalTime::from_secs(1);
    assert!(predict_stream_time(&samples, now).is_none());
    samples.record(now, LocalTime::from_micros(100_000), GameTime::from_micros(80_000));
    assert!(predict_stream_time(&samples, now).is_none());
    samples.record(now, LocalTime::from_micros(200_000), GameTime::from_micros(180_000));
    let predicted = predict_stream_time(&samples, now).expect("two samples fit");
    // Both residuals are minus twenty milliseconds.
    assert_eq!(predicted.to_micros(), 1_000_000 - 20_000);
}

#[test]
fn noisy_evidence_averages_out() {
    // Evidence (t, t + c + noise) with zero-mean Gaussian noise: the mean
    // absolute error of the fitted mapping over many queries shrinks with
    // the window size, staying well under the noise deviation itself.
    let mut rng = rand::rngs::StdRng::seed_from_u64(42);
    let noise = Normal::new(0.0f64, 20_000.0).unwrap();
    let offset = 300_000i64;
    let n = 16i64;
    let mut mapping: TimeMapping<LocalTag, GameTag> = TimeMapping::new(config(n as usize));
    for k in 0..n {
        let src = k * 50_000;
        let tgt = src + offset + noise.sample(&mut rng) as i64;
        mapping.record_evidence(
            LocalTime::from_micros(src),
            GameTime::from_micros(tgt),
        );
    }
    mapping.update(LocalTime::from_micros(n * 50_000));
    let mut absolute_error_sum: i64 = 0;
    let queries = 10 * n;
    for q in 0..queries {
        let t = q * 7_000;
        let evaluated = mapping.eval(LocalTime::from_micros(t)).unwrap().to_micros();
        absolute_error_sum += (evaluated - (t + offset)).abs();
    }
    let mean_absolute_error = absolute_error_sum / queries;
    // Three times the standard error of the mean, for sixteen samples of
    // twenty milliseconds deviation, is fifteen milliseconds.
    assert!(
        mean_absolute_error < 15_000,
        "mean absolute error {}",
        mean_absolute_error
    );
}
