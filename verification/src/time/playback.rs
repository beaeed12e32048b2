//! The playback clock: a locally advancing game-time clock that chases the
//! predicted stream time with a configured delay.
//!
//! Each frame the clock advances by the frame's local span, scaled by a warp
//! factor computed from the residual between the delayed target and the
//! current playback time, and is then capped so that it never overtakes what
//! has actually been received by more than a configured tolerance.

use vstd::prelude::*;
use vstd::arithmetic::div_mod::lemma_div_is_ordered;

use crate::time::samples::Samples;
use crate::time::stream::{
    entries_in_range, entry_in_range, lemma_filter_preserves_range, predict_stream_time,
    unit_slope_intercept,
};
use crate::time::{GameDt, GameTime, LocalDt, LocalTime, fits_i64, in_time_range};

verus! {

/// The denominator of the fixed-point warp factor: [`time_warp`] returns a
/// numerator out of this many parts.
pub const WARP_DENOMINATOR: i64 = 1024;

/// The fixed-point warp factor, as a numerator out of [`WARP_DENOMINATOR`].
///
/// The reference warp is the sigmoid
/// `1/2 + 3 / (2 * (1 + 2 * exp(-residual / 5 ms)))`:
/// range one half to two, exactly one at residual zero, approaching one half
/// when playback is far ahead of the delayed target (slow down) and two when
/// far behind (catch up), with the five-millisecond constant hand-tuned for
/// twenty-hertz ticks. This integer version is the piecewise-linear ramp
/// with the same range, the same fixed point at zero, and the reference's
/// slope at zero (one warp unit per fifteen microseconds of residual),
/// saturating at half speed and at double speed.
pub open spec fn warp_numerator(residual: int) -> int {
    if residual >= 0 {
        if 1024 + residual / 15 >= 2048 {
            2048
        } else {
            1024 + residual / 15
        }
    } else {
        if (-residual) / 15 >= 512 {
            512
        } else {
            1024 - (-residual) / 15
        }
    }
}

/// Law: the warp factor is one half at least, two at most, exactly one at
/// residual zero, and nondecreasing in the residual.
pub proof fn lemma_warp_shape(r1: int, r2: int)
    requires
        r1 <= r2,
    ensures
        512 <= warp_numerator(r1) <= 2048,
        warp_numerator(0) == 1024,
        warp_numerator(r1) <= warp_numerator(r2),
{
    if r1 >= 0 {
        lemma_div_is_ordered(r1, r2, 15);
    } else if r2 >= 0 {
        lemma_div_is_ordered(0, r2, 15);
        lemma_div_is_ordered(0, -r1, 15);
    } else {
        lemma_div_is_ordered(-r2, -r1, 15);
    }
    lemma_div_is_ordered(0, if r1 >= 0 { r1 } else { -r1 }, 15);
    lemma_div_is_ordered(0, if r2 >= 0 { r2 } else { -r2 }, 15);
}

/// The warp factor for a residual, as a numerator out of
/// [`WARP_DENOMINATOR`].
pub fn time_warp(residual: GameDt) -> (num: i64)
    requires
        fits_i64(-residual@),
    ensures
        num as int == warp_numerator(residual@),
        512 <= num <= 2048,
{
    proof {
        lemma_warp_shape(residual@, residual@);
    }
    let r = residual.to_micros();
    if r >= 0 {
        let v = r / 15;
        if v >= 1024 {
            2048
        } else {
            1024 + v
        }
    } else {
        let d = (-r) / 15;
        if d >= 512 {
            512
        } else {
            1024 - d
        }
    }
}

/// The largest stream time in a window of `(receive time, stream time)`
/// samples, or zero for an empty window.
pub open spec fn max_stream_time(s: Seq<(LocalTime, GameTime)>) -> int
    decreases s.len(),
{
    if s.len() == 0 {
        0
    } else if s.len() == 1 {
        s.last().1@
    } else if s.last().1@ >= max_stream_time(s.drop_last()) {
        s.last().1@
    } else {
        max_stream_time(s.drop_last())
    }
}

/// The predicted stream time used by the playback clock: the unit-slope
/// prediction when the window has at least two samples, and zero otherwise.
pub open spec fn predicted_or_zero(s: Seq<(LocalTime, GameTime)>, now: int) -> int {
    if s.len() >= 2 {
        now + unit_slope_intercept(s)
    } else {
        0
    }
}

/// Configuration of a [`PlaybackClock`].
#[derive(Debug, Clone, Copy)]
pub struct PlaybackClockParams {
    /// How far behind the predicted stream time playback runs.
    pub delay: GameDt,
    /// How far past the newest received stream time playback may advance.
    pub max_overtake: GameDt,
    /// Maximum age of entries kept in the stream sample window.
    pub max_sample_age: LocalDt,
}

impl PlaybackClockParams {
    /// Whether the delay and overtake tolerance are within
    /// [`crate::time::TIME_LIMIT_MICROS`].
    pub open spec fn wf(&self) -> bool {
        in_time_range(self.delay@) && in_time_range(self.max_overtake@)
    }

    /// Parameters suited to interpolating between adjacent ticks sent every
    /// `tick_send_dt`: a delay of two send periods, no overtake, and a
    /// five-second sample window.
    pub fn for_interpolation(tick_send_dt: GameDt) -> (r: Self)
        requires
            fits_i64(tick_send_dt@ * 2),
        ensures
            r.delay@ == tick_send_dt@ * 2,
            r.max_overtake@ == 0,
            r.max_sample_age@ == 5_000_000,
    {
        PlaybackClockParams {
            delay: tick_send_dt.scale(2),
            max_overtake: GameDt::zero(),
            max_sample_age: LocalDt::from_secs(5),
        }
    }
}

/// A game-time clock that chases the predicted stream time minus the
/// configured delay, never running backwards on its own and never exceeding
/// the newest received stream time plus the overtake tolerance.
#[derive(Debug, Clone)]
pub struct PlaybackClock {
    params: PlaybackClockParams,
    stream_samples: Samples<GameTime>,
    playback_time: GameTime,
}

impl PlaybackClock {
    /// The stream sample window, as `(receive time, stream time)` entries.
    pub closed spec fn samples(&self) -> Seq<(LocalTime, GameTime)> {
        self.stream_samples@
    }

    /// The current playback time, in microseconds.
    pub closed spec fn playback(&self) -> int {
        self.playback_time@
    }

    /// The configured parameters, as a spec value.
    pub closed spec fn params_spec(&self) -> PlaybackClockParams {
        self.params
    }

    /// The configured delay, in microseconds.
    pub closed spec fn delay(&self) -> int {
        self.params.delay@
    }

    /// The configured overtake tolerance, in microseconds.
    pub closed spec fn max_overtake(&self) -> int {
        self.params.max_overtake@
    }

    /// The configured sample window age bound, in microseconds.
    pub closed spec fn max_sample_age(&self) -> int {
        self.params.max_sample_age@
    }

    /// The sample window's own age bound agrees with the configured one.
    pub closed spec fn ages_agree(&self) -> bool {
        self.stream_samples.max_age_spec() == self.params.max_sample_age@
    }

    /// The ceiling playback may not exceed: the newest received stream time
    /// plus the overtake tolerance.
    pub open spec fn ceiling(&self) -> int {
        max_stream_time(self.samples()) + self.max_overtake()
    }

    /// The delayed target the clock chases at local instant `now`.
    pub open spec fn target(&self, now: int) -> int {
        predicted_or_zero(self.samples(), now) - self.delay()
    }

    /// Well-formedness: parameters, samples, and playback time are bounded
    /// so that a frame's arithmetic cannot overflow.
    pub open spec fn wf(&self) -> bool {
        &&& self.params_spec().wf()
        &&& self.ages_agree()
        &&& entries_in_range(self.samples())
        &&& -0x40_0000_0000_0000 <= self.playback() <= 0x40_0000_0000_0000
    }

    /// A clock at playback time zero with an empty sample window.
    pub fn new(params: PlaybackClockParams) -> (r: Self)
        requires
            params.wf(),
        ensures
            r.wf(),
            r.samples() == Seq::<(LocalTime, GameTime)>::empty(),
            r.playback() == 0,
            r.delay() == params.delay@,
            r.max_overtake() == params.max_overtake@,
            r.max_sample_age() == params.max_sample_age@,
    {
        PlaybackClock {
            params,
            stream_samples: Samples::new(params.max_sample_age),
            playback_time: GameTime::zero(),
        }
    }

    /// The configured parameters.
    pub fn params(&self) -> (r: &PlaybackClockParams)
        ensures
            r.delay@ == self.delay(),
            r.max_overtake@ == self.max_overtake(),
            r.max_sample_age@ == self.max_sample_age(),
    {
        &self.params
    }

    /// Replace the parameters. The new sample age bound applies from the
    /// next recording on.
    pub fn set_params(&mut self, params: PlaybackClockParams)
        requires
            old(self).wf(),
            params.wf(),
        ensures
            final(self).wf(),
            final(self).delay() == params.delay@,
            final(self).max_overtake() == params.max_overtake@,
            final(self).max_sample_age() == params.max_sample_age@,
            final(self).samples() == old(self).samples(),
            final(self).playback() == old(self).playback(),
    {
        self.params = params;
        self.stream_samples.set_max_age(params.max_sample_age);
    }

    /// The current playback time.
    pub fn playback_time(&self) -> (r: GameTime)
        ensures
            r@ == self.playback(),
    {
        self.playback_time
    }

    /// Jump the playback time, for emergency recovery when playback has
    /// fallen hopelessly behind. This is the one operation that may move
    /// playback backwards.
    pub fn set_playback_time(&mut self, playback_time: GameTime)
        requires
            old(self).wf(),
            in_time_range(playback_time@),
        ensures
            final(self).wf(),
            final(self).playback() == playback_time@,
            final(self).samples() == old(self).samples(),
            final(self).delay() == old(self).delay(),
            final(self).max_overtake() == old(self).max_overtake(),
            final(self).max_sample_age() == old(self).max_sample_age(),
    {
        self.playback_time = playback_time;
    }

    /// The predicted stream time at local instant `now`, or zero with fewer
    /// than two samples.
    pub fn stream_time(&self, now: LocalTime) -> (r: GameTime)
        requires
            self.wf(),
            in_time_range(now@),
        ensures
            r@ == predicted_or_zero(self.samples(), now@),
    {
        match predict_stream_time(&self.stream_samples, now) {
            Some(t) => t,
            None => GameTime::zero(),
        }
    }

    /// Record that a tick carrying stream time `stream_time` was received at
    /// local instant `receive_time`; `now` is the current local time, which
    /// governs eviction of old samples.
    pub fn record_stream_time(
        &mut self,
        now: LocalTime,
        receive_time: LocalTime,
        stream_time: GameTime,
    )
        requires
            old(self).wf(),
            in_time_range(receive_time@),
            in_time_range(stream_time@),
        ensures
            final(self).wf(),
            final(self).samples() == old(self).samples().push((receive_time, stream_time))
                .filter(crate::time::samples::keeps(now@, old(self).max_sample_age())),
            final(self).playback() == old(self).playback(),
            final(self).delay() == old(self).delay(),
            final(self).max_overtake() == old(self).max_overtake(),
            final(self).max_sample_age() == old(self).max_sample_age(),
    {
        self.stream_samples.record(now, receive_time, stream_time);
        proof {
            let source = old(self).samples().push((receive_time, stream_time));
            let pred = crate::time::samples::keeps::<GameTime>(now@, old(self).max_sample_age());
            assert forall|i: int| 0 <= i < source.len() implies entry_in_range(
                #[trigger] source[i],
            ) by {
                if i < old(self).samples().len() {
                    assert(entry_in_range(old(self).samples()[i]));
                }
            }
            lemma_filter_preserves_range(source, pred);
        }
    }

    /// Advance playback by the frame span `dt`, warped by the residual
    /// against the delayed target and capped at the ceiling. Returns the
    /// residual, so callers can detect runaway lag.
    ///
    /// The new playback time is the minimum of the warped step and the
    /// ceiling; in particular it never exceeds the ceiling, and it does not
    /// decrease unless the ceiling was already below the old playback time
    /// (which only eviction or a parameter change can cause).
    pub fn advance(&mut self, now: LocalTime, dt: LocalDt) -> (residual: GameDt)
        requires
            old(self).wf(),
            in_time_range(now@),
            0 <= dt@ <= 0x20_0000_0000_0000,
        ensures
            final(self).wf(),
            residual@ == old(self).target(now@) - old(self).playback(),
            final(self).playback() == if old(self).playback() + dt@ * warp_numerator(residual@)
                / 1024 <= old(self).ceiling() {
                old(self).playback() + dt@ * warp_numerator(residual@) / 1024
            } else {
                old(self).ceiling()
            },
            old(self).playback() <= old(self).ceiling() ==> final(self).playback() >= old(
                self,
            ).playback(),
            final(self).playback() <= old(self).ceiling(),
            final(self).samples() == old(self).samples(),
            final(self).delay() == old(self).delay(),
            final(self).max_overtake() == old(self).max_overtake(),
            final(self).max_sample_age() == old(self).max_sample_age(),
    {
        proof {
            if self.samples().len() >= 2 {
                crate::time::stream::lemma_residual_sum_bound(self.samples());
                crate::time::stream::lemma_div_bound(
                    crate::time::stream::residual_sum(self.samples()),
                    self.samples().len() as int,
                    0x40_0000_0000_0000,
                );
            }
        }
        let stream_now = self.stream_time(now);
        let target_time = stream_now.sub(self.params.delay);
        let residual = target_time.sub_time(self.playback_time);

        let max_stream = self.max_received_stream_time();
        let ceiling_wide: i128 = (max_stream as i128) + (self.params.max_overtake.to_micros()
            as i128);

        let warp_num = time_warp(residual);
        proof {
            assert(0 <= dt@ * (warp_num as int) <= 0x20_0000_0000_0000int * 2048)
                by (nonlinear_arith)
                requires
                    0 <= dt@ <= 0x20_0000_0000_0000,
                    512 <= warp_num as int <= 2048,
            ;
            lemma_div_is_ordered(0, dt@ * (warp_num as int), 1024);
            lemma_div_is_ordered(dt@ * (warp_num as int), 0x20_0000_0000_0000int * 2048, 1024);
        }
        let step_wide: i128 = ((dt.to_micros() as i128) * (warp_num as i128)) / 1024;
        assert(0 <= step_wide as int <= 0x40_0000_0000_0000);
        assert(step_wide as int == dt@ * warp_numerator(residual@) / 1024);
        let candidate_wide: i128 = (self.playback_time.to_micros() as i128) + step_wide;
        let new_playback_wide: i128 = if candidate_wide <= ceiling_wide {
            candidate_wide
        } else {
            ceiling_wide
        };
        assert(-0x40_0000_0000_0000 <= new_playback_wide as int <= 0x40_0000_0000_0000);
        self.playback_time = GameTime::from_micros(new_playback_wide as i64);

        residual
    }

    /// The newest received stream time in the sample window, in
    /// microseconds; zero for an empty window.
    fn max_received_stream_time(&self) -> (r: i64)
        requires
            self.wf(),
        ensures
            r as int == max_stream_time(self.samples()),
            -0x20_0000_0000_0000 <= r as int <= 0x20_0000_0000_0000,
    {
        let ghost full = self.samples();
        let n = self.stream_samples.len();
        if n == 0 {
            return 0;
        }
        assert(entry_in_range(full[0]));
        let mut best = self.stream_samples.get(0).1.to_micros();
        let mut i: usize = 1;
        assert(full.subrange(0, 1).len() == 1);
        assert(full.subrange(0, 1).last() == full[0]);
        assert(best as int == max_stream_time(full.subrange(0, 1)));
        while i < n
            invariant
                1 <= i <= n,
                n == full.len(),
                entries_in_range(full),
                self.samples() == full,
                best as int == max_stream_time(full.subrange(0, i as int)),
                -0x20_0000_0000_0000 <= best as int <= 0x20_0000_0000_0000,
            decreases n - i,
        {
            assert(entry_in_range(full[i as int]));
            let value = self.stream_samples.get(i).1.to_micros();
            proof {
                let prefix = full.subrange(0, i + 1);
                assert(prefix.drop_last() =~= full.subrange(0, i as int));
                assert(prefix.last() == full[i as int]);
            }
            if value > best {
                best = value;
            }
            i = i + 1;
        }
        assert(full.subrange(0, n as int) =~= full);
        best
    }
}

} // verus!
