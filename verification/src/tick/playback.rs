//! Playback of received game-state ticks.
//!
//! Wraps a [`PlaybackClock`] and an ordered buffer of received ticks keyed
//! by game time. Each frame, the clock advances and every buffered tick
//! whose game time has been reached is popped, in order, as a *started*
//! tick; the last started tick becomes the current one, and the pair of
//! current and next tick gives an interpolation window.

use vstd::prelude::*;
use vstd::pervasive::cloned;

use crate::time::playback::{PlaybackClock, PlaybackClockParams, warp_numerator};
use crate::time::stream::div_floor_i128;
use crate::time::{GameDt, GameTime, LocalDt, LocalTime, in_time_range};

verus! {

/// Whether a tick buffer is sorted by strictly descending game time, so the
/// oldest tick sits at the end.
pub open spec fn sorted_by_time_desc<T>(s: Seq<(GameTime, T)>) -> bool {
    forall|i: int, j: int| 0 <= i < j < s.len() ==> s[i].0@ > s[j].0@
}

/// Whether a tick buffer holds an entry with game time `t`.
pub open spec fn contains_time<T>(s: Seq<(GameTime, T)>, t: int) -> bool {
    exists|i: int| 0 <= i < s.len() && s[i].0@ == t
}

/// Whether every game time in a tick buffer is within
/// [`crate::time::TIME_LIMIT_MICROS`].
pub open spec fn times_in_range<T>(s: Seq<(GameTime, T)>) -> bool {
    forall|i: int| 0 <= i < s.len() ==> in_time_range(#[trigger] s[i].0@)
}

/// What jump-ahead recovery leaves of a tick buffer: only the newest tick.
pub open spec fn recovery_ticks<T>(s: Seq<(GameTime, T)>) -> Seq<(GameTime, T)> {
    if s.len() <= 1 {
        s
    } else {
        s.subrange(0, 1)
    }
}

/// The interpolation fraction between the current and next tick, in
/// parts per thousand, clamped to the unit range.
pub open spec fn alpha_permille_spec(playback: int, current: int, next: int) -> int {
    let a = (playback - current) * 1000 / (next - current);
    if a < 0 {
        0
    } else if a > 1000 {
        1000
    } else {
        a
    }
}

/// Configuration of a [`TickPlayback`].
#[derive(Debug, Clone, Copy)]
pub struct TickPlaybackParams {
    /// Configuration of the wrapped playback clock.
    pub playback_clock_params: PlaybackClockParams,
    /// Largest residual tolerated before jump-ahead recovery.
    pub max_residual: GameDt,
}

impl TickPlaybackParams {
    /// Whether all configured spans are within
    /// [`crate::time::TIME_LIMIT_MICROS`].
    pub open spec fn wf(&self) -> bool {
        self.playback_clock_params.wf() && in_time_range(self.max_residual@)
    }
}

/// An interpolation window between the current tick and the next buffered
/// one.
#[derive(Debug, Clone, Copy)]
pub struct Interpolation<'a, T> {
    /// Game time of the current tick.
    pub current_time: GameTime,
    /// Value of the current tick.
    pub current_value: &'a T,
    /// Game time of the next buffered tick.
    pub next_time: GameTime,
    /// Value of the next buffered tick.
    pub next_value: &'a T,
    /// How far playback has progressed from the current tick towards the
    /// next one, in parts per thousand, clamped to the unit range.
    pub alpha_permille: i64,
}

/// A playback buffer of received game-state ticks, gated on a
/// [`PlaybackClock`].
#[derive(Debug, Clone)]
pub struct TickPlayback<T> {
    max_residual: GameDt,
    playback_clock: PlaybackClock,
    ticks: Vec<(GameTime, T)>,
    current_tick: Option<(GameTime, T)>,
}

impl<T> TickPlayback<T> {
    /// The wrapped playback clock.
    pub closed spec fn clock(&self) -> PlaybackClock {
        self.playback_clock
    }

    /// The buffered `(game time, value)` ticks, newest first.
    pub closed spec fn ticks_spec(&self) -> Seq<(GameTime, T)> {
        self.ticks@
    }

    /// The last started tick, if any.
    pub closed spec fn current_spec(&self) -> Option<(GameTime, T)> {
        self.current_tick
    }

    /// The largest tolerated residual, in microseconds.
    pub closed spec fn max_residual_spec(&self) -> int {
        self.max_residual@
    }

    /// Well-formedness: the clock and the residual bound are bounded, the
    /// buffer is sorted by strictly descending game time, and all held game
    /// times are bounded.
    pub open spec fn wf(&self) -> bool {
        &&& self.clock().wf()
        &&& in_time_range(self.max_residual_spec())
        &&& sorted_by_time_desc(self.ticks_spec())
        &&& times_in_range(self.ticks_spec())
        &&& match self.current_spec() {
            Some(c) => in_time_range(c.0@),
            None => true,
        }
    }

    /// An empty playback at game time zero.
    pub fn new(params: TickPlaybackParams) -> (r: Self)
        requires
            params.wf(),
        ensures
            r.wf(),
            r.clock().playback() == 0,
            r.clock().samples() == Seq::<(LocalTime, GameTime)>::empty(),
            r.clock().delay() == params.playback_clock_params.delay@,
            r.clock().max_overtake() == params.playback_clock_params.max_overtake@,
            r.clock().max_sample_age() == params.playback_clock_params.max_sample_age@,
            r.max_residual_spec() == params.max_residual@,
            r.ticks_spec() == Seq::<(GameTime, T)>::empty(),
            r.current_spec() is None,
    {
        TickPlayback {
            max_residual: params.max_residual,
            playback_clock: PlaybackClock::new(params.playback_clock_params),
            ticks: Vec::new(),
            current_tick: None,
        }
    }

    /// The wrapped playback clock.
    pub fn playback_clock(&self) -> (r: &PlaybackClock)
        ensures
            *r == self.clock(),
    {
        &self.playback_clock
    }

    /// The current playback time.
    pub fn playback_time(&self) -> (r: GameTime)
        ensures
            r@ == self.clock().playback(),
    {
        self.playback_clock.playback_time()
    }

    /// The playback clock's configuration.
    pub fn playback_clock_params(&self) -> (r: &PlaybackClockParams)
        ensures
            r.delay@ == self.clock().delay(),
            r.max_overtake@ == self.clock().max_overtake(),
            r.max_sample_age@ == self.clock().max_sample_age(),
    {
        self.playback_clock.params()
    }

    /// Replace the playback clock's configuration.
    pub fn set_playback_clock_params(&mut self, params: PlaybackClockParams)
        requires
            old(self).wf(),
            params.wf(),
        ensures
            final(self).wf(),
            final(self).clock().delay() == params.delay@,
            final(self).clock().max_overtake() == params.max_overtake@,
            final(self).clock().max_sample_age() == params.max_sample_age@,
            final(self).clock().samples() == old(self).clock().samples(),
            final(self).clock().playback() == old(self).clock().playback(),
            final(self).ticks_spec() == old(self).ticks_spec(),
            final(self).current_spec() == old(self).current_spec(),
            final(self).max_residual_spec() == old(self).max_residual_spec(),
    {
        self.playback_clock.set_params(params);
    }

    /// The largest tolerated residual.
    pub fn max_residual(&self) -> (r: GameDt)
        ensures
            r@ == self.max_residual_spec(),
    {
        self.max_residual
    }

    /// The last started tick, if any.
    pub fn current_tick(&self) -> (r: Option<(GameTime, &T)>)
        ensures
            match r {
                Some(e) => {
                    &&& self.current_spec() matches Some(c)
                    &&& e.0 == c.0
                    &&& *e.1 == c.1
                },
                None => self.current_spec() is None,
            },
    {
        match &self.current_tick {
            Some(c) => Some((c.0, &c.1)),
            None => None,
        }
    }

    /// The oldest buffered tick that has not started yet, if any.
    pub fn next_tick(&self) -> (r: Option<(GameTime, &T)>)
        ensures
            match r {
                Some(e) => self.ticks_spec().len() > 0 && e.0 == self.ticks_spec().last().0
                    && *e.1 == self.ticks_spec().last().1,
                None => self.ticks_spec().len() == 0,
            },
    {
        let n = self.ticks.len();
        if n == 0 {
            None
        } else {
            let e = &self.ticks[n - 1];
            Some((e.0, &e.1))
        }
    }

    /// The interpolation window between the current tick and the next
    /// buffered one, if both exist and the next tick lies strictly after the
    /// current one.
    pub fn interpolation(&self) -> (r: Option<Interpolation<'_, T>>)
        requires
            self.wf(),
        ensures
            r is Some <==> self.current_spec() is Some && self.ticks_spec().len() > 0
                && self.ticks_spec().last().0@ > self.current_spec()->Some_0.0@,
            r matches Some(w) ==> {
                &&& self.current_spec() matches Some(c)
                &&& w.current_time == c.0
                &&& *w.current_value == c.1
                &&& w.next_time == self.ticks_spec().last().0
                &&& *w.next_value == self.ticks_spec().last().1
                &&& w.alpha_permille as int == alpha_permille_spec(
                    self.clock().playback(),
                    c.0@,
                    self.ticks_spec().last().0@,
                )
            },
    {
        let current = match &self.current_tick {
            Some(c) => c,
            None => {
                return None;
            },
        };
        let n = self.ticks.len();
        if n == 0 {
            return None;
        }
        let next = &self.ticks[n - 1];
        if !current.0.lt(next.0) {
            return None;
        }

        let pb = self.playback_clock.playback_time().to_micros();
        let cur = current.0.to_micros();
        let nxt = next.0.to_micros();
        let num: i128 = ((pb as i128) - (cur as i128)) * 1000;
        let den: i128 = (nxt as i128) - (cur as i128);
        let a = div_floor_i128(num, den);
        let alpha_permille: i64 = if a < 0 {
            0
        } else if a > 1000 {
            1000
        } else {
            a as i64
        };
        Some(
            Interpolation {
                current_time: current.0,
                current_value: &current.1,
                next_time: next.0,
                next_value: &next.1,
                alpha_permille,
            },
        )
    }

    /// Record a tick carrying game time `receive_game_time`, received at
    /// local instant `receive_time`; `now` is the current local time.
    ///
    /// The arrival always feeds the playback clock's sample window. The tick
    /// itself is dropped when it lies in the past of the playback time, or
    /// when a tick with the same game time is already buffered; otherwise it
    /// is inserted in order.
    pub fn record_tick(
        &mut self,
        now: LocalTime,
        receive_time: LocalTime,
        receive_game_time: GameTime,
        value: T,
    )
        requires
            old(self).wf(),
            in_time_range(receive_time@),
            in_time_range(receive_game_time@),
        ensures
            final(self).wf(),
            final(self).clock().samples() == old(self).clock().samples().push(
                (receive_time, receive_game_time),
            ).filter(crate::time::samples::keeps(now@, old(self).clock().max_sample_age())),
            final(self).clock().playback() == old(self).clock().playback(),
            final(self).clock().delay() == old(self).clock().delay(),
            final(self).clock().max_overtake() == old(self).clock().max_overtake(),
            final(self).clock().max_sample_age() == old(self).clock().max_sample_age(),
            final(self).current_spec() == old(self).current_spec(),
            final(self).max_residual_spec() == old(self).max_residual_spec(),
            receive_game_time@ < old(self).clock().playback() ==> final(self).ticks_spec() == old(
                self,
            ).ticks_spec(),
            receive_game_time@ >= old(self).clock().playback() ==> if contains_time(
                old(self).ticks_spec(),
                receive_game_time@,
            ) {
                final(self).ticks_spec() == old(self).ticks_spec()
            } else {
                exists|k: int|
                    0 <= k <= old(self).ticks_spec().len() && final(self).ticks_spec() == old(
                        self,
                    ).ticks_spec().insert(k, (receive_game_time, value))
            },
    {
        self.playback_clock.record_stream_time(now, receive_time, receive_game_time);

        if receive_game_time.lt(self.playback_clock.playback_time()) {
            return ;
        }

        let t_micros = receive_game_time.to_micros();
        let mut idx: usize = 0;
        while idx < self.ticks.len() && t_micros < self.ticks[idx].0.to_micros()
            invariant
                0 <= idx <= self.ticks_spec().len(),
                forall|i: int|
                    0 <= i < idx ==> #[trigger] self.ticks_spec()[i].0@ > t_micros as int,
            decreases self.ticks_spec().len() - idx,
        {
            idx = idx + 1;
        }

        if idx < self.ticks.len() && t_micros == self.ticks[idx].0.to_micros() {
            // A duplicate of an already buffered tick is dropped.
            return ;
        }

        proof {
            let b = self.ticks_spec();
            let t = t_micros as int;
            if contains_time(b, t) {
                let w = choose|i: int| 0 <= i < b.len() && b[i].0@ == t;
                if w < idx {
                    assert(b[w].0@ > t);
                } else if (idx as int) < b.len() {
                    if w > idx {
                        assert(b[idx as int].0@ > b[w].0@);
                    }
                }
                assert(false);
            }
        }
        let entry = (receive_game_time, value);
        self.ticks.insert(idx, entry);
        proof {
            let b = old(self).ticks_spec();
            let b2 = self.ticks_spec();
            let t = t_micros as int;
            assert(b2 == b.insert(idx as int, entry));
            assert forall|i: int, j: int| 0 <= i < j < b2.len() implies b2[i].0@ > b2[j].0@ by {
                if i < idx && j < idx {
                    assert(b[i].0@ > b[j].0@);
                } else if i < idx && j == idx {
                    assert(b[i].0@ > t);
                } else if i < idx && j > idx {
                    assert(b[i].0@ > b[j - 1].0@);
                } else if i == idx {
                    assert(b[j - 1].0@ <= t);
                    assert(b[j - 1].0@ != t);
                } else {
                    assert(b[i - 1].0@ > b[j - 1].0@);
                }
            }
            assert forall|i: int| 0 <= i < b2.len() implies in_time_range(
                #[trigger] b2[i].0@,
            ) by {
                if i < idx {
                    assert(in_time_range(b[i].0@));
                } else if i > idx {
                    assert(in_time_range(b[i - 1].0@));
                }
            }
        }
    }
}

impl<T: Clone> TickPlayback<T> {
    /// Advance playback by the frame span `dt` and return the started ticks,
    /// oldest first; `now` is the current local time.
    ///
    /// The playback clock advances first. If its residual exceeds the
    /// tolerated maximum, playback has fallen hopelessly behind (a hidden
    /// tab, a clamped frame delta): the clock jumps to the newest buffered
    /// tick's game time and all older buffered ticks are dropped. Then every
    /// buffered tick whose game time is at or before the playback time is
    /// popped in order; the returned values are clones of the popped ones,
    /// and the last popped tick becomes the current tick.
    pub fn advance(&mut self, now: LocalTime, dt: LocalDt) -> (started: Vec<(GameTime, T)>)
        requires
            old(self).wf(),
            in_time_range(now@),
            0 <= dt@ <= 0x20_0000_0000_0000,
        ensures
            final(self).wf(),
            final(self).max_residual_spec() == old(self).max_residual_spec(),
            final(self).clock().samples() == old(self).clock().samples(),
            final(self).clock().delay() == old(self).clock().delay(),
            final(self).clock().max_overtake() == old(self).clock().max_overtake(),
            final(self).clock().max_sample_age() == old(self).clock().max_sample_age(),
            ({
                let c0 = old(self).clock();
                let residual = c0.target(now@) - c0.playback();
                let stepped = c0.playback() + dt@ * warp_numerator(residual) / 1024;
                let pb1 = if stepped <= c0.ceiling() {
                    stepped
                } else {
                    c0.ceiling()
                };
                let recovered = residual > old(self).max_residual_spec();
                let mid_pb = if recovered && old(self).ticks_spec().len() > 0 {
                    old(self).ticks_spec()[0].0@
                } else {
                    pb1
                };
                let mid = if recovered {
                    recovery_ticks(old(self).ticks_spec())
                } else {
                    old(self).ticks_spec()
                };
                let k = mid.len() - started@.len();
                &&& final(self).clock().playback() == mid_pb
                &&& started@.len() <= mid.len()
                &&& final(self).ticks_spec() == mid.subrange(0, k)
                &&& forall|i: int| 0 <= i < k ==> #[trigger] mid[i].0@ > mid_pb
                &&& forall|i: int| k <= i < mid.len() ==> #[trigger] mid[i].0@ <= mid_pb
                &&& forall|j: int|
                    0 <= j < started@.len() ==> #[trigger] started@[j].0 == mid[mid.len() - 1
                        - j].0 && cloned(mid[mid.len() - 1 - j].1, started@[j].1)
                &&& final(self).current_spec() == if k < mid.len() {
                    Some(mid[k])
                } else {
                    old(self).current_spec()
                }
            }),
    {
        let residual = self.playback_clock.advance(now, dt);

        if self.max_residual.lt(residual) {
            // Playback has trailed too far behind the tick stream, for
            // example after a large jump of the local clock whose frame
            // delta was clamped. Jump to the newest received tick and keep
            // only that tick buffered.
            if self.ticks.len() > 0 {
                let newest_time = self.ticks[0].0;
                assert(in_time_range(self.ticks_spec()[0].0@));
                self.playback_clock.set_playback_time(newest_time);
            }
            self.ticks.truncate(1);
            assert(self.ticks@ =~= recovery_ticks(old(self).ticks_spec()));
        }

        let ghost mid = self.ticks_spec();
        let ghost mid_pb = self.clock().playback();
        let ghost clock_snapshot = self.playback_clock;
        let ghost current0 = self.current_spec();
        proof {
            assert(sorted_by_time_desc(mid));
            assert(times_in_range(mid));
        }

        let pb_now = self.playback_clock.playback_time();
        let mut started: Vec<(GameTime, T)> = Vec::new();
        while self.ticks.len() > 0 && self.ticks[self.ticks.len() - 1].0.le(pb_now)
            invariant
                pb_now@ == mid_pb,
                self.playback_clock == clock_snapshot,
                self.max_residual == old(self).max_residual,
                started@.len() <= mid.len(),
                self.ticks@ == mid.subrange(0, mid.len() - started@.len()),
                forall|j: int|
                    0 <= j < started@.len() ==> #[trigger] started@[j].0 == mid[mid.len() - 1
                        - j].0 && cloned(mid[mid.len() - 1 - j].1, started@[j].1),
                forall|i: int|
                    mid.len() - started@.len() <= i < mid.len() ==> #[trigger] mid[i].0@ <= mid_pb,
                self.current_spec() == if started@.len() > 0 {
                    Some(mid[mid.len() - started@.len()])
                } else {
                    current0
                },
                sorted_by_time_desc(mid),
                times_in_range(mid),
            decreases self.ticks@.len(),
        {
            let e = self.ticks.pop().unwrap();
            proof {
                assert(e == mid[mid.len() - started@.len() - 1]);
                assert(self.ticks@ =~= mid.subrange(0, mid.len() - started@.len() - 1));
            }
            let (t, v) = e;
            let cv = v.clone();
            started.push((t, cv));
            self.current_tick = Some((t, v));
        }

        proof {
            let k = mid.len() - started@.len();
            assert(self.ticks_spec() =~= mid.subrange(0, k));
            if self.ticks@.len() > 0 {
                assert(self.ticks@[self.ticks@.len() - 1].0@ > mid_pb);
                assert forall|i: int| 0 <= i < k implies #[trigger] mid[i].0@ > mid_pb by {
                    if i < k - 1 {
                        assert(mid[i].0@ > mid[k - 1].0@);
                    }
                }
            }

            let c0 = old(self).clock();
            let residual_s = c0.target(now@) - c0.playback();
            let stepped = c0.playback() + dt@ * warp_numerator(residual_s) / 1024;
            let pb1 = if stepped <= c0.ceiling() {
                stepped
            } else {
                c0.ceiling()
            };
            let recovered = residual_s > old(self).max_residual_spec();
            let mid_e = if recovered {
                recovery_ticks(old(self).ticks_spec())
            } else {
                old(self).ticks_spec()
            };
            let mid_pb_e = if recovered && old(self).ticks_spec().len() > 0 {
                old(self).ticks_spec()[0].0@
            } else {
                pb1
            };
            assert(mid_e == mid);
            assert(mid_pb_e == mid_pb);
            assert(self.ticks_spec() =~= mid_e.subrange(0, k));
            assert(self.current_spec() == if k < mid_e.len() {
                Some(mid_e[k])
            } else {
                old(self).current_spec()
            });
        }

        started
    }
}

} // verus!
