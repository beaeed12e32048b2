//! A dejitter buffer for streams keyed by dense monotone tick numbers, such
//! as a client-to-server input stream.
//!
//! Arriving values are held back until the predicted stream tick (delayed by
//! a configured span) has caught up with them, so the consumer sees ticks in
//! strictly increasing order, never drawn from the future and never replayed
//! from the past.

use vstd::prelude::*;

use crate::tick::num::{TICK_NUM_LIMIT, TickNum, TickTime};
use crate::time::samples::Samples;
use crate::time::stream::{
    entries_in_range, entry_in_range, lemma_filter_preserves_range, predict_stream_time,
    unit_slope_intercept,
};
use crate::time::{LocalDt, LocalTime, in_time_range};

verus! {

broadcast use TickNum::lemma_nonneg;

/// Whether a buffer holds an entry for tick number `n`.
pub open spec fn contains_num<T>(s: Seq<(TickNum, T)>, n: int) -> bool {
    exists|i: int| 0 <= i < s.len() && s[i].0@ == n
}

/// Whether a buffer is sorted by strictly descending tick number, so the
/// oldest queued tick sits at the end.
pub open spec fn sorted_by_num_desc<T>(s: Seq<(TickNum, T)>) -> bool {
    forall|i: int, j: int| 0 <= i < j < s.len() ==> s[i].0@ > s[j].0@
}

/// The tick number predicted to be current on the remote producer when the
/// delayed query instant is `now - delay`: the unit-slope prediction over
/// the sample window, taken down to a tick index at one tick per second.
/// Only meaningful for a window of at least two samples.
pub open spec fn predicted_tick(s: Seq<(LocalTime, TickTime)>, now: int, delay: int) -> int {
    let t = now - delay + unit_slope_intercept(s);
    if t < 0 {
        0
    } else {
        t / 1_000_000
    }
}

/// An ordered receive buffer for values keyed by tick number, gated on the
/// predicted stream tick.
#[derive(Debug, Clone)]
pub struct DejitterBuffer<T> {
    delay: LocalDt,
    time_samples: Samples<TickTime>,
    buffer: Vec<(TickNum, T)>,
    last_popped_num: Option<TickNum>,
}

impl<T> DejitterBuffer<T> {
    /// The configured gating delay, in microseconds.
    pub closed spec fn delay_spec(&self) -> int {
        self.delay@
    }

    /// The `(receive time, tick time)` sample window.
    pub closed spec fn samples(&self) -> Seq<(LocalTime, TickTime)> {
        self.time_samples@
    }

    /// The sample window's age bound, in microseconds.
    pub closed spec fn max_sample_age(&self) -> int {
        self.time_samples.max_age_spec()
    }

    /// The queued `(tick number, value)` entries, newest first.
    pub closed spec fn buffer_spec(&self) -> Seq<(TickNum, T)> {
        self.buffer@
    }

    /// The number of the most recently popped tick, if any.
    pub closed spec fn last_popped(&self) -> Option<TickNum> {
        self.last_popped_num
    }

    /// Well-formedness: the delay and samples are bounded, the buffer is
    /// sorted by strictly descending tick number, and every queued tick is
    /// newer than the last popped one.
    pub open spec fn wf(&self) -> bool {
        &&& in_time_range(self.delay_spec())
        &&& entries_in_range(self.samples())
        &&& sorted_by_num_desc(self.buffer_spec())
        &&& match self.last_popped() {
            Some(l) => forall|i: int|
                0 <= i < self.buffer_spec().len() ==> #[trigger] self.buffer_spec()[i].0@ > l@,
            None => true,
        }
    }

    /// An empty buffer gating on `delay`, with samples kept up to
    /// `max_sample_age` old.
    pub fn new(delay: LocalDt, max_sample_age: LocalDt) -> (r: Self)
        requires
            in_time_range(delay@),
        ensures
            r.wf(),
            r.delay_spec() == delay@,
            r.max_sample_age() == max_sample_age@,
            r.samples() == Seq::<(LocalTime, TickTime)>::empty(),
            r.buffer_spec() == Seq::<(TickNum, T)>::empty(),
            r.last_popped() is None,
    {
        DejitterBuffer {
            delay,
            time_samples: Samples::new(max_sample_age),
            buffer: Vec::new(),
            last_popped_num: None,
        }
    }

    /// The configured gating delay.
    pub fn delay(&self) -> (r: LocalDt)
        ensures
            r@ == self.delay_spec(),
    {
        self.delay
    }

    /// Change the gating delay.
    pub fn set_delay(&mut self, delay: LocalDt)
        requires
            old(self).wf(),
            in_time_range(delay@),
        ensures
            final(self).wf(),
            final(self).delay_spec() == delay@,
            final(self).samples() == old(self).samples(),
            final(self).buffer_spec() == old(self).buffer_spec(),
            final(self).last_popped() == old(self).last_popped(),
            final(self).max_sample_age() == old(self).max_sample_age(),
    {
        self.delay = delay;
    }

    /// The number of queued entries.
    pub fn len(&self) -> (r: usize)
        ensures
            r == self.buffer_spec().len(),
    {
        self.buffer.len()
    }

    /// Queue the value received for tick `receive_num` at local instant
    /// `receive_time`; `now` is the current local time.
    ///
    /// A tick at or before the last popped one is dropped outright.
    /// Otherwise the arrival is recorded in the sample window, and the value
    /// is queued unless an entry with the same tick number is already
    /// present.
    pub fn insert(&mut self, now: LocalTime, receive_time: LocalTime, receive_num: TickNum, value: T)
        requires
            old(self).wf(),
            in_time_range(receive_time@),
            receive_num@ <= TICK_NUM_LIMIT,
        ensures
            final(self).wf(),
            final(self).delay_spec() == old(self).delay_spec(),
            final(self).max_sample_age() == old(self).max_sample_age(),
            final(self).last_popped() == old(self).last_popped(),
            (match old(self).last_popped() {
                Some(l) => receive_num@ <= l@,
                None => false,
            }) ==> final(self).samples() == old(self).samples() && final(self).buffer_spec()
                == old(self).buffer_spec(),
            (match old(self).last_popped() {
                Some(l) => receive_num@ > l@,
                None => true,
            }) ==> {
                &&& final(self).samples() == old(self).samples().push(
                    (receive_time, TickTime::spec_from_micros((receive_num@ * 1_000_000) as i64)),
                ).filter(crate::time::samples::keeps(now@, old(self).max_sample_age()))
                &&& if contains_num(old(self).buffer_spec(), receive_num@) {
                    final(self).buffer_spec() == old(self).buffer_spec()
                } else {
                    exists|k: int|
                        0 <= k <= old(self).buffer_spec().len() && final(self).buffer_spec()
                            == old(self).buffer_spec().insert(k, (receive_num, value))
                }
            },
    {
        match self.last_popped_num {
            Some(l) => {
                if receive_num.le(l) {
                    return ;
                }
            },
            None => {},
        }

        let tick_time = receive_num.to_tick_time();
        self.time_samples.record(now, receive_time, tick_time);
        proof {
            let source = old(self).samples().push((receive_time, tick_time));
            let pred = crate::time::samples::keeps::<TickTime>(now@, old(self).max_sample_age());
            assert forall|i: int| 0 <= i < source.len() implies entry_in_range(
                #[trigger] source[i],
            ) by {
                if i < old(self).samples().len() {
                    assert(entry_in_range(old(self).samples()[i]));
                }
            }
            lemma_filter_preserves_range(source, pred);
        }

        let num_u = receive_num.to_u64();
        let mut idx: usize = 0;
        while idx < self.buffer.len() && num_u < self.buffer[idx].0.to_u64()
            invariant
                0 <= idx <= self.buffer_spec().len(),
                forall|i: int| 0 <= i < idx ==> #[trigger] self.buffer_spec()[i].0@ > num_u as int,
            decreases self.buffer_spec().len() - idx,
        {
            idx = idx + 1;
        }

        if idx < self.buffer.len() && num_u == self.buffer[idx].0.to_u64() {
            // A duplicate of an already queued tick is dropped.
            return ;
        }

        proof {
            let b = self.buffer_spec();
            let n = num_u as int;
            if contains_num(b, n) {
                let w = choose|i: int| 0 <= i < b.len() && b[i].0@ == n;
                if w < idx {
                    assert(b[w].0@ > n);
                } else if (idx as int) < b.len() {
                    if w > idx {
                        assert(b[idx as int].0@ > b[w].0@);
                    }
                }
                assert(false);
            }
        }
        let entry = (receive_num, value);
        self.buffer.insert(idx, entry);
        proof {
            let b = old(self).buffer_spec();
            let b2 = self.buffer_spec();
            let n = num_u as int;
            assert(b2 == b.insert(idx as int, entry));
            assert forall|i: int, j: int| 0 <= i < j < b2.len() implies b2[i].0@ > b2[j].0@ by {
                if i < idx && j < idx {
                    assert(b[i].0@ > b[j].0@);
                } else if i < idx && j == idx {
                    assert(b[i].0@ > n);
                } else if i < idx && j > idx {
                    assert(b[i].0@ > b[j - 1].0@);
                } else if i == idx {
                    assert(b[j - 1].0@ <= n);
                    assert(b[j - 1].0@ != n);
                } else {
                    assert(b[i - 1].0@ > b[j - 1].0@);
                }
            }
            match old(self).last_popped() {
                Some(l) => {
                    assert forall|i: int| 0 <= i < b2.len() implies #[trigger] b2[i].0@ > l@ by {
                        if i < idx {
                            assert(b[i].0@ > l@);
                        } else if i > idx {
                            assert(b[i - 1].0@ > l@);
                        }
                    }
                },
                None => {},
            }
        }
    }

    /// Pop the oldest queued tick if its time has come: with at least two
    /// samples recorded, and the oldest queued tick number at most the
    /// predicted stream tick as of `now` less the gating delay, the entry is
    /// removed and returned; otherwise nothing happens.
    ///
    /// Popped tick numbers are strictly increasing: a returned number always
    /// exceeds the previously popped one.
    pub fn pop(&mut self, now: LocalTime) -> (r: Option<(TickNum, T)>)
        requires
            old(self).wf(),
            in_time_range(now@),
        ensures
            final(self).wf(),
            final(self).delay_spec() == old(self).delay_spec(),
            final(self).max_sample_age() == old(self).max_sample_age(),
            final(self).samples() == old(self).samples(),
            r is Some <==> old(self).samples().len() >= 2 && old(self).buffer_spec().len() > 0
                && old(self).buffer_spec().last().0@ <= predicted_tick(
                old(self).samples(),
                now@,
                old(self).delay_spec(),
            ),
            r is None ==> final(self).buffer_spec() == old(self).buffer_spec()
                && final(self).last_popped() == old(self).last_popped(),
            r matches Some(e) ==> {
                &&& e == old(self).buffer_spec().last()
                &&& final(self).buffer_spec() == old(self).buffer_spec().drop_last()
                &&& final(self).last_popped() == Some(e.0)
                &&& match old(self).last_popped() {
                    Some(l) => e.0@ > l@,
                    None => true,
                }
            },
    {
        let delayed_time = now.sub(self.delay);
        let stream_num = match predict_stream_time(&self.time_samples, delayed_time) {
            Some(t) => Some(TickNum::from_tick_time(t)),
            None => None,
        };

        let n = self.buffer.len();
        if n == 0 {
            return None;
        }
        let ready = match stream_num {
            Some(sn) => self.buffer[n - 1].0.le(sn),
            None => false,
        };
        if !ready {
            return None;
        }

        let entry = self.buffer.pop().unwrap();
        proof {
            assert(entry == old(self).buffer_spec().last());
            let b = old(self).buffer_spec();
            assert forall|i: int|
                0 <= i < self.buffer_spec().len() implies #[trigger] self.buffer_spec()[i].0@
                > entry.0@ by {
                assert(b[i].0@ > b[b.len() - 1].0@);
            }
        }
        self.last_popped_num = Some(entry.0);
        Some(entry)
    }
}

} // verus!
