//! A single simulated network channel with latency, jitter, and loss.

use vstd::prelude::*;

use rand::rngs::StdRng;

use crate::mock::rng_next_u32;
use crate::time::stream::{div_floor_i128, lemma_div_bound};
use crate::time::{LocalDt, LocalTime, in_time_range};

verus! {

/// Largest configurable mean latency or jitter deviation, in microseconds
/// (about seventeen years), chosen so a worst-case draw stays far within
/// [`crate::time::TIME_LIMIT_MICROS`].
pub const LATENCY_LIMIT_MICROS: i64 = 0x2_0000_0000_0000;

/// Parameters of a simulated channel.
#[derive(Debug, Clone, Copy)]
pub struct MockChannelParams {
    /// Mean one-way latency.
    pub latency_mean: LocalDt,
    /// Standard deviation of the latency jitter.
    pub latency_std_dev: LocalDt,
    /// Fraction of messages lost, in parts per million.
    pub loss_ppm: u32,
}

/// The cutoff under which a uniform 32-bit loss draw means the message is
/// dropped: the loss fraction scaled to the 32-bit range.
pub open spec fn loss_threshold(loss_ppm: int) -> int {
    (loss_ppm * 0x1_0000_0000) / 1_000_000
}

/// The latency produced by a noise draw: the mean plus the standard
/// deviation scaled by the draw's deviation from its midpoint, clamped to be
/// nonnegative. The noise is the sum of twelve uniform 32-bit words, whose
/// midpoint is six times two to the thirty-second and whose standard
/// deviation is one such word's range, so the result approximates a normal
/// distribution with the configured mean and deviation.
pub open spec fn drawn_latency(mean: int, std_dev: int, noise_sum: int) -> int {
    let scaled = std_dev * (noise_sum - 0x6_0000_0000) / 0x1_0000_0000;
    if mean + scaled < 0 {
        0
    } else {
        mean + scaled
    }
}

impl MockChannelParams {
    /// Well-formedness: latency parameters are nonnegative and bounded, and
    /// the loss fraction is at most one.
    pub open spec fn wf(&self) -> bool {
        &&& 0 <= self.latency_mean@ <= LATENCY_LIMIT_MICROS
        &&& 0 <= self.latency_std_dev@ <= LATENCY_LIMIT_MICROS
        &&& self.loss_ppm <= 1_000_000
    }

    /// A perfect link: no latency, no jitter, no loss.
    pub fn perfect() -> (r: Self)
        ensures
            r.wf(),
            r.latency_mean@ == 0,
            r.latency_std_dev@ == 0,
            r.loss_ppm == 0,
    {
        MockChannelParams {
            latency_mean: LocalDt::zero(),
            latency_std_dev: LocalDt::zero(),
            loss_ppm: 0,
        }
    }

    /// The outcome of one send, as a function of the two random draws: a
    /// loss draw under the loss threshold drops the message, any other draw
    /// delays it by the latency determined by the noise sum.
    ///
    /// This function is deterministic; [`MockChannelParams::sample_residual`]
    /// feeds it fresh draws.
    pub fn channel_outcome(&self, loss_draw: u32, noise_sum: u64) -> (r: Option<LocalDt>)
        requires
            self.wf(),
            noise_sum <= 0xC_0000_0000,
        ensures
            r is None <==> (loss_draw as int) < loss_threshold(self.loss_ppm as int),
            r matches Some(d) ==> {
                &&& d@ == drawn_latency(self.latency_mean@, self.latency_std_dev@, noise_sum as int)
                &&& 0 <= d@ <= self.latency_mean@ + 6 * self.latency_std_dev@
            },
    {
        let threshold: u64 = ((self.loss_ppm as u64) * 0x1_0000_0000u64) / 1_000_000;
        if (loss_draw as u64) < threshold {
            return None;
        }

        let std_dev = self.latency_std_dev.to_micros();
        let deviation: i128 = (noise_sum as i128) - 0x6_0000_0000;
        proof {
            assert(-(0x1_0000_0000int * (6 * self.latency_std_dev@)) <= self.latency_std_dev@ * (
            noise_sum as int - 0x6_0000_0000) <= 0x1_0000_0000int * (6 * self.latency_std_dev@))
                by (nonlinear_arith)
                requires
                    0 <= self.latency_std_dev@,
                    -0x6_0000_0000 <= noise_sum as int - 0x6_0000_0000 <= 0x6_0000_0000,
            ;
        }
        let scaled = div_floor_i128((std_dev as i128) * deviation, 0x1_0000_0000);
        proof {
            lemma_div_bound(
                self.latency_std_dev@ * (noise_sum as int - 0x6_0000_0000),
                0x1_0000_0000,
                6 * self.latency_std_dev@,
            );
        }
        let total: i128 = (self.latency_mean.to_micros() as i128) + scaled;
        if total < 0 {
            Some(LocalDt::zero())
        } else {
            Some(LocalDt::from_micros(total as i64))
        }
    }

    /// Draw one send outcome from the generator: `None` when the message is
    /// lost, otherwise a nonnegative latency of at most the mean plus six
    /// deviations. Loss and latency are independent draws; on a lossless
    /// channel no draw can drop the message, so the outcome is always a
    /// latency.
    pub fn sample_residual(&self, rng: &mut StdRng) -> (r: Option<LocalDt>)
        requires
            self.wf(),
        ensures
            r matches Some(d) ==> 0 <= d@ <= self.latency_mean@ + 6 * self.latency_std_dev@,
            self.loss_ppm == 0 ==> r is Some,
    {
        let loss_draw = rng_next_u32(rng);
        let mut noise_sum: u64 = 0;
        let mut i: usize = 0;
        while i < 12
            invariant
                0 <= i <= 12,
                noise_sum <= (i as int) * 0xFFFF_FFFF,
            decreases 12 - i,
        {
            let word = rng_next_u32(rng);
            noise_sum = noise_sum + (word as u64);
            i = i + 1;
        }
        let r = self.channel_outcome(loss_draw, noise_sum);
        proof {
            if self.loss_ppm == 0 {
                assert(loss_threshold(0) == 0);
            }
        }
        r
    }
}

/// How many messages at the back of a transit queue have arrived by `now`:
/// the length of the maximal suffix of entries with arrival at or before
/// `now`.
pub open spec fn ready_count<T>(s: Seq<(LocalTime, T)>, now: int) -> int
    decreases s.len(),
{
    if s.len() == 0 || s.last().0@ > now {
        0
    } else {
        1 + ready_count(s.drop_last(), now)
    }
}

/// Whether a transit queue is sorted by non-increasing arrival time, so the
/// earliest arrival sits at the end.
pub open spec fn sorted_by_arrival_desc<T>(s: Seq<(LocalTime, T)>) -> bool {
    forall|i: int, j: int| 0 <= i < j < s.len() ==> s[i].0@ >= s[j].0@
}

/// On a sorted queue whose last `m` entries arrive at or before `now` and
/// whose entry just before them (if any) does not, the ready count is
/// exactly `m`.
pub proof fn lemma_ready_count_split<T>(s: Seq<(LocalTime, T)>, now: int, m: int)
    requires
        0 <= m <= s.len(),
        forall|i: int| s.len() - m <= i < s.len() ==> #[trigger] s[i].0@ <= now,
        s.len() - m > 0 ==> s[s.len() - m - 1].0@ > now,
    ensures
        ready_count(s, now) == m,
    decreases s.len(),
{
    if s.len() == 0 {
    } else if m == 0 {
        assert(s.last().0@ > now);
    } else {
        assert(s.last().0@ <= now);
        lemma_ready_count_split(s.drop_last(), now, m - 1);
    }
}

/// Whether `post` is `pre` with one message inserted in arrival order, whose
/// arrival lies between `now` and `now` plus the worst-case latency of
/// `params`.
pub open spec fn sent_within<T>(
    pre: Seq<(LocalTime, T)>,
    post: Seq<(LocalTime, T)>,
    now: int,
    params: MockChannelParams,
    message: T,
) -> bool {
    exists|k: int, at: LocalTime|
        #![trigger pre.insert(k, (at, message))]
        {
            &&& 0 <= k <= pre.len()
            &&& now <= at@ <= now + params.latency_mean@ + 6 * params.latency_std_dev@
            &&& post == pre.insert(k, (at, message))
        }
}

/// A simulated one-directional channel: messages in transit, keyed by their
/// arrival time.
#[derive(Debug, Clone)]
pub struct MockChannel<T> {
    messages_in_transit: Vec<(LocalTime, T)>,
}

impl<T> MockChannel<T> {
    /// The messages in transit with their arrival times, latest arrival
    /// first.
    pub closed spec fn transit(&self) -> Seq<(LocalTime, T)> {
        self.messages_in_transit@
    }

    /// Well-formedness: transit is sorted by non-increasing arrival time.
    pub open spec fn wf(&self) -> bool {
        sorted_by_arrival_desc(self.transit())
    }

    /// An empty channel.
    pub fn new() -> (r: Self)
        ensures
            r.wf(),
            r.transit() == Seq::<(LocalTime, T)>::empty(),
    {
        MockChannel { messages_in_transit: Vec::new() }
    }

    /// The number of messages in transit.
    pub fn len(&self) -> (r: usize)
        ensures
            r == self.transit().len(),
    {
        self.messages_in_transit.len()
    }

    /// Place a message in transit with the given arrival time, keeping the
    /// queue ordered; among equal arrival times, earlier sends come out
    /// first.
    fn enqueue(&mut self, arrival_time: LocalTime, message: T) -> (pos: usize)
        requires
            old(self).wf(),
        ensures
            final(self).wf(),
            pos <= old(self).transit().len(),
            final(self).transit() == old(self).transit().insert(
                pos as int,
                (arrival_time, message),
            ),
    {
        let arrival_micros = arrival_time.to_micros();
        let mut idx: usize = 0;
        while idx < self.messages_in_transit.len() && arrival_micros
            < self.messages_in_transit[idx].0.to_micros()
            invariant
                0 <= idx <= self.transit().len(),
                forall|i: int|
                    0 <= i < idx ==> #[trigger] self.transit()[i].0@ > arrival_micros as int,
            decreases self.transit().len() - idx,
        {
            idx = idx + 1;
        }
        let ghost b = self.transit();
        self.messages_in_transit.insert(idx, (arrival_time, message));
        proof {
            let b2 = self.transit();
            assert forall|i: int, j: int| 0 <= i < j < b2.len() implies b2[i].0@ >= b2[j].0@ by {
                if i < idx && j < idx {
                    assert(b[i].0@ >= b[j].0@);
                } else if i < idx && j == idx {
                    assert(b[i].0@ > arrival_micros as int);
                } else if i < idx && j > idx {
                    assert(b[i].0@ >= b[j - 1].0@);
                } else if i == idx {
                    assert(b[j - 1].0@ <= arrival_micros as int);
                } else {
                    assert(b[i - 1].0@ >= b[j - 1].0@);
                }
            }
        }
        idx
    }

    /// Send a message at local instant `now`: by the channel's loss fraction
    /// it vanishes, otherwise it is placed in transit with an arrival drawn
    /// from the channel's latency distribution (never before `now`). On a
    /// lossless channel the message is always placed in transit.
    pub fn send(&mut self, now: LocalTime, params: &MockChannelParams, rng: &mut StdRng, message: T)
        requires
            old(self).wf(),
            params.wf(),
            in_time_range(now@),
        ensures
            final(self).wf(),
            final(self).transit() == old(self).transit() || sent_within(
                old(self).transit(),
                final(self).transit(),
                now@,
                *params,
                message,
            ),
            params.loss_ppm == 0 ==> sent_within(
                old(self).transit(),
                final(self).transit(),
                now@,
                *params,
                message,
            ),
    {
        match params.sample_residual(rng) {
            Some(residual) => {
                let arrival_time = now.add(residual);
                let ghost pre = self.transit();
                let pos = self.enqueue(arrival_time, message);
                proof {
                    assert(self.transit() == pre.insert(pos as int, (arrival_time, message)));
                    assert(sent_within(pre, self.transit(), now@, *params, message));
                }
            },
            None => {},
        }
    }

    /// Receive the earliest message whose arrival time has been reached (it
    /// is at or before `now`), if any.
    pub fn receive(&mut self, now: LocalTime) -> (r: Option<(LocalTime, T)>)
        requires
            old(self).wf(),
        ensures
            final(self).wf(),
            r is Some <==> old(self).transit().len() > 0 && old(self).transit().last().0@ <= now@,
            r matches Some(e) ==> e == old(self).transit().last() && final(self).transit() == old(
                self,
            ).transit().drop_last(),
            r is None ==> final(self).transit() == old(self).transit(),
    {
        let n = self.messages_in_transit.len();
        if n == 0 {
            return None;
        }
        if self.messages_in_transit[n - 1].0.le(now) {
            let e = self.messages_in_transit.pop().unwrap();
            Some(e)
        } else {
            None
        }
    }

    /// Receive every message whose arrival time is at or before `now`, in
    /// arrival order.
    pub(crate) fn drain_ready(&mut self, now: LocalTime) -> (r: Vec<(LocalTime, T)>)
        requires
            old(self).wf(),
        ensures
            final(self).wf(),
            r@.len() == ready_count(old(self).transit(), now@),
            final(self).transit() == old(self).transit().subrange(
                0,
                old(self).transit().len() - r@.len(),
            ),
            forall|j: int|
                0 <= j < r@.len() ==> #[trigger] r@[j] == old(self).transit()[old(
                    self,
                ).transit().len() - 1 - j] && r@[j].0@ <= now@,
    {
        let ghost ch0 = self.transit();
        let mut taken: Vec<(LocalTime, T)> = Vec::new();
        while self.messages_in_transit.len() > 0 && self.messages_in_transit[
            self.messages_in_transit.len() - 1].0.le(now)
            invariant
                taken@.len() <= ch0.len(),
                self.transit() == ch0.subrange(0, ch0.len() - taken@.len()),
                sorted_by_arrival_desc(ch0),
                forall|j: int|
                    0 <= j < taken@.len() ==> #[trigger] taken@[j] == ch0[ch0.len() - 1 - j]
                        && taken@[j].0@ <= now@,
            decreases self.transit().len(),
        {
            let e = self.messages_in_transit.pop().unwrap();
            proof {
                assert(e == ch0[ch0.len() - taken@.len() - 1]);
                assert(self.transit() =~= ch0.subrange(0, ch0.len() - taken@.len() - 1));
            }
            taken.push(e);
        }
        proof {
            let m = taken@.len() as int;
            assert forall|i: int| ch0.len() - m <= i < ch0.len() implies #[trigger] ch0[i].0@
                <= now@ by {
                assert(taken@[ch0.len() - 1 - i] == ch0[i]);
                assert(taken@[ch0.len() - 1 - i].0@ <= now@);
            }
            if ch0.len() - m > 0 {
                assert(self.transit()[ch0.len() - m - 1] == ch0[ch0.len() - m - 1]);
            }
            lemma_ready_count_split(ch0, now@, m);
        }
        taken
    }
}

} // verus!
