//! An online mapping between two timelines, fitted from evidence pairs.
//!
//! The mapping keeps a bounded ring of `(source time, target time)` evidence
//! and fits the line `target = source + intercept`: the slope is fixed at
//! one, since both timelines advance at one second per second and any
//! apparent drift is jitter rather than clock skew. The intercept is the
//! mean residual over the evidence, optionally smoothed by an exponential
//! moving average across refits.

use vstd::prelude::*;

use crate::time::stream::{
    div_floor_i128, entries_in_range, entry_in_range, lemma_div_bound, lemma_residual_sum_bound,
    residual_sum, unit_slope_intercept,
};
use crate::time::{Time, in_time_range};

verus! {

/// Configuration of a [`TimeMapping`].
#[derive(Debug, Clone, Copy)]
pub struct TimeMappingConfig {
    /// How many evidence pairs are kept; the oldest is evicted beyond this.
    pub max_evidence_len: usize,
    /// When set, evidence that does not strictly advance both timelines
    /// beyond the newest kept pair is dropped.
    pub ignore_if_out_of_order: bool,
    /// Smoothing weight of a refit intercept, in parts per thousand (from
    /// one to one thousand); `None` disables smoothing.
    pub ema_alpha_permille: Option<u16>,
}

impl TimeMappingConfig {
    /// Whether the smoothing weight, if any, lies in its unit range.
    pub open spec fn wf(&self) -> bool {
        match self.ema_alpha_permille {
            Some(a) => 1 <= a <= 1000,
            None => true,
        }
    }
}

/// What recording one evidence pair leaves of the ring: an out-of-order
/// pair may be dropped, and the ring is trimmed to its configured bound.
pub open spec fn record_step<SrcTag, TgtTag>(
    config: TimeMappingConfig,
    evidence: Seq<(Time<SrcTag>, Time<TgtTag>)>,
    pair: (Time<SrcTag>, Time<TgtTag>),
) -> Seq<(Time<SrcTag>, Time<TgtTag>)> {
    if config.ignore_if_out_of_order && evidence.len() > 0 && !(pair.0@ > evidence.last().0@
        && pair.1@ > evidence.last().1@) {
        evidence
    } else {
        let pushed = evidence.push(pair);
        if pushed.len() > config.max_evidence_len {
            pushed.subrange(1, pushed.len() as int)
        } else {
            pushed
        }
    }
}

/// The ring left by recording a whole sequence of evidence pairs in order.
pub open spec fn record_all<SrcTag, TgtTag>(
    config: TimeMappingConfig,
    pairs: Seq<(Time<SrcTag>, Time<TgtTag>)>,
) -> Seq<(Time<SrcTag>, Time<TgtTag>)>
    decreases pairs.len(),
{
    if pairs.len() == 0 {
        Seq::empty()
    } else {
        record_step(config, record_all(config, pairs.drop_last()), pairs.last())
    }
}

/// The intercept after a refit: the mean residual of the evidence, blended
/// with the previous intercept when smoothing is on.
pub open spec fn refit_intercept<SrcTag, TgtTag>(
    config: TimeMappingConfig,
    evidence: Seq<(Time<SrcTag>, Time<TgtTag>)>,
    previous: Option<int>,
) -> int {
    let fit = unit_slope_intercept(evidence);
    match (config.ema_alpha_permille, previous) {
        (Some(a), Some(prev)) => (a * fit + (1000 - a) * prev) / 1000,
        _ => fit,
    }
}

/// An online estimator of the relation between a source timeline and a
/// target timeline, as a unit-slope line through recent evidence.
#[derive(Debug, Clone)]
pub struct TimeMapping<SrcTag, TgtTag> {
    config: TimeMappingConfig,
    evidence: Vec<(Time<SrcTag>, Time<TgtTag>)>,
    intercept: Option<i64>,
}

impl<SrcTag, TgtTag> TimeMapping<SrcTag, TgtTag> {
    /// The configuration.
    pub closed spec fn config_spec(&self) -> TimeMappingConfig {
        self.config
    }

    /// The kept evidence pairs, oldest first.
    pub closed spec fn evidence_spec(&self) -> Seq<(Time<SrcTag>, Time<TgtTag>)> {
        self.evidence@
    }

    /// The fitted intercept, in microseconds, if a fit has been made.
    pub closed spec fn intercept_spec(&self) -> Option<int> {
        match self.intercept {
            Some(c) => Some(c as int),
            None => None,
        }
    }

    /// Well-formedness: the configuration is sane, the ring is within its
    /// bound with all entries bounded, and any fitted intercept is bounded.
    pub open spec fn wf(&self) -> bool {
        &&& self.config_spec().wf()
        &&& self.evidence_spec().len() <= self.config_spec().max_evidence_len
        &&& entries_in_range(self.evidence_spec())
        &&& match self.intercept_spec() {
            Some(c) => -0x40_0000_0000_0000 <= c <= 0x40_0000_0000_0000,
            None => true,
        }
    }

    /// An empty mapping: no evidence, no fit.
    pub fn new(config: TimeMappingConfig) -> (r: Self)
        requires
            config.wf(),
        ensures
            r.wf(),
            r.config_spec() == config,
            r.evidence_spec() == Seq::<(Time<SrcTag>, Time<TgtTag>)>::empty(),
            r.intercept_spec() is None,
    {
        TimeMapping { config, evidence: Vec::new(), intercept: None }
    }

    /// A mapping seeded by recording the given evidence pairs in order.
    /// No fit is made; call [`TimeMapping::update`] for that.
    pub fn from_evidence(config: TimeMappingConfig, pairs: Vec<(Time<SrcTag>, Time<TgtTag>)>) -> (r:
        Self)
        requires
            config.wf(),
            entries_in_range(pairs@),
        ensures
            r.wf(),
            r.config_spec() == config,
            r.evidence_spec() == record_all(config, pairs@),
            r.intercept_spec() is None,
    {
        let ghost all = pairs@;
        let mut mapping = TimeMapping::new(config);
        let n = pairs.len();
        let mut i: usize = 0;
        assert(all.subrange(0, 0) =~= Seq::<(Time<SrcTag>, Time<TgtTag>)>::empty());
        while i < n
            invariant
                0 <= i <= n,
                n == all.len(),
                pairs@ == all,
                entries_in_range(all),
                config.wf(),
                mapping.wf(),
                mapping.config_spec() == config,
                mapping.intercept_spec() is None,
                mapping.evidence_spec() == record_all(config, all.subrange(0, i as int)),
            decreases n - i,
        {
            let pair = pairs[i];
            proof {
                assert(entry_in_range(all[i as int]));
                let prefix = all.subrange(0, i + 1);
                assert(prefix.drop_last() =~= all.subrange(0, i as int));
                assert(prefix.last() == all[i as int]);
            }
            mapping.record_evidence(pair.0, pair.1);
            i = i + 1;
        }
        assert(all.subrange(0, n as int) =~= all);
        mapping
    }

    /// Record one evidence pair. The fit is unchanged until the next
    /// [`TimeMapping::update`].
    pub fn record_evidence(&mut self, src_time: Time<SrcTag>, tgt_time: Time<TgtTag>)
        requires
            old(self).wf(),
            in_time_range(src_time@),
            in_time_range(tgt_time@),
        ensures
            final(self).wf(),
            final(self).config_spec() == old(self).config_spec(),
            final(self).intercept_spec() == old(self).intercept_spec(),
            final(self).evidence_spec() == record_step(
                old(self).config_spec(),
                old(self).evidence_spec(),
                (src_time, tgt_time),
            ),
    {
        if self.config.ignore_if_out_of_order && self.evidence.len() > 0 {
            let newest = &self.evidence[self.evidence.len() - 1];
            let in_order = newest.0.lt(src_time) && newest.1.lt(tgt_time);
            if !in_order {
                return ;
            }
        }

        self.evidence.push((src_time, tgt_time));
        let ghost pushed = self.evidence@;
        proof {
            assert forall|i: int| 0 <= i < pushed.len() implies entry_in_range(
                #[trigger] pushed[i],
            ) by {
                if i < old(self).evidence_spec().len() {
                    assert(entry_in_range(old(self).evidence_spec()[i]));
                }
            }
        }
        if self.evidence.len() > self.config.max_evidence_len {
            self.evidence.remove(0);
            proof {
                assert(self.evidence@ =~= pushed.subrange(1, pushed.len() as int));
                assert forall|i: int| 0 <= i < self.evidence@.len() implies entry_in_range(
                    #[trigger] self.evidence@[i],
                ) by {
                    assert(entry_in_range(pushed[i + 1]));
                }
            }
        }
    }

    /// Refit the intercept from the current evidence: with at least two
    /// pairs it becomes the mean residual (blended with the previous fit
    /// when smoothing is on); with fewer there is no relation to fit and the
    /// intercept is cleared.
    pub fn update(&mut self, _current_src_time: Time<SrcTag>)
        requires
            old(self).wf(),
        ensures
            final(self).wf(),
            final(self).config_spec() == old(self).config_spec(),
            final(self).evidence_spec() == old(self).evidence_spec(),
            final(self).intercept_spec() == if old(self).evidence_spec().len() >= 2 {
                Some(
                    refit_intercept(
                        old(self).config_spec(),
                        old(self).evidence_spec(),
                        old(self).intercept_spec(),
                    ),
                )
            } else {
                None::<int>
            },
    {
        let n = self.evidence.len();
        if n < 2 {
            self.intercept = None;
            return ;
        }

        let ghost full = self.evidence@;
        let mut sum: i128 = 0;
        let mut i: usize = 0;
        assert(full.subrange(0, 0) =~= Seq::<(Time<SrcTag>, Time<TgtTag>)>::empty());
        while i < n
            invariant
                0 <= i <= n,
                n == full.len(),
                entries_in_range(full),
                sum as int == residual_sum(full.subrange(0, i as int)),
                -(i as int) * 0x40_0000_0000_0000 <= sum as int <= (i as int)
                    * 0x40_0000_0000_0000,
                self.evidence@ == full,
            decreases n - i,
        {
            proof {
                assert(entry_in_range(full[i as int]));
                let prefix = full.subrange(0, i + 1);
                assert(prefix.drop_last() =~= full.subrange(0, i as int));
                assert(prefix.last() == full[i as int]);
            }
            let pair = &self.evidence[i];
            let residual = (pair.1.to_micros() as i128) - (pair.0.to_micros() as i128);
            sum = sum + residual;
            i = i + 1;
        }
        assert(full.subrange(0, n as int) =~= full);

        let fit = div_floor_i128(sum, n as i128);
        proof {
            lemma_residual_sum_bound(full);
            lemma_div_bound(residual_sum(full), full.len() as int, 0x40_0000_0000_0000);
        }

        let blended: i128 = match (self.config.ema_alpha_permille, self.intercept) {
            (Some(a), Some(prev)) => {
                proof {
                    assert(-(1000int * 0x40_0000_0000_0000) <= (a as int) * (fit as int)
                        <= 1000int * 0x40_0000_0000_0000 && -(1000int * 0x40_0000_0000_0000) <= (
                    1000 - a as int) * (prev as int) <= 1000int * 0x40_0000_0000_0000 && -(
                    1000int * 0x40_0000_0000_0000) <= (a as int) * (fit as int) + (1000
                        - a as int) * (prev as int) <= 1000int * 0x40_0000_0000_0000)
                        by (nonlinear_arith)
                        requires
                            1 <= a as int <= 1000,
                            -0x40_0000_0000_0000 <= fit as int <= 0x40_0000_0000_0000,
                            -0x40_0000_0000_0000 <= prev as int <= 0x40_0000_0000_0000,
                    ;
                }
                let weighted = (a as i128) * fit + ((1000 - a) as i128) * (prev as i128);
                let b = div_floor_i128(weighted, 1000);
                proof {
                    lemma_div_bound(weighted as int, 1000, 0x40_0000_0000_0000);
                }
                b
            },
            _ => fit,
        };
        self.intercept = Some(blended as i64);
    }

    /// Evaluate the mapping: the target time corresponding to the source
    /// instant `t`, if a fit exists.
    pub fn eval(&self, t: Time<SrcTag>) -> (r: Option<Time<TgtTag>>)
        requires
            self.wf(),
            in_time_range(t@),
        ensures
            r is Some <==> self.intercept_spec() is Some,
            r matches Some(v) ==> v@ == t@ + self.intercept_spec()->Some_0,
    {
        match self.intercept {
            Some(c) => {
                let wide: i128 = (t.to_micros() as i128) + (c as i128);
                Some(Time::from_micros(wide as i64))
            },
            None => None,
        }
    }
}

} // verus!
