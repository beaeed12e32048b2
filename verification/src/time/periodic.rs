//! A periodic timer with accumulator semantics, used to drive a fixed-step
//! simulation from variable frame deltas.
//!
//! Each frame the driver adds the frame span to the accumulator and then
//! fires ticks with `while timer.trigger() { do_tick() }`, so a long frame
//! fires several ticks. Catastrophic lag is the caller's concern: the driver
//! clamps the frame span before passing it in.

use vstd::prelude::*;
use vstd::arithmetic::div_mod::{
    lemma_fundamental_div_mod, lemma_hoist_over_denominator, lemma_mod_bound,
};

use crate::time::{LocalDt, in_time_range};

verus! {

/// The sum of a sequence of frame spans.
pub open spec fn span_sum(dts: Seq<int>) -> int
    decreases dts.len(),
{
    if dts.len() == 0 {
        0
    } else {
        dts[0] + span_sum(dts.subrange(1, dts.len() as int))
    }
}

/// The number of triggers a run of frames fires: each frame adds its span to
/// the accumulator and then drains the accumulator one period at a time.
pub open spec fn run_triggers(period: int, accumulator: int, dts: Seq<int>) -> int
    decreases dts.len(),
{
    if dts.len() == 0 {
        0
    } else {
        let raised = accumulator + dts[0];
        raised / period + run_triggers(period, raised % period, dts.subrange(1, dts.len() as int))
    }
}

/// Law: for any frame spans `dts` (each nonnegative), a timer started with
/// an empty accumulator fires exactly `span_sum(dts) / period` triggers over
/// the whole run, however the total is split into frames.
pub proof fn lemma_run_triggers_total(period: int, accumulator: int, dts: Seq<int>)
    requires
        period > 0,
        0 <= accumulator < period,
        forall|i: int| 0 <= i < dts.len() ==> dts[i] >= 0,
    ensures
        run_triggers(period, accumulator, dts) == (accumulator + span_sum(dts)) / period,
    decreases dts.len(),
{
    if dts.len() == 0 {
        assert(accumulator / period == 0) by {
            lemma_fundamental_div_mod(accumulator, period);
            lemma_mod_bound(accumulator, period);
            assert(accumulator == period * (accumulator / period) + accumulator % period);
            if accumulator / period >= 1 {
                assert(period * (accumulator / period) >= period * 1) by (nonlinear_arith)
                    requires
                        period > 0,
                        accumulator / period >= 1,
                ;
            }
            if accumulator / period <= -1 {
                assert(period * (accumulator / period) <= period * -1) by (nonlinear_arith)
                    requires
                        period > 0,
                        accumulator / period <= -1,
                ;
            }
        }
    } else {
        let raised = accumulator + dts[0];
        let rest = dts.subrange(1, dts.len() as int);
        assert(forall|i: int| 0 <= i < rest.len() ==> rest[i] >= 0);
        lemma_mod_bound(raised, period);
        lemma_run_triggers_total(period, raised % period, rest);
        let s = span_sum(rest);
        assert(s >= 0) by {
            lemma_span_sum_nonneg(rest);
        }
        lemma_fundamental_div_mod(raised, period);
        lemma_hoist_over_denominator(raised % period + s, raised / period, period as nat);
        assert(raised % period + s + (raised / period) * period == raised + s)
            by (nonlinear_arith)
            requires
                raised == period * (raised / period) + raised % period,
        ;
    }
}

/// The sum of nonnegative spans is nonnegative.
pub proof fn lemma_span_sum_nonneg(dts: Seq<int>)
    requires
        forall|i: int| 0 <= i < dts.len() ==> dts[i] >= 0,
    ensures
        span_sum(dts) >= 0,
    decreases dts.len(),
{
    if dts.len() > 0 {
        let rest = dts.subrange(1, dts.len() as int);
        assert(forall|i: int| 0 <= i < rest.len() ==> rest[i] >= 0);
        lemma_span_sum_nonneg(rest);
    }
}

/// A fixed-period timer: an accumulator of elapsed local time that fires a
/// trigger for each whole period drained from it.
#[derive(Debug, Clone)]
pub struct PeriodicTimer {
    period: LocalDt,
    accumulator: LocalDt,
}

impl PeriodicTimer {
    /// The configured period, in microseconds.
    pub closed spec fn period_spec(&self) -> int {
        self.period@
    }

    /// The accumulated span not yet drained, in microseconds.
    pub closed spec fn accumulator_spec(&self) -> int {
        self.accumulator@
    }

    /// Well-formedness: the period is a bounded nonnegative span and the
    /// accumulator is nonnegative.
    pub open spec fn wf(&self) -> bool {
        &&& 0 <= self.period_spec() <= 0x20_0000_0000_0000
        &&& 0 <= self.accumulator_spec()
    }

    /// A timer with the given period and an empty accumulator.
    pub fn new(period: LocalDt) -> (r: Self)
        requires
            0 <= period@ <= 0x20_0000_0000_0000,
        ensures
            r.wf(),
            r.period_spec() == period@,
            r.accumulator_spec() == 0,
    {
        PeriodicTimer { period, accumulator: LocalDt::zero() }
    }

    /// The configured period.
    pub fn period(&self) -> (r: LocalDt)
        ensures
            r@ == self.period_spec(),
    {
        self.period
    }

    /// The accumulated span not yet drained.
    pub fn accumulator(&self) -> (r: LocalDt)
        ensures
            r@ == self.accumulator_spec(),
    {
        self.accumulator
    }

    /// Add a frame span to the accumulator.
    pub fn advance(&mut self, dt: LocalDt)
        requires
            old(self).wf(),
            0 <= dt@,
            in_time_range(old(self).accumulator_spec() + dt@),
        ensures
            final(self).wf(),
            final(self).period_spec() == old(self).period_spec(),
            final(self).accumulator_spec() == old(self).accumulator_spec() + dt@,
    {
        self.accumulator = self.accumulator.add(dt);
    }

    /// Fire one tick if a whole period has accumulated: when the accumulator
    /// has reached the period, one period is drained and the call returns
    /// true; otherwise nothing changes and the call returns false.
    pub fn trigger(&mut self) -> (fired: bool)
        requires
            old(self).wf(),
        ensures
            final(self).wf(),
            final(self).period_spec() == old(self).period_spec(),
            fired == (old(self).accumulator_spec() >= old(self).period_spec()),
            final(self).accumulator_spec() == if fired {
                old(self).accumulator_spec() - old(self).period_spec()
            } else {
                old(self).accumulator_spec()
            },
    {
        if self.period.le(self.accumulator) {
            self.accumulator = self.accumulator.sub(self.period);
            true
        } else {
            false
        }
    }

    /// Empty the accumulator.
    pub fn reset(&mut self)
        requires
            old(self).wf(),
        ensures
            final(self).wf(),
            final(self).period_spec() == old(self).period_spec(),
            final(self).accumulator_spec() == 0,
    {
        self.accumulator = LocalDt::zero();
    }
}

} // verus!
