//! Prediction of the current stream time from receive observations.
//!
//! Given a window of `(receive time, stream time)` samples, the predictor
//! fits a line of slope one through them: both timelines advance at one
//! second per second in the steady state, so any apparent drift is jitter.
//! Only the intercept is estimated, as the mean of the residuals
//! `stream time - receive time`, which is far more robust on small windows
//! than jointly fitting a slope.

use vstd::prelude::*;
use vstd::arithmetic::div_mod::{
    lemma_div_is_ordered, lemma_fundamental_div_mod, lemma_fundamental_div_mod_converse_div,
};

use crate::time::samples::Samples;
use crate::time::{LocalTime, Time, in_time_range};

verus! {

/// The sum over a window of the residuals `target time - source time`.
pub open spec fn residual_sum<SrcTag, TgtTag>(s: Seq<(Time<SrcTag>, Time<TgtTag>)>) -> int
    decreases s.len(),
{
    if s.len() == 0 {
        0
    } else {
        residual_sum(s.drop_last()) + (s.last().1@ - s.last().0@)
    }
}

/// The intercept of the unit-slope line fitted through a window: the mean
/// residual, rounded towards minus infinity. Only meaningful for a window of
/// at least one entry.
pub open spec fn unit_slope_intercept<SrcTag, TgtTag>(s: Seq<(Time<SrcTag>, Time<TgtTag>)>) -> int {
    residual_sum(s) / s.len() as int
}

/// Whether both instants of a window entry are within
/// [`crate::time::TIME_LIMIT_MICROS`].
pub open spec fn entry_in_range<SrcTag, TgtTag>(e: (Time<SrcTag>, Time<TgtTag>)) -> bool {
    in_time_range(e.0@) && in_time_range(e.1@)
}

/// Whether every entry of a window is within
/// [`crate::time::TIME_LIMIT_MICROS`].
pub open spec fn entries_in_range<SrcTag, TgtTag>(s: Seq<(Time<SrcTag>, Time<TgtTag>)>) -> bool {
    forall|i: int| 0 <= i < s.len() ==> entry_in_range(#[trigger] s[i])
}

/// Evicting entries from an in-range window leaves an in-range window.
pub proof fn lemma_filter_preserves_range<SrcTag, TgtTag>(
    s: Seq<(Time<SrcTag>, Time<TgtTag>)>,
    pred: spec_fn((Time<SrcTag>, Time<TgtTag>)) -> bool,
)
    requires
        entries_in_range(s),
    ensures
        entries_in_range(s.filter(pred)),
    decreases s.len(),
{
    if s.len() > 0 {
        let rest = s.drop_last();
        assert(entries_in_range(rest));
        lemma_filter_preserves_range(rest, pred);
        assert(rest.push(s.last()) =~= s);
        rest.lemma_filter_push(s.last(), pred);
        if pred(s.last()) {
            assert(entry_in_range(s.last()));
            assert forall|i: int|
                0 <= i < s.filter(pred).len() implies entry_in_range(
                #[trigger] s.filter(pred)[i],
            ) by {
                if i < rest.filter(pred).len() {
                    assert(s.filter(pred)[i] == rest.filter(pred)[i]);
                } else {
                    assert(s.filter(pred)[i] == s.last());
                }
            }
        }
    }
}

/// Each residual of an in-range window has magnitude at most twice the time
/// limit, so the residual sum is bounded by the window length times that.
pub proof fn lemma_residual_sum_bound<SrcTag, TgtTag>(s: Seq<(Time<SrcTag>, Time<TgtTag>)>)
    requires
        entries_in_range(s),
    ensures
        -(s.len() as int) * 0x40_0000_0000_0000 <= residual_sum(s) <= (s.len() as int)
            * 0x40_0000_0000_0000,
    decreases s.len(),
{
    if s.len() > 0 {
        assert(entries_in_range(s.drop_last()));
        lemma_residual_sum_bound(s.drop_last());
    }
}

/// Law: on a window whose residuals are all the same constant `c` (evidence
/// of the form `(t, t + c)`), the fitted intercept is exactly `c`, so
/// prediction evaluates to `t + c` for every query instant `t`.
pub proof fn lemma_constant_offset_intercept<SrcTag, TgtTag>(
    s: Seq<(Time<SrcTag>, Time<TgtTag>)>,
    c: int,
)
    requires
        s.len() > 0,
        forall|i: int| 0 <= i < s.len() ==> #[trigger] s[i].1@ - s[i].0@ == c,
    ensures
        residual_sum(s) == s.len() * c,
        unit_slope_intercept(s) == c,
    decreases s.len(),
{
    if s.len() == 1 {
        assert(residual_sum(s.drop_last()) == 0);
    } else {
        lemma_constant_offset_intercept(s.drop_last(), c);
        assert(residual_sum(s) == (s.len() - 1) * c + c);
        assert((s.len() - 1) * c + c == s.len() * c) by (nonlinear_arith);
    }
    let n = s.len() as int;
    assert(n * c / n == c) by {
        lemma_fundamental_div_mod_converse_div(n * c, n, c, 0);
        assert(c * n + 0 == n * c) by (nonlinear_arith);
    }
}

/// Quotient of `a` by `b`, rounded towards minus infinity (matching the
/// mathematical `/` used in the contracts).
pub(crate) fn div_floor_i128(a: i128, b: i128) -> (q: i128)
    requires
        0 < b <= 0x1_0000_0000_0000_0000,
        -0x1000_0000_0000_0000_0000_0000_0000_0000 <= a <= 0x1000_0000_0000_0000_0000_0000_0000_0000,
    ensures
        q == a as int / b as int,
{
    if a >= 0 {
        a / b
    } else {
        let m = -a;
        let d = (m + (b - 1)) / b;
        proof {
            lemma_fundamental_div_mod(m + (b - 1), b as int);
            let r = (m + (b - 1)) % (b as int);
            assert(m + (b - 1) == (b as int) * (d as int) + r);
            let r2 = b - 1 - r;
            assert(a as int == (-(d as int)) * (b as int) + r2) by (nonlinear_arith)
                requires
                    m == -(a as int),
                    m + (b - 1) == (b as int) * (d as int) + r,
                    r2 == b - 1 - r,
            ;
            lemma_fundamental_div_mod_converse_div(a as int, b as int, -(d as int), r2);
        }
        -d
    }
}

/// The quotient of a value bounded by `n` times `b` (for a positive count
/// `n`) is bounded by `b`.
pub proof fn lemma_div_bound(x: int, n: int, b: int)
    requires
        n > 0,
        b >= 0,
        -(n * b) <= x <= n * b,
    ensures
        -b <= x / n <= b,
{
    lemma_div_is_ordered(-(n * b), x, n);
    lemma_div_is_ordered(x, n * b, n);
    assert((-(n * b)) / n == -b) by {
        assert((-b) * n + 0 == -(n * b)) by (nonlinear_arith);
        lemma_fundamental_div_mod_converse_div(-(n * b), n, -b, 0);
    }
    assert((n * b) / n == b) by {
        assert(b * n + 0 == n * b) by (nonlinear_arith);
        lemma_fundamental_div_mod_converse_div(n * b, n, b, 0);
    }
}

/// Predict the stream time at the local instant `current_local_time` from a
/// window of `(receive time, stream time)` samples.
///
/// With fewer than two samples there is no evidence of a stable relation and
/// no prediction is made. Otherwise the prediction is the query instant plus
/// the mean residual of the window ([`unit_slope_intercept`]).
pub fn predict_stream_time<StreamTag>(
    stream_samples: &Samples<Time<StreamTag>>,
    current_local_time: LocalTime,
) -> (r: Option<Time<StreamTag>>)
    requires
        entries_in_range(stream_samples@),
        -0x40_0000_0000_0000 <= current_local_time@ <= 0x40_0000_0000_0000,
    ensures
        r is Some <==> stream_samples@.len() >= 2,
        r matches Some(t) ==> t@ == current_local_time@ + unit_slope_intercept(stream_samples@),
{
    let n = stream_samples.len();
    if n < 2 {
        return None;
    }

    let ghost full = stream_samples@;
    let mut sum: i128 = 0;
    let mut i: usize = 0;
    assert(full.subrange(0, 0) =~= Seq::<(LocalTime, Time<StreamTag>)>::empty());
    while i < n
        invariant
            0 <= i <= n,
            n == full.len(),
            entries_in_range(full),
            sum as int == residual_sum(full.subrange(0, i as int)),
            -(i as int) * 0x40_0000_0000_0000 <= sum as int <= (i as int) * 0x40_0000_0000_0000,
            stream_samples@ == full,
        decreases n - i,
    {
        let entry = stream_samples.get(i);
        let residual = (entry.1.to_micros() as i128) - (entry.0.to_micros() as i128);
        proof {
            let prefix = full.subrange(0, i + 1);
            assert(prefix.drop_last() =~= full.subrange(0, i as int));
            assert(prefix.last() == full[i as int]);
        }
        sum = sum + residual;
        i = i + 1;
    }
    assert(full.subrange(0, n as int) =~= full);

    let mean = div_floor_i128(sum, n as i128);
    proof {
        assert(mean as int == unit_slope_intercept(full));
        lemma_div_bound(residual_sum(full), full.len() as int, 0x40_0000_0000_0000);
    }
    let predicted = (current_local_time.to_micros() as i128) + mean;
    Some(Time::from_micros(predicted as i64))
}

} // verus!
