//! Named sliding-window gauges, for diagnostics.

use vstd::prelude::*;

use crate::time::samples::Samples;
use crate::time::{LocalDt, LocalTime, in_time_range};
use crate::time::stream::{div_floor_i128, lemma_div_bound};

verus! {

/// The sum of the recorded values of a gauge window.
pub open spec fn value_sum(s: Seq<(LocalTime, i64)>) -> int
    decreases s.len(),
{
    if s.len() == 0 {
        0
    } else {
        value_sum(s.drop_last()) + s.last().1
    }
}

/// The smallest recorded value of a nonempty gauge window.
pub open spec fn value_min(s: Seq<(LocalTime, i64)>) -> int
    decreases s.len(),
{
    if s.len() <= 1 {
        s.last().1 as int
    } else if s.last().1 <= value_min(s.drop_last()) {
        s.last().1 as int
    } else {
        value_min(s.drop_last())
    }
}

/// The largest recorded value of a nonempty gauge window.
pub open spec fn value_max(s: Seq<(LocalTime, i64)>) -> int
    decreases s.len(),
{
    if s.len() <= 1 {
        s.last().1 as int
    } else if s.last().1 >= value_max(s.drop_last()) {
        s.last().1 as int
    } else {
        value_max(s.drop_last())
    }
}

/// Whether every recorded value of a gauge window is within
/// [`crate::time::TIME_LIMIT_MICROS`].
pub open spec fn values_in_range(s: Seq<(LocalTime, i64)>) -> bool {
    forall|i: int| 0 <= i < s.len() ==> in_time_range((#[trigger] s[i]).1 as int)
}

/// The sum of bounded values is bounded by the window length times the
/// bound.
proof fn lemma_value_sum_bound(s: Seq<(LocalTime, i64)>)
    requires
        values_in_range(s),
    ensures
        -(s.len() as int) * 0x20_0000_0000_0000 <= value_sum(s) <= (s.len() as int)
            * 0x20_0000_0000_0000,
    decreases s.len(),
{
    if s.len() > 0 {
        assert(values_in_range(s.drop_last()));
        lemma_value_sum_bound(s.drop_last());
    }
}

/// One named metric: an age-bounded window of recorded values.
#[derive(Debug, Clone)]
pub struct Gauge {
    samples: Samples<i64>,
}

impl Gauge {
    /// The recorded `(time, value)` entries, oldest first.
    pub closed spec fn entries(&self) -> Seq<(LocalTime, i64)> {
        self.samples@
    }

    /// The window's age bound, in microseconds.
    pub closed spec fn max_age_spec(&self) -> int {
        self.samples.max_age_spec()
    }

    /// Well-formedness: recorded values are bounded, so a mean cannot
    /// overflow.
    pub open spec fn wf(&self) -> bool {
        values_in_range(self.entries())
    }

    /// An empty gauge keeping entries up to `max_age` old.
    pub fn new(max_age: LocalDt) -> (r: Self)
        ensures
            r.wf(),
            r.entries() == Seq::<(LocalTime, i64)>::empty(),
            r.max_age_spec() == max_age@,
    {
        Gauge { samples: Samples::new(max_age) }
    }

    /// The number of recorded entries.
    pub fn len(&self) -> (r: usize)
        ensures
            r == self.entries().len(),
    {
        self.samples.len()
    }

    /// The entry at position `i` (position zero is the oldest).
    pub fn get(&self, i: usize) -> (r: &(LocalTime, i64))
        requires
            i < self.entries().len(),
        ensures
            *r == self.entries()[i as int],
    {
        self.samples.get(i)
    }

    /// The mean recorded value, rounded towards minus infinity; `None` for
    /// an empty gauge.
    pub fn mean(&self) -> (r: Option<i64>)
        requires
            self.wf(),
        ensures
            r is Some <==> self.entries().len() > 0,
            r matches Some(m) ==> m as int == value_sum(self.entries()) / self.entries().len()
                as int,
    {
        let n = self.samples.len();
        if n == 0 {
            return None;
        }
        let ghost full = self.entries();
        let mut sum: i128 = 0;
        let mut i: usize = 0;
        assert(full.subrange(0, 0) =~= Seq::<(LocalTime, i64)>::empty());
        while i < n
            invariant
                0 <= i <= n,
                n == full.len(),
                values_in_range(full),
                self.entries() == full,
                sum as int == value_sum(full.subrange(0, i as int)),
                -(i as int) * 0x20_0000_0000_0000 <= sum as int <= (i as int)
                    * 0x20_0000_0000_0000,
            decreases n - i,
        {
            proof {
                assert(in_time_range(full[i as int].1 as int));
                let prefix = full.subrange(0, i + 1);
                assert(prefix.drop_last() =~= full.subrange(0, i as int));
                assert(prefix.last() == full[i as int]);
            }
            let value = self.samples.get(i).1;
            sum = sum + (value as i128);
            i = i + 1;
        }
        assert(full.subrange(0, n as int) =~= full);
        let mean = div_floor_i128(sum, n as i128);
        proof {
            lemma_value_sum_bound(full);
            lemma_div_bound(value_sum(full), full.len() as int, 0x20_0000_0000_0000);
        }
        Some(mean as i64)
    }

    /// The smallest recorded value; `None` for an empty gauge.
    pub fn min(&self) -> (r: Option<i64>)
        ensures
            r is Some <==> self.entries().len() > 0,
            r matches Some(m) ==> m as int == value_min(self.entries()),
    {
        let n = self.samples.len();
        if n == 0 {
            return None;
        }
        let ghost full = self.entries();
        let mut best = self.samples.get(0).1;
        let mut i: usize = 1;
        assert(full.subrange(0, 1).len() == 1);
        assert(full.subrange(0, 1).last() == full[0]);
        while i < n
            invariant
                1 <= i <= n,
                n == full.len(),
                self.entries() == full,
                best as int == value_min(full.subrange(0, i as int)),
            decreases n - i,
        {
            proof {
                let prefix = full.subrange(0, i + 1);
                assert(prefix.drop_last() =~= full.subrange(0, i as int));
                assert(prefix.last() == full[i as int]);
            }
            let value = self.samples.get(i).1;
            if value < best {
                best = value;
            }
            i = i + 1;
        }
        assert(full.subrange(0, n as int) =~= full);
        Some(best)
    }

    /// The largest recorded value; `None` for an empty gauge.
    pub fn max(&self) -> (r: Option<i64>)
        ensures
            r is Some <==> self.entries().len() > 0,
            r matches Some(m) ==> m as int == value_max(self.entries()),
    {
        let n = self.samples.len();
        if n == 0 {
            return None;
        }
        let ghost full = self.entries();
        let mut best = self.samples.get(0).1;
        let mut i: usize = 1;
        assert(full.subrange(0, 1).len() == 1);
        assert(full.subrange(0, 1).last() == full[0]);
        while i < n
            invariant
                1 <= i <= n,
                n == full.len(),
                self.entries() == full,
                best as int == value_max(full.subrange(0, i as int)),
            decreases n - i,
        {
            proof {
                let prefix = full.subrange(0, i + 1);
                assert(prefix.drop_last() =~= full.subrange(0, i as int));
                assert(prefix.last() == full[i as int]);
            }
            let value = self.samples.get(i).1;
            if value > best {
                best = value;
            }
            i = i + 1;
        }
        assert(full.subrange(0, n as int) =~= full);
        Some(best)
    }
}

/// A store of named gauges sharing one age bound.
#[derive(Debug, Clone)]
pub struct Metrics {
    max_sample_age: LocalDt,
    gauges: Vec<(String, Gauge)>,
}

impl Metrics {
    /// The named gauges, in order of first recording.
    pub closed spec fn gauges_spec(&self) -> Seq<(String, Gauge)> {
        self.gauges@
    }

    /// The shared age bound, in microseconds.
    pub closed spec fn max_sample_age(&self) -> int {
        self.max_sample_age@
    }

    /// Well-formedness: names are distinct and each gauge is well-formed.
    pub open spec fn wf(&self) -> bool {
        &&& forall|i: int, j: int|
            0 <= i < j < self.gauges_spec().len() ==> self.gauges_spec()[i].0@ != self.gauges_spec()[j].0@
        &&& forall|i: int|
            0 <= i < self.gauges_spec().len() ==> (#[trigger] self.gauges_spec()[i]).1.wf()
    }

    /// An empty store whose gauges will keep entries up to `max_sample_age`
    /// old.
    pub fn new(max_sample_age: LocalDt) -> (r: Self)
        ensures
            r.wf(),
            r.gauges_spec() == Seq::<(String, Gauge)>::empty(),
            r.max_sample_age() == max_sample_age@,
    {
        Metrics { max_sample_age, gauges: Vec::new() }
    }

    /// The number of gauges.
    pub fn len(&self) -> (r: usize)
        ensures
            r == self.gauges_spec().len(),
    {
        self.gauges.len()
    }

    /// The gauge at position `i` with its name.
    pub fn get(&self, i: usize) -> (r: &(String, Gauge))
        requires
            i < self.gauges_spec().len(),
        ensures
            *r == self.gauges_spec()[i as int],
    {
        &self.gauges[i]
    }

    /// The gauge named `name`, if one has been recorded.
    pub fn get_gauge(&self, name: &String) -> (r: Option<&Gauge>)
        ensures
            r is None ==> forall|i: int|
                0 <= i < self.gauges_spec().len() ==> (#[trigger] self.gauges_spec()[i]).0@
                    != name@,
            r matches Some(g) ==> exists|i: int|
                0 <= i < self.gauges_spec().len() && (#[trigger] self.gauges_spec()[i]).0@ == name@
                    && *g == self.gauges_spec()[i].1,
    {
        let n = self.gauges.len();
        let mut i: usize = 0;
        while i < n
            invariant
                0 <= i <= n,
                n == self.gauges_spec().len(),
                forall|k: int| 0 <= k < i ==> (#[trigger] self.gauges_spec()[k]).0@ != name@,
            decreases n - i,
        {
            if self.gauges[i].0 == *name {
                return Some(&self.gauges[i].1);
            }
            i = i + 1;
        }
        None
    }

    /// Record `value` under `name` at local instant `now`, creating the
    /// gauge on first use. The value joins the named gauge's window, which
    /// is aged against `now`; all other gauges are untouched.
    pub fn record_gauge(&mut self, now: LocalTime, name: &String, value: i64)
        requires
            old(self).wf(),
            in_time_range(value as int),
        ensures
            final(self).wf(),
            final(self).max_sample_age() == old(self).max_sample_age(),
            exists|i: int|
                {
                    &&& 0 <= i < final(self).gauges_spec().len()
                    &&& (#[trigger] final(self).gauges_spec()[i]).0@ == name@
                    &&& final(self).gauges_spec()[i].1.entries() == (if i < old(
                        self,
                    ).gauges_spec().len() {
                        old(self).gauges_spec()[i].1.entries()
                    } else {
                        Seq::<(LocalTime, i64)>::empty()
                    }).push((now, value)).filter(
                        crate::time::samples::keeps(
                            now@,
                            final(self).gauges_spec()[i].1.max_age_spec(),
                        ),
                    )
                    &&& forall|j: int|
                        0 <= j < old(self).gauges_spec().len() && j != i
                            ==> #[trigger] final(self).gauges_spec()[j] == old(self).gauges_spec()[j]
                    &&& final(self).gauges_spec().len() == if i < old(self).gauges_spec().len() {
                        old(self).gauges_spec().len() as int
                    } else {
                        old(self).gauges_spec().len() as int + 1
                    }
                },
    {
        let n = self.gauges.len();
        let ghost b = self.gauges_spec();
        let mut i: usize = 0;
        while i < n
            invariant
                0 <= i <= n,
                n == self.gauges_spec().len(),
                *self == *old(self),
                self.gauges_spec() == b,
                old(self).wf(),
                in_time_range(value as int),
                forall|k: int| 0 <= k < i ==> (#[trigger] self.gauges_spec()[k]).0@ != name@,
            decreases n - i,
        {
            if self.gauges[i].0 == *name {
                let mut entry = self.gauges.remove(i);
                proof {
                    assert(entry == b[i as int]);
                    assert(b[i as int].1.wf());
                }
                entry.1.record(now, value);
                self.gauges.insert(i, entry);
                proof {
                    assert(self.gauges_spec() =~= b.update(i as int, entry));
                    assert((self.gauges_spec()[i as int]).0@ == name@);
                    assert(self.gauges_spec()[i as int].1.entries() == b[i as int].1.entries().push(
                        (now, value),
                    ).filter(
                        crate::time::samples::keeps(
                            now@,
                            self.gauges_spec()[i as int].1.max_age_spec(),
                        ),
                    ));
                    assert forall|x: int, y: int|
                        0 <= x < y < self.gauges_spec().len() implies self.gauges_spec()[x].0@
                        != self.gauges_spec()[y].0@ by {
                        assert(b[x].0@ != b[y].0@);
                    }
                    assert forall|x: int|
                        0 <= x < self.gauges_spec().len() implies (#[trigger] self.gauges_spec()[
                        x]).1.wf() by {
                        if x != i {
                            assert(b[x].1.wf());
                        }
                    }
                }
                return ;
            }
            i = i + 1;
        }

        let mut gauge = Gauge::new(self.max_sample_age);
        gauge.record(now, value);
        let name_copy = name.clone();
        self.gauges.push((name_copy, gauge));
        proof {
            let b2 = self.gauges_spec();
            assert(b2 =~= b.push((name_copy, gauge)));
            assert((b2[b.len() as int]).0@ == name@);
            assert(b2[b.len() as int].1.entries() == Seq::<(LocalTime, i64)>::empty().push(
                (now, value),
            ).filter(crate::time::samples::keeps(now@, b2[b.len() as int].1.max_age_spec())));
            assert forall|x: int, y: int|
                0 <= x < y < b2.len() implies b2[x].0@ != b2[y].0@ by {
                if y < b.len() {
                    assert(b[x].0@ != b[y].0@);
                } else {
                    assert(b2[x].0@ != name@);
                }
            }
            assert forall|x: int| 0 <= x < b2.len() implies (#[trigger] b2[x]).1.wf() by {
                if x < b.len() {
                    assert(b[x].1.wf());
                }
            }
        }
    }
}

impl Gauge {
    /// Record one value at local instant `now`.
    fn record(&mut self, now: LocalTime, value: i64)
        requires
            old(self).wf(),
            in_time_range(value as int),
        ensures
            final(self).wf(),
            final(self).max_age_spec() == old(self).max_age_spec(),
            final(self).entries() == old(self).entries().push((now, value)).filter(
                crate::time::samples::keeps(now@, old(self).max_age_spec()),
            ),
    {
        self.samples.record(now, now, value);
        proof {
            let source = old(self).entries().push((now, value));
            let pred = crate::time::samples::keeps::<i64>(now@, old(self).max_age_spec());
            let filtered = source.filter(pred);
            assert forall|i: int|
                0 <= i < filtered.len() implies in_time_range(
                (#[trigger] filtered[i]).1 as int) by {
                source.lemma_filter_pred(pred, i);
                lemma_filter_element_of(source, pred, i);
                let w = choose|w: int| 0 <= w < source.len() && source[w] == filtered[i];
                if w < old(self).entries().len() {
                    assert(in_time_range(old(self).entries()[w].1 as int));
                }
            }
        }
    }
}

/// Every element of a filtered sequence is an element of the source.
proof fn lemma_filter_element_of<A>(s: Seq<A>, pred: spec_fn(A) -> bool, i: int)
    requires
        0 <= i < s.filter(pred).len(),
    ensures
        exists|w: int| 0 <= w < s.len() && s[w] == s.filter(pred)[i],
    decreases s.len(),
{
    broadcast use vstd::seq_lib::group_filter_ensures;

    if s.len() > 0 {
        let rest = s.drop_last();
        assert(rest.push(s.last()) =~= s);
        rest.lemma_filter_push(s.last(), pred);
        if pred(s.last()) && i == s.filter(pred).len() - 1 {
            assert(s[s.len() - 1] == s.filter(pred)[i]);
        } else {
            lemma_filter_element_of(rest, pred, i);
            let w = choose|w: int| 0 <= w < rest.len() && rest[w] == rest.filter(pred)[i];
            assert(s[w] == s.filter(pred)[i]);
        }
    }
}

} // verus!
