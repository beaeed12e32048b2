//! An age-bounded window of timestamped observations.

use vstd::prelude::*;
use vstd::seq_lib::group_filter_ensures;

use crate::time::{LocalDt, LocalTime};

verus! {

/// The entries a window keeps when the local clock reads `now`: those whose
/// sample time is at most `max_age` in the past. Age is measured against the
/// wall clock, not against the newest sample, so a stalled stream ages out.
pub open spec fn keeps<Value>(now: int, max_age: int) -> spec_fn((LocalTime, Value)) -> bool {
    |e: (LocalTime, Value)| now - e.0@ <= max_age
}

/// A window of `(sample time, value)` observations. Recording appends and
/// then evicts every entry older than `max_age` relative to the current
/// local time.
#[derive(Debug, Clone)]
pub struct Samples<Value> {
    pub(crate) max_age: LocalDt,
    pub(crate) entries: Vec<(LocalTime, Value)>,
}

impl<Value> View for Samples<Value> {
    type V = Seq<(LocalTime, Value)>;

    /// A window is viewed as its sequence of entries, oldest first.
    closed spec fn view(&self) -> Seq<(LocalTime, Value)> {
        self.entries@
    }
}

impl<Value> Samples<Value> {
    /// The configured maximum age, in microseconds.
    pub closed spec fn max_age_spec(&self) -> int {
        self.max_age@
    }

    /// An empty window that will keep entries up to `max_age` old.
    pub fn new(max_age: LocalDt) -> (r: Self)
        ensures
            r@ == Seq::<(LocalTime, Value)>::empty(),
            r.max_age_spec() == max_age@,
    {
        Samples { max_age, entries: Vec::new() }
    }

    /// Change the maximum age used by future recordings.
    pub fn set_max_age(&mut self, max_age: LocalDt)
        ensures
            final(self)@ == old(self)@,
            final(self).max_age_spec() == max_age@,
    {
        self.max_age = max_age;
    }

    /// The number of entries in the window.
    pub fn len(&self) -> (r: usize)
        ensures
            r == self@.len(),
    {
        self.entries.len()
    }

    /// The entry at position `i` (position zero is the oldest).
    pub fn get(&self, i: usize) -> (r: &(LocalTime, Value))
        requires
            i < self@.len(),
        ensures
            *r == self@[i as int],
    {
        &self.entries[i]
    }

    /// The oldest entry, if any.
    pub fn front(&self) -> (r: Option<&(LocalTime, Value)>)
        ensures
            match r {
                Some(e) => self@.len() > 0 && *e == self@[0],
                None => self@.len() == 0,
            },
    {
        if self.entries.len() > 0 {
            Some(&self.entries[0])
        } else {
            None
        }
    }

    /// The newest entry, if any.
    pub fn back(&self) -> (r: Option<&(LocalTime, Value)>)
        ensures
            match r {
                Some(e) => self@.len() > 0 && *e == self@[self@.len() - 1],
                None => self@.len() == 0,
            },
    {
        if self.entries.len() > 0 {
            Some(&self.entries[self.entries.len() - 1])
        } else {
            None
        }
    }

    /// Append `(sample_time, sample_value)` and evict every entry older than
    /// the maximum age, as seen from the current local time `now`.
    pub fn record(&mut self, now: LocalTime, sample_time: LocalTime, sample_value: Value)
        ensures
            final(self)@ == old(self)@.push((sample_time, sample_value)).filter(
                keeps(now@, old(self).max_age_spec()),
            ),
            final(self).max_age_spec() == old(self).max_age_spec(),
    {
        broadcast use group_filter_ensures;

        self.entries.push((sample_time, sample_value));
        let ghost full = self.entries@;
        let ghost pred = keeps::<Value>(now@, self.max_age@);
        let max_age_snapshot = self.max_age;
        let now_micros = now.to_micros();
        let max_age_micros = self.max_age.to_micros();

        let mut kept: Vec<(LocalTime, Value)> = Vec::new();
        let ghost mut taken: int = 0;
        assert(full.subrange(0, 0) =~= Seq::<(LocalTime, Value)>::empty());
        while self.entries.len() > 0
            invariant
                0 <= taken <= full.len(),
                self.entries@ == full.subrange(taken, full.len() as int),
                kept@ == full.subrange(0, taken).filter(pred),
                pred == keeps::<Value>(now_micros as int, max_age_micros as int),
                self.max_age == max_age_snapshot,
            decreases full.len() - taken,
        {
            let entry = self.entries.remove(0);
            let entry_micros = entry.0.to_micros();
            let is_fresh = (now_micros as i128) - (entry_micros as i128)
                <= (max_age_micros as i128);
            if is_fresh {
                kept.push(entry);
            }
            proof {
                assert(entry == full[taken]);
                assert(full.subrange(taken, full.len() as int).remove(0) =~= full.subrange(
                    taken + 1,
                    full.len() as int,
                ));
                let prefix = full.subrange(0, taken + 1);
                assert(prefix =~= full.subrange(0, taken).push(entry));
                assert(is_fresh == pred(entry));
                full.subrange(0, taken).lemma_filter_push(entry, pred);
                taken = taken + 1;
            }
        }
        assert(full.subrange(0, taken) =~= full);
        self.entries = kept;
    }
}

} // verus!
