//! The driver-owned local clock.
//!
//! The driver samples its time source once per frame and feeds the new
//! instant to [`LocalClock::set_local_time`]; every other component takes the
//! current instant as an explicit argument, so the whole core stays
//! single-threaded and synchronous.

use vstd::prelude::*;

use crate::time::{LocalDt, LocalTime, in_time_range};

verus! {

/// The local wall-clock time as last reported by the driver.
#[derive(Debug, Clone)]
pub struct LocalClock {
    local_time: Option<LocalTime>,
}

impl LocalClock {
    /// The current instant: the last value set, or zero before the first
    /// [`LocalClock::set_local_time`].
    pub closed spec fn current(&self) -> int {
        match self.local_time {
            Some(t) => t@,
            None => 0,
        }
    }

    /// Whether the driver has reported a time yet.
    pub closed spec fn is_set(&self) -> bool {
        self.local_time is Some
    }

    /// The stored instant stays within [`crate::time::TIME_LIMIT_MICROS`].
    pub open spec fn wf(&self) -> bool {
        in_time_range(self.current())
    }

    /// A clock that has not been set yet; it reads as zero.
    pub fn new() -> (r: Self)
        ensures
            r.wf(),
            !r.is_set(),
            r.current() == 0,
    {
        LocalClock { local_time: None }
    }

    /// The current instant, as an exec value.
    pub fn local_time(&self) -> (r: LocalTime)
        ensures
            r@ == self.current(),
    {
        match self.local_time {
            Some(t) => t,
            None => LocalTime::zero(),
        }
    }

    /// Report a new instant. Returns the span since the previous one,
    /// clamped to be nonnegative; the first report returns zero.
    pub fn set_local_time(&mut self, new_local_time: LocalTime) -> (dt: LocalDt)
        requires
            old(self).wf(),
            in_time_range(new_local_time@),
        ensures
            final(self).wf(),
            final(self).is_set(),
            final(self).current() == new_local_time@,
            dt@ == if old(self).is_set() && new_local_time@ >= old(self).current() {
                new_local_time@ - old(self).current()
            } else {
                0
            },
    {
        let dt = match self.local_time {
            Some(t) => {
                let raw = new_local_time.sub_time(t);
                raw.max(LocalDt::zero())
            },
            None => LocalDt::zero(),
        };
        self.local_time = Some(new_local_time);
        dt
    }

    /// Move the clock forward by `dt`.
    pub fn advance(&mut self, dt: LocalDt)
        requires
            old(self).wf(),
            in_time_range(old(self).current() + dt@),
        ensures
            final(self).wf(),
            final(self).is_set(),
            final(self).current() == old(self).current() + dt@,
    {
        let now = self.local_time();
        self.local_time = Some(now.add(dt));
    }
}

} // verus!
