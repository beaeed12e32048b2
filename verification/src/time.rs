//! Strongly tagged time algebra.
//!
//! Instants ([`Time`]) and spans ([`Dt`]) carry a phantom domain tag: the
//! local wall clock ([`LocalTag`]), simulated game time ([`GameTag`]), or
//! per-tick stream time ([`crate::tick::TickTag`]). Arithmetic is only
//! defined between values of the same tag, so mixing domains is a compile
//! error; the only bridges are the explicit named conversions such as
//! [`LocalDt::to_game_dt`]. All values count whole microseconds.

pub mod local;
pub mod periodic;
pub mod samples;
pub mod playback;
pub mod stream;
pub mod time_mapping;

use core::marker::PhantomData;
use vstd::prelude::*;

verus! {

/// Marker trait for time domain tags. Every arithmetic method of [`Time`]
/// and [`Dt`] takes both operands from one tag, and no cross-tag operation
/// exists, so mixing domains is rejected by the type checker rather than at
/// run time; the only bridges are the named conversions.
pub trait TimeTag: Copy {}

/// Domain tag for the local wall clock of this host.
#[derive(Debug, Clone, Copy)]
pub struct LocalTag;

/// Domain tag for simulated game time.
#[derive(Debug, Clone, Copy)]
pub struct GameTag;

impl TimeTag for LocalTag {}

impl TimeTag for GameTag {}

/// Largest magnitude, in microseconds, that the stateful components accept
/// for an incoming time or span (about two hundred eighty-five years).
/// Keeping inputs within this bound lets every internal sum, mean, and
/// warped increment be proved free of overflow.
pub const TIME_LIMIT_MICROS: i64 = 0x20_0000_0000_0000;

/// Whether a microsecond count is within [`TIME_LIMIT_MICROS`].
pub open spec fn in_time_range(x: int) -> bool {
    -(TIME_LIMIT_MICROS as int) <= x <= TIME_LIMIT_MICROS as int
}

/// Whether a mathematical integer is representable as an `i64`.
pub open spec fn fits_i64(x: int) -> bool {
    i64::MIN as int <= x <= i64::MAX as int
}

/// A span of time (a duration) in the domain `Tag`, counted in microseconds.
#[derive(Debug)]
pub struct Dt<Tag> {
    micros: i64,
    tag: PhantomData<Tag>,
}

/// An instant in the domain `Tag`: a span since the domain's zero point.
#[derive(Debug)]
pub struct Time<Tag> {
    micros: i64,
    tag: PhantomData<Tag>,
}

/// A span of local wall-clock time.
pub type LocalDt = Dt<LocalTag>;

/// An instant of local wall-clock time.
pub type LocalTime = Time<LocalTag>;

/// A span of simulated game time.
pub type GameDt = Dt<GameTag>;

/// An instant of simulated game time.
pub type GameTime = Time<GameTag>;

impl<Tag> Clone for Dt<Tag> {
    /// A cloned span keeps its microsecond count.
    fn clone(&self) -> (r: Self)
        ensures
            r == *self,
    {
        Dt { micros: self.micros, tag: PhantomData }
    }
}

impl<Tag> Copy for Dt<Tag> {

}

impl<Tag> Clone for Time<Tag> {
    /// A cloned instant keeps its microsecond count.
    fn clone(&self) -> (r: Self)
        ensures
            r == *self,
    {
        Time { micros: self.micros, tag: PhantomData }
    }
}

impl<Tag> Copy for Time<Tag> {

}

impl<Tag> View for Dt<Tag> {
    type V = int;

    /// A span is viewed as its signed microsecond count.
    closed spec fn view(&self) -> int {
        self.micros as int
    }
}

impl<Tag> View for Time<Tag> {
    type V = int;

    /// An instant is viewed as its signed microsecond offset from zero.
    closed spec fn view(&self) -> int {
        self.micros as int
    }
}

impl<Tag> Dt<Tag> {
    /// The span of `micros` microseconds.
    pub fn from_micros(micros: i64) -> (r: Self)
        ensures
            r@ == micros as int,
    {
        Dt { micros, tag: PhantomData }
    }

    /// The span of `millis` milliseconds.
    pub fn from_millis(millis: i64) -> (r: Self)
        requires
            fits_i64(millis * 1000),
        ensures
            r@ == millis * 1000,
    {
        Dt { micros: millis * 1000, tag: PhantomData }
    }

    /// The span of `secs` seconds.
    pub fn from_secs(secs: i64) -> (r: Self)
        requires
            fits_i64(secs * 1_000_000),
        ensures
            r@ == secs * 1_000_000,
    {
        Dt { micros: secs * 1_000_000, tag: PhantomData }
    }

    /// The empty span.
    pub fn zero() -> (r: Self)
        ensures
            r@ == 0,
    {
        Dt { micros: 0, tag: PhantomData }
    }

    /// The microsecond count of this span.
    pub fn to_micros(self) -> (r: i64)
        ensures
            r as int == self@,
    {
        self.micros
    }

    /// The larger of two spans.
    pub fn max(self, rhs: Self) -> (r: Self)
        ensures
            r@ == if self@ >= rhs@ { self@ } else { rhs@ },
    {
        if self.micros >= rhs.micros { self } else { rhs }
    }

    /// The smaller of two spans.
    pub fn min(self, rhs: Self) -> (r: Self)
        ensures
            r@ == if self@ <= rhs@ { self@ } else { rhs@ },
    {
        if self.micros <= rhs.micros { self } else { rhs }
    }

    /// The sum of two spans.
    pub fn add(self, rhs: Self) -> (r: Self)
        requires
            fits_i64(self@ + rhs@),
        ensures
            r@ == self@ + rhs@,
    {
        Dt { micros: self.micros + rhs.micros, tag: PhantomData }
    }

    /// The difference of two spans.
    pub fn sub(self, rhs: Self) -> (r: Self)
        requires
            fits_i64(self@ - rhs@),
        ensures
            r@ == self@ - rhs@,
    {
        Dt { micros: self.micros - rhs.micros, tag: PhantomData }
    }

    /// The negated span.
    pub fn neg(self) -> (r: Self)
        requires
            fits_i64(-self@),
        ensures
            r@ == -self@,
    {
        Dt { micros: -self.micros, tag: PhantomData }
    }

    /// The span scaled by an integer factor.
    pub fn scale(self, factor: i64) -> (r: Self)
        requires
            fits_i64(self@ * factor),
        ensures
            r@ == self@ * factor,
    {
        let wide: i128 = (self.micros as i128) * (factor as i128);
        Dt { micros: wide as i64, tag: PhantomData }
    }

    /// Whether this span is at most `rhs`.
    pub fn le(self, rhs: Self) -> (r: bool)
        ensures
            r == (self@ <= rhs@),
    {
        self.micros <= rhs.micros
    }

    /// Whether this span is strictly less than `rhs`.
    pub fn lt(self, rhs: Self) -> (r: bool)
        ensures
            r == (self@ < rhs@),
    {
        self.micros < rhs.micros
    }

    /// Whether two spans are equal.
    pub fn eq_val(self, rhs: Self) -> (r: bool)
        ensures
            r == (self@ == rhs@),
    {
        self.micros == rhs.micros
    }
}

impl Dt<LocalTag> {
    /// Reinterpret a local span as a game span. Both domains advance at one
    /// second per second, so the microsecond count is unchanged.
    pub fn to_game_dt(self) -> (r: Dt<GameTag>)
        ensures
            r@ == self@,
    {
        Dt { micros: self.micros, tag: PhantomData }
    }
}

impl Dt<GameTag> {
    /// Reinterpret a game span as a local span. Both domains advance at one
    /// second per second, so the microsecond count is unchanged.
    pub fn to_local_dt(self) -> (r: Dt<LocalTag>)
        ensures
            r@ == self@,
    {
        Dt { micros: self.micros, tag: PhantomData }
    }

    /// The period of a cycle repeating `hz` times per second, rounded down
    /// to whole microseconds.
    pub fn from_hz(hz: i64) -> (r: Self)
        requires
            0 < hz <= 10_000,
        ensures
            r@ == 1_000_000int / hz as int,
    {
        Dt { micros: 1_000_000i64 / hz, tag: PhantomData }
    }
}

impl<Tag> Time<Tag> {
    /// The instant with the given microsecond offset, as a spec-level value.
    pub closed spec fn spec_from_micros(micros: i64) -> Self {
        Time { micros, tag: PhantomData }
    }

    /// The view of a spec-constructed instant is its microsecond count.
    pub broadcast proof fn lemma_spec_from_micros_view(micros: i64)
        ensures
            (#[trigger] Time::<Tag>::spec_from_micros(micros))@ == micros as int,
    {
    }

    /// The instant `dt` after the domain's zero point.
    pub fn from_dt(dt: Dt<Tag>) -> (r: Self)
        ensures
            r@ == dt@,
    {
        Time { micros: dt.micros, tag: PhantomData }
    }

    /// The instant `micros` microseconds after the domain's zero point.
    pub fn from_micros(micros: i64) -> (r: Self)
        ensures
            r@ == micros as int,
            r == Time::<Tag>::spec_from_micros(micros),
    {
        Time { micros, tag: PhantomData }
    }

    /// The instant `millis` milliseconds after the domain's zero point.
    pub fn from_millis(millis: i64) -> (r: Self)
        requires
            fits_i64(millis * 1000),
        ensures
            r@ == millis * 1000,
    {
        Time { micros: millis * 1000, tag: PhantomData }
    }

    /// The instant `secs` seconds after the domain's zero point.
    pub fn from_secs(secs: i64) -> (r: Self)
        requires
            fits_i64(secs * 1_000_000),
        ensures
            r@ == secs * 1_000_000,
    {
        Time { micros: secs * 1_000_000, tag: PhantomData }
    }

    /// The domain's zero instant.
    pub fn zero() -> (r: Self)
        ensures
            r@ == 0,
    {
        Time { micros: 0, tag: PhantomData }
    }

    /// The span from the domain's zero point to this instant.
    pub fn to_dt(self) -> (r: Dt<Tag>)
        ensures
            r@ == self@,
    {
        Dt { micros: self.micros, tag: PhantomData }
    }

    /// The microsecond offset of this instant from the domain's zero point.
    pub fn to_micros(self) -> (r: i64)
        ensures
            r as int == self@,
    {
        self.micros
    }

    /// The later of two instants.
    pub fn max(self, rhs: Self) -> (r: Self)
        ensures
            r@ == if self@ >= rhs@ { self@ } else { rhs@ },
    {
        if self.micros >= rhs.micros { self } else { rhs }
    }

    /// The earlier of two instants.
    pub fn min(self, rhs: Self) -> (r: Self)
        ensures
            r@ == if self@ <= rhs@ { self@ } else { rhs@ },
    {
        if self.micros <= rhs.micros { self } else { rhs }
    }

    /// The instant `rhs` after this one.
    pub fn add(self, rhs: Dt<Tag>) -> (r: Self)
        requires
            fits_i64(self@ + rhs@),
        ensures
            r@ == self@ + rhs@,
    {
        Time { micros: self.micros + rhs.micros, tag: PhantomData }
    }

    /// The instant `rhs` before this one.
    pub fn sub(self, rhs: Dt<Tag>) -> (r: Self)
        requires
            fits_i64(self@ - rhs@),
        ensures
            r@ == self@ - rhs@,
    {
        Time { micros: self.micros - rhs.micros, tag: PhantomData }
    }

    /// The span from `rhs` to this instant.
    pub fn sub_time(self, rhs: Self) -> (r: Dt<Tag>)
        requires
            fits_i64(self@ - rhs@),
        ensures
            r@ == self@ - rhs@,
    {
        Dt { micros: self.micros - rhs.micros, tag: PhantomData }
    }

    /// Whether this instant is at or before `rhs`.
    pub fn le(self, rhs: Self) -> (r: bool)
        ensures
            r == (self@ <= rhs@),
    {
        self.micros <= rhs.micros
    }

    /// Whether this instant is strictly before `rhs`.
    pub fn lt(self, rhs: Self) -> (r: bool)
        ensures
            r == (self@ < rhs@),
    {
        self.micros < rhs.micros
    }

    /// Whether two instants are equal.
    pub fn eq_val(self, rhs: Self) -> (r: bool)
        ensures
            r == (self@ == rhs@),
    {
        self.micros == rhs.micros
    }
}

/// Law: adding to an instant `a` the span from `a` to a second instant `b`
/// lands exactly on `b`. The microsecond representation makes the round trip
/// exact, with no tolerance.
pub proof fn lemma_time_difference_roundtrip<Tag>(a: Time<Tag>, b: Time<Tag>)
    ensures
        a@ + (b@ - a@) == b@,
{
}

/// Law: moving an instant `a` forward by a span `d` and then taking the
/// difference against `a` returns exactly `d`; equivalently, `(a + d) - d`
/// is `a` again. The microsecond representation makes this exact.
pub proof fn lemma_span_roundtrip<Tag>(a: Time<Tag>, d: Dt<Tag>)
    ensures
        (a@ + d@) - d@ == a@,
        (a@ + d@) - a@ == d@,
{
}

} // verus!
