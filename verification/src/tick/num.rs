//! Monotone tick indices and their conversions into time domains.

use vstd::prelude::*;

use crate::time::{GameDt, GameTime, Time, TimeTag, fits_i64};

verus! {

/// Domain tag for per-tick stream time: one tick counts as one second in
/// this domain, a dimensionless scaling chosen so the regression machinery
/// of [`crate::time`] can be reused on tick numbers.
#[derive(Debug, Clone, Copy)]
pub struct TickTag;

impl TimeTag for TickTag {}

/// An instant of stream time, where one tick equals one second.
pub type TickTime = Time<TickTag>;

/// Largest tick index that converts to a stream time within
/// [`crate::time::TIME_LIMIT_MICROS`].
pub const TICK_NUM_LIMIT: u64 = 0x2_0000_0000;

/// A monotone index of a simulation tick.
#[derive(Debug, Clone, Copy, PartialEq, Eq, Structural, Hash)]
pub struct TickNum(pub(crate) u64);

impl View for TickNum {
    type V = int;

    /// A tick number is viewed as its index.
    closed spec fn view(&self) -> int {
        self.0 as int
    }
}

impl TickNum {
    /// A tick number is never negative.
    pub broadcast proof fn lemma_nonneg(self)
        ensures
            #[trigger] self@ >= 0,
    {
    }

    /// The first tick.
    pub fn zero() -> (r: Self)
        ensures
            r@ == 0,
    {
        TickNum(0)
    }

    /// The tick whose number is `num`.
    pub fn from_u64(num: u64) -> (r: Self)
        ensures
            r@ == num as int,
    {
        TickNum(num)
    }

    /// The tick a stream time falls in: one tick per second, instants before
    /// the stream's zero mapping to the first tick.
    pub fn from_tick_time(tick_time: TickTime) -> (r: Self)
        ensures
            r@ == if tick_time@ < 0 {
                0
            } else {
                tick_time@ / 1_000_000
            },
    {
        let micros = tick_time.to_micros();
        if micros < 0 {
            TickNum(0)
        } else {
            TickNum((micros / 1_000_000) as u64)
        }
    }

    /// The next tick.
    pub fn succ(self) -> (r: Self)
        requires
            self@ < u64::MAX,
        ensures
            r@ == self@ + 1,
    {
        TickNum(self.0 + 1)
    }

    /// The tick's index.
    pub fn to_u64(self) -> (r: u64)
        ensures
            r as int == self@,
    {
        self.0
    }

    /// The stream-time instant of this tick, at one second per tick.
    pub fn to_tick_time(self) -> (r: TickTime)
        requires
            self@ <= TICK_NUM_LIMIT,
        ensures
            r@ == self@ * 1_000_000,
            r == TickTime::spec_from_micros((self@ * 1_000_000) as i64),
    {
        Time::from_micros((self.0 as i64) * 1_000_000)
    }

    /// The game-time instant of this tick, given the game-time span of one
    /// tick.
    pub fn to_game_time(self, tick_dt: GameDt) -> (r: GameTime)
        requires
            fits_i64(self@ * tick_dt@),
        ensures
            r@ == self@ * tick_dt@,
    {
        let wide: i128 = (self.0 as i128) * (tick_dt.to_micros() as i128);
        Time::from_micros(wide as i64)
    }

    /// Whether this tick comes at or before `rhs`.
    pub fn le(self, rhs: Self) -> (r: bool)
        ensures
            r == (self@ <= rhs@),
    {
        self.0 <= rhs.0
    }

    /// Whether this tick comes strictly before `rhs`.
    pub fn lt(self, rhs: Self) -> (r: bool)
        ensures
            r == (self@ < rhs@),
    {
        self.0 < rhs.0
    }
}

} // verus!
