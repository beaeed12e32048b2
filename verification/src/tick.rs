//! Tick streams: dense tick numbering, dejittering of inputs keyed by tick
//! number, and playback of received game-state ticks.

pub mod dejitter;
pub mod num;
pub mod playback;
