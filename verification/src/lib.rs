//! A timing substrate for real-time multiplayer games over unreliable
//! networks.
//!
//! The library lets a client render a smooth, low-latency approximation of a
//! remote server's simulation despite variable latency, jitter, packet loss,
//! and out-of-order delivery. It provides a strongly tagged time algebra, a
//! sliding sample window, a unit-slope online time mapping, a playback clock
//! that chases the predicted stream time, dejitter and tick playback buffers,
//! a deterministic network simulator, and sliding-window metrics.
//!
//! All time values are carried as whole microseconds, so every stated
//! contract is exact integer arithmetic.

pub mod join;
pub mod metrics;
mod mock;
mod tick;
mod tick_buffer;
mod time;
mod types;

pub use metrics::{Gauge, Metrics};
pub use mock::channel::{MockChannel, MockChannelParams};
pub use mock::net::{MockNet, MockSocket, MockSocketParams};
pub use tick_buffer::SenderTickBuffer;
pub use tick::dejitter::DejitterBuffer;
pub use tick::num::{TickNum, TickTag, TickTime};
pub use tick::playback::{Interpolation, TickPlayback, TickPlaybackParams};
pub use time::local::LocalClock;
pub use time::periodic::PeriodicTimer;
pub use time::playback::{PlaybackClock, PlaybackClockParams};
pub use time::samples::Samples;
pub use time::stream::predict_stream_time;
pub use time::time_mapping::{TimeMapping, TimeMappingConfig};
pub use time::{Dt, GameDt, GameTag, GameTime, LocalDt, LocalTag, LocalTime, Time, TimeTag};
pub use time::TIME_LIMIT_MICROS;
pub use types::{EntityId, PlayerId};
