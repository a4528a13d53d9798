//! Building blocks for moving audio samples and MIDI bytes between a device
//! callback and an application thread.

pub mod intermittent;
pub mod midi;
pub mod midir;
pub mod resample;
pub mod ring;
pub mod sink;
pub mod source;
pub mod stream;
pub mod time;

pub use intermittent::{IntermittentSink, IntermittentSource, TimedValue};
pub use stream::{CompensationStrategy, StreamSink, StreamSource};
pub use time::DeltaDuration;
