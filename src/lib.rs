//! Turns decoded Standard MIDI File tracks into one tick-ordered stream of
//! musical events, then schedules that stream in wall-clock time under the
//! tempo changes it carries.
//!
//! All quantities are kept exact: beats are tick counts over the header's
//! ticks per quarter note, normalized controller values are ratios of the raw
//! bytes, and elapsed time is an integer count of
//! `1 / (ticks_per_quarter * 1_000_000)` seconds.

pub mod model;
pub mod dispatcher;
pub mod merge;
pub mod decode;
pub mod raw;
pub mod translate;

pub use decode::parse;
pub use dispatcher::{is_ordered, DispatchedEvent, Dispatcher};
pub use model::{Event, EventBody};
pub use raw::{ParseError, RawEvent, RawMessage, Timing};
pub use translate::translate;
