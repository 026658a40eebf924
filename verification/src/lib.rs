//! Pattern detection for rhythm-game beatmaps.
//!
//! A beatmap is an ordered sequence of timestamped notes plus a tempo
//! timeline. The crate reduces the timeline to one representative tempo,
//! cuts the notes into rhythmically regular runs and scores how strongly the
//! map shows two play patterns, jumps and streams.
//!
//! All quantities are whole numbers. Times and beat lengths are counted in
//! ticks, a tick being a thousandth of a millisecond; tempo is counted in
//! thousandths of a beat per minute; scores are counted in millionths.
//! Where a parser hands out binary fractions, `quantize` turns their bits
//! into ticks and units.

pub mod analyze;
pub mod model;
pub mod pattern;
pub mod quantize;
pub mod run_laws;
pub mod runs;
pub mod score;
pub mod tempo;
pub mod window;

pub use model::{Beatmap, NoteEvent, TempoSegment};
pub use tempo::bpm;
