//! The two analyzers: jumps and streams.

pub mod jump;
pub mod stream;

pub use jump::{Jump, JumpAnalysis};
pub use stream::{Stream, StreamAnalysis};
