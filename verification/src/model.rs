//! The in-memory beatmap the analyzers read.

use crate::quantize::{
    ticks_from_double_bits, ticks_of_double, units_from_single_bits, units_of_single,
};
use vstd::prelude::*;

verus! {

/// Largest magnitude a time may have, in ticks: two to the power 53.
pub const TIME_LIMIT: i64 = 9_007_199_254_740_992;

/// A playable timing point of the chart.
#[derive(Clone, Copy, Debug, PartialEq, Eq, Structural)]
pub struct NoteEvent {
    /// Onset, in ticks.
    pub start_time: i64,
    /// Release, in ticks; equal to the onset for a plain tap.
    pub end_time: i64,
    /// Horizontal position, in playfield units.
    pub x: i32,
    /// Vertical position, in playfield units.
    pub y: i32,
}

/// One piece of the tempo timeline: from `time` on, a beat lasts
/// `beat_length` ticks, until the next segment starts.
#[derive(Clone, Copy, Debug, PartialEq, Eq, Structural)]
pub struct TempoSegment {
    /// Start of the segment, in ticks.
    pub time: i64,
    /// Length of one beat, in ticks. At this grain, a thousandth of a
    /// millisecond, beat lengths that differ by less count as the same.
    pub beat_length: i64,
}

/// A chart: its notes in playing order and its tempo timeline.
#[derive(Clone, Debug)]
pub struct Beatmap {
    pub notes: Vec<NoteEvent>,
    pub timeline: Vec<TempoSegment>,
}

/// Whether `t` is a time the analyzers accept.
pub open spec fn time_in_range(t: int) -> bool {
    -TIME_LIMIT <= t <= TIME_LIMIT
}

/// Every note's onset and release are in range.
pub open spec fn notes_valid(notes: Seq<NoteEvent>) -> bool {
    forall|i: int| 0 <= i < notes.len() ==> (#[trigger] notes[i]).valid()
}

/// Every segment's start is in range.
pub open spec fn timeline_valid(timeline: Seq<TempoSegment>) -> bool {
    forall|i: int| 0 <= i < timeline.len() ==> (#[trigger] timeline[i]).valid()
}

impl NoteEvent {
    pub open spec fn valid(&self) -> bool {
        time_in_range(self.start_time as int) && time_in_range(self.end_time as int)
    }

    /// The note with the given onset and release, each a binary64 number of
    /// milliseconds given by its bits, at the position given by the bits of
    /// two binary32 coordinates. Times are rounded to the nearest tick and
    /// coordinates to the nearest unit.
    pub fn from_bits(start_time: u64, end_time: u64, x: u32, y: u32) -> (note: Self)
        ensures
            note.start_time == ticks_of_double(start_time),
            note.end_time == ticks_of_double(end_time),
            note.x == units_of_single(x),
            note.y == units_of_single(y),
            note.valid(),
    {
        NoteEvent {
            start_time: ticks_from_double_bits(start_time),
            end_time: ticks_from_double_bits(end_time),
            x: units_from_single_bits(x),
            y: units_from_single_bits(y),
        }
    }

    /// Tests whether both times are in range.
    pub fn is_valid(&self) -> (ok: bool)
        ensures
            ok == self.valid(),
    {
        -TIME_LIMIT <= self.start_time && self.start_time <= TIME_LIMIT && -TIME_LIMIT
            <= self.end_time && self.end_time <= TIME_LIMIT
    }
}

impl TempoSegment {
    pub open spec fn valid(&self) -> bool {
        time_in_range(self.time as int)
    }

    /// The segment with the given start and beat length, each a binary64
    /// number of milliseconds given by its bits, rounded to the nearest
    /// tick.
    pub fn from_bits(time: u64, beat_length: u64) -> (segment: Self)
        ensures
            segment.time == ticks_of_double(time),
            segment.beat_length == ticks_of_double(beat_length),
            segment.valid(),
    {
        TempoSegment {
            time: ticks_from_double_bits(time),
            beat_length: ticks_from_double_bits(beat_length),
        }
    }

    /// Tests whether the start is in range.
    pub fn is_valid(&self) -> (ok: bool)
        ensures
            ok == self.valid(),
    {
        -TIME_LIMIT <= self.time && self.time <= TIME_LIMIT
    }
}

impl Beatmap {
    pub open spec fn valid(&self) -> bool {
        notes_valid(self.notes@) && timeline_valid(self.timeline@)
    }

    /// Tests whether every time in the chart is in range.
    pub fn is_valid(&self) -> (ok: bool)
        ensures
            ok == self.valid(),
    {
        let mut i: usize = 0;
        while i < self.notes.len()
            invariant
                i <= self.notes.len(),
                forall|k: int| 0 <= k < i ==> (#[trigger] self.notes@[k]).valid(),
            decreases self.notes.len() - i,
        {
            if !self.notes[i].is_valid() {
                return false;
            }
            i += 1;
        }
        let mut j: usize = 0;
        while j < self.timeline.len()
            invariant
                j <= self.timeline.len(),
                forall|k: int| 0 <= k < self.notes.len() ==> (#[trigger] self.notes@[k]).valid(),
                forall|k: int| 0 <= k < j ==> (#[trigger] self.timeline@[k]).valid(),
            decreases self.timeline.len() - j,
        {
            if !self.timeline[j].is_valid() {
                return false;
            }
            j += 1;
        }
        true
    }
}

} // verus!
