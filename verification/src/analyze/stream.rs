//! Streams: rhythmically regular, densely packed runs of notes, a quarter of
//! a beat apart.

use crate::model::{notes_valid, Beatmap, NoteEvent};
use crate::pattern::{whole_metrics, PatternKind};
use crate::score::{Bucket, Metrics, Thresholds, Weights, SCORE_ONE};
use crate::tempo::{
    bpm, bpm_of_beat_length, last_release, representative_tempo, BPM_FLOOR, BPM_NUMERATOR,
};
use crate::window::{measure_with, sliding_metrics, Segmentation, WINDOW_SIZE};
use vstd::prelude::*;

verus! {

/// Streams are expected every quarter of a beat.
pub const STREAM_SUBDIVISION: i64 = 4;

/// Shortest run, in gaps, that counts as a stream pattern.
pub const STREAM_SHORT_FROM: usize = 6;

/// Shortest stream pattern of medium length.
pub const STREAM_MEDIUM_FROM: usize = 10;

/// Shortest long stream pattern.
pub const STREAM_LONG_FROM: usize = 20;

/// Weight of the density, in hundredths.
pub const STREAM_WEIGHT_DENSITY: u8 = 30;

/// Weight of the consistency, in hundredths.
pub const STREAM_WEIGHT_CONSISTENCY: u8 = 20;

/// Weight of the variety, in hundredths.
pub const STREAM_WEIGHT_VARIETY: u8 = 20;

/// Weight of the share of long patterns, in hundredths.
pub const STREAM_WEIGHT_LONG_RATIO: u8 = 20;

/// Weight of the average pattern length, in hundredths.
pub const STREAM_WEIGHT_RUN_LENGTH: u8 = 20;

/// Analyzes a beatmap for streams.
pub struct Stream {
    map: Beatmap,
}

/// What the stream analysis found. Scores are in millionths.
#[derive(Clone, Copy, Debug, PartialEq, Eq, Structural)]
pub struct StreamAnalysis {
    pub overall_confidence: u64,
    pub short_streams: usize,
    pub medium_streams: usize,
    pub long_streams: usize,
    pub max_stream_length: usize,
    pub stream_density: u64,
    pub bpm_consistency: u64,
}

/// The interval, the classes and the weights of streams.
pub open spec fn stream_pattern() -> PatternKind {
    PatternKind {
        subdivision: STREAM_SUBDIVISION,
        distance_gate: None,
        thresholds: Thresholds {
            short_from: STREAM_SHORT_FROM,
            medium_from: STREAM_MEDIUM_FROM,
            long_from: STREAM_LONG_FROM,
        },
        weights: Weights {
            density: STREAM_WEIGHT_DENSITY,
            consistency: STREAM_WEIGHT_CONSISTENCY,
            variety: STREAM_WEIGHT_VARIETY,
            long_ratio: STREAM_WEIGHT_LONG_RATIO,
            run_length: STREAM_WEIGHT_RUN_LENGTH,
        },
    }
}

/// Every run length falls in exactly one class of streams: below six gaps it is
/// no pattern, from six gaps on it is short, from ten on medium and from
/// twenty on long.
pub proof fn lemma_stream_classes(len: int)
    ensures
        stream_pattern().thresholds.valid(),
        stream_pattern().thresholds.bucket_of(len) == (if len < 6 {
            Bucket::Below
        } else if len < 10 {
            Bucket::Short
        } else if len < 20 {
            Bucket::Medium
        } else {
            Bucket::Long
        }),
{
}

/// The stream analysis of `notes` at `tempo`, from one scan over all notes.
pub open spec fn stream_analysis_at(notes: Seq<NoteEvent>, tempo: int) -> StreamAnalysis {
    stream_analysis_of(whole_metrics(stream_pattern(), notes, tempo))
}

/// The stream analysis of `notes` at `tempo`, from one scan per window.
pub open spec fn sliding_stream_analysis_at(notes: Seq<NoteEvent>, tempo: int) -> StreamAnalysis {
    stream_analysis_of(sliding_metrics(stream_pattern(), notes, tempo))
}

/// The stream analysis that the metrics amount to. The longest stream is the
/// longest run that counts as a pattern.
pub open spec fn stream_analysis_of(m: Metrics) -> StreamAnalysis {
    StreamAnalysis {
        overall_confidence: m.overall_confidence,
        short_streams: m.short,
        medium_streams: m.medium,
        long_streams: m.long,
        max_stream_length: m.longest_pattern,
        stream_density: m.density,
        bpm_consistency: m.consistency,
    }
}

/// The analysis of a chart in which no stream was found.
pub open spec fn no_streams() -> StreamAnalysis {
    StreamAnalysis {
        overall_confidence: 0,
        short_streams: 0,
        medium_streams: 0,
        long_streams: 0,
        max_stream_length: 0,
        stream_density: 0,
        bpm_consistency: 0,
    }
}

/// The interval, the classes and the weights of streams.
pub fn stream_kind() -> (kind: PatternKind)
    ensures
        kind == stream_pattern(),
        kind.valid(),
        kind.thresholds.valid(),
{
    PatternKind {
        subdivision: STREAM_SUBDIVISION,
        distance_gate: None,
        thresholds: Thresholds {
            short_from: STREAM_SHORT_FROM,
            medium_from: STREAM_MEDIUM_FROM,
            long_from: STREAM_LONG_FROM,
        },
        weights: Weights {
            density: STREAM_WEIGHT_DENSITY,
            consistency: STREAM_WEIGHT_CONSISTENCY,
            variety: STREAM_WEIGHT_VARIETY,
            long_ratio: STREAM_WEIGHT_LONG_RATIO,
            run_length: STREAM_WEIGHT_RUN_LENGTH,
        },
    }
}

/// Analyzes `notes` for streams at a given tempo, in thousandths of a beat per
/// minute, with one scan over all notes.
pub fn analyze_streams(notes: &[NoteEvent], tempo: u64) -> (analysis: StreamAnalysis)
    requires
        notes_valid(notes@),
        BPM_FLOOR <= tempo <= BPM_NUMERATOR,
    ensures
        analysis == stream_analysis_at(notes@, tempo as int),
        analysis.overall_confidence <= SCORE_ONE,
        notes@.len() == 0 ==> analysis == no_streams(),
{
    analyze_streams_with(Segmentation::Whole, notes, tempo)
}

/// Analyzes `notes` for streams at a given tempo, in thousandths of a beat per
/// minute, scanning them in the given way.
pub fn analyze_streams_with(mode: Segmentation, notes: &[NoteEvent], tempo: u64) -> (analysis:
    StreamAnalysis)
    requires
        notes_valid(notes@),
        BPM_FLOOR <= tempo <= BPM_NUMERATOR,
        mode == Segmentation::Sliding ==> 4 * notes@.len() + WINDOW_SIZE <= usize::MAX,
    ensures
        mode == Segmentation::Whole ==> analysis == stream_analysis_at(notes@, tempo as int),
        mode == Segmentation::Sliding ==> analysis == sliding_stream_analysis_at(
            notes@,
            tempo as int,
        ),
        analysis.overall_confidence <= SCORE_ONE,
        notes@.len() == 0 ==> analysis == no_streams(),
{
    let kind = stream_kind();
    let m = measure_with(mode, notes, tempo, &kind);
    StreamAnalysis {
        overall_confidence: m.overall_confidence,
        short_streams: m.short,
        medium_streams: m.medium,
        long_streams: m.long,
        max_stream_length: m.longest_pattern,
        stream_density: m.density,
        bpm_consistency: m.consistency,
    }
}

impl Stream {
    /// The beatmap under analysis.
    pub closed spec fn beatmap(&self) -> Beatmap {
        self.map
    }

    /// Creates a new stream analyzer for the given beatmap.
    pub fn new(map: Beatmap) -> (analyzer: Self)
        ensures
            analyzer.beatmap() == map,
    {
        Self { map }
    }

    /// Analyzes the beatmap for streams: estimates the tempo from the timeline
    /// and the release of the last note, then scans all notes once and
    /// scores them at that tempo. The beatmap is left as it was.
    pub fn analyze(&mut self) -> (analysis: StreamAnalysis)
        requires
            old(self).beatmap().valid(),
        ensures
            final(self).beatmap() == old(self).beatmap(),
            analysis == stream_analysis_at(
                old(self).beatmap().notes@,
                representative_tempo(
                    old(self).beatmap().timeline@,
                    last_release(old(self).beatmap().notes@),
                ),
            ),
            old(self).beatmap().timeline@.len() == 1 ==> analysis == stream_analysis_at(
                old(self).beatmap().notes@,
                bpm_of_beat_length(old(self).beatmap().timeline@[0].beat_length as int),
            ),
            analysis.overall_confidence <= SCORE_ONE,
            old(self).beatmap().notes@.len() == 0 ==> analysis == no_streams(),
    {
        self.analyze_with(Segmentation::Whole)
    }

    /// Analyzes the beatmap for streams as `analyze` does, scanning the notes
    /// in the given way.
    pub fn analyze_with(&mut self, mode: Segmentation) -> (analysis: StreamAnalysis)
        requires
            old(self).beatmap().valid(),
            mode == Segmentation::Sliding ==> 4 * old(self).beatmap().notes@.len() + WINDOW_SIZE
                <= usize::MAX,
        ensures
            final(self).beatmap() == old(self).beatmap(),
            mode == Segmentation::Whole ==> analysis == stream_analysis_at(
                old(self).beatmap().notes@,
                representative_tempo(
                    old(self).beatmap().timeline@,
                    last_release(old(self).beatmap().notes@),
                ),
            ),
            mode == Segmentation::Sliding ==> analysis == sliding_stream_analysis_at(
                old(self).beatmap().notes@,
                representative_tempo(
                    old(self).beatmap().timeline@,
                    last_release(old(self).beatmap().notes@),
                ),
            ),
            old(self).beatmap().timeline@.len() == 1 ==> analysis == (match mode {
                Segmentation::Whole => stream_analysis_at(
                    old(self).beatmap().notes@,
                    bpm_of_beat_length(old(self).beatmap().timeline@[0].beat_length as int),
                ),
                Segmentation::Sliding => sliding_stream_analysis_at(
                    old(self).beatmap().notes@,
                    bpm_of_beat_length(old(self).beatmap().timeline@[0].beat_length as int),
                ),
            }),
            analysis.overall_confidence <= SCORE_ONE,
            old(self).beatmap().notes@.len() == 0 ==> analysis == no_streams(),
    {
        let n: usize = self.map.notes.len();
        let tempo: u64 = if n > 0 {
            bpm(Some(&self.map.notes[n - 1]), self.map.timeline.as_slice())
        } else {
            bpm(None, self.map.timeline.as_slice())
        };
        let analysis = analyze_streams_with(mode, self.map.notes.as_slice(), tempo);
        analysis
    }
}

} // verus!
