//! Jumps: rhythmically regular runs of widely spaced notes, half a beat
//! apart.

use crate::model::{notes_valid, Beatmap, NoteEvent};
use crate::pattern::{whole_metrics, PatternKind};
use crate::score::{Bucket, Metrics, Thresholds, Weights, SCORE_ONE};
use crate::tempo::{
    bpm, bpm_of_beat_length, last_release, representative_tempo, BPM_FLOOR, BPM_NUMERATOR,
};
use crate::window::{measure_with, sliding_metrics, Segmentation, WINDOW_SIZE};
use vstd::prelude::*;

verus! {

/// Jumps are expected every half beat.
pub const JUMP_SUBDIVISION: i64 = 2;

/// Least distance between the two notes of a jump, in playfield units.
pub const JUMP_DISTANCE: u32 = 120;

/// Shortest run, in gaps, that counts as a jump pattern.
pub const JUMP_SHORT_FROM: usize = 4;

/// Shortest jump pattern of medium length.
pub const JUMP_MEDIUM_FROM: usize = 7;

/// Shortest long jump pattern.
pub const JUMP_LONG_FROM: usize = 12;

/// Weight of the density, in hundredths.
pub const JUMP_WEIGHT_DENSITY: u8 = 40;

/// Weight of the consistency, in hundredths.
pub const JUMP_WEIGHT_CONSISTENCY: u8 = 20;

/// Weight of the variety, in hundredths.
pub const JUMP_WEIGHT_VARIETY: u8 = 35;

/// Weight of the share of long patterns, in hundredths.
pub const JUMP_WEIGHT_LONG_RATIO: u8 = 45;

/// Weight of the average pattern length, in hundredths.
pub const JUMP_WEIGHT_RUN_LENGTH: u8 = 30;

/// Analyzes a beatmap for jumps.
pub struct Jump {
    map: Beatmap,
}

/// What the jump analysis found. Scores are in millionths.
#[derive(Clone, Copy, Debug, PartialEq, Eq, Structural)]
pub struct JumpAnalysis {
    pub overall_confidence: u64,
    pub total_jump_count: usize,
    pub max_jump_length: usize,
    pub long_jumps: usize,
    pub medium_jumps: usize,
    pub short_jumps: usize,
    pub jump_density: u64,
    pub bpm_consistency: u64,
}

/// The interval, the distance gate, the classes and the weights of jumps.
pub open spec fn jump_pattern() -> PatternKind {
    PatternKind {
        subdivision: JUMP_SUBDIVISION,
        distance_gate: Some(JUMP_DISTANCE),
        thresholds: Thresholds {
            short_from: JUMP_SHORT_FROM,
            medium_from: JUMP_MEDIUM_FROM,
            long_from: JUMP_LONG_FROM,
        },
        weights: Weights {
            density: JUMP_WEIGHT_DENSITY,
            consistency: JUMP_WEIGHT_CONSISTENCY,
            variety: JUMP_WEIGHT_VARIETY,
            long_ratio: JUMP_WEIGHT_LONG_RATIO,
            run_length: JUMP_WEIGHT_RUN_LENGTH,
        },
    }
}

/// Every run length falls in exactly one class of jumps: below four gaps it is
/// no pattern, from four gaps on it is short, from seven on medium and from
/// twelve on long.
pub proof fn lemma_jump_classes(len: int)
    ensures
        jump_pattern().thresholds.valid(),
        jump_pattern().thresholds.bucket_of(len) == (if len < 4 {
            Bucket::Below
        } else if len < 7 {
            Bucket::Short
        } else if len < 12 {
            Bucket::Medium
        } else {
            Bucket::Long
        }),
{
}

/// The jump analysis of `notes` at `tempo`, from one scan over all notes.
pub open spec fn jump_analysis_at(notes: Seq<NoteEvent>, tempo: int) -> JumpAnalysis {
    jump_analysis_of(whole_metrics(jump_pattern(), notes, tempo))
}

/// The jump analysis of `notes` at `tempo`, from one scan per window.
pub open spec fn sliding_jump_analysis_at(notes: Seq<NoteEvent>, tempo: int) -> JumpAnalysis {
    jump_analysis_of(sliding_metrics(jump_pattern(), notes, tempo))
}

/// The jump analysis that the metrics amount to. The longest jump is the
/// longest run of all, also where it is too short to count as a pattern.
pub open spec fn jump_analysis_of(m: Metrics) -> JumpAnalysis {
    JumpAnalysis {
        overall_confidence: m.overall_confidence,
        total_jump_count: m.total,
        max_jump_length: m.longest_run,
        long_jumps: m.long,
        medium_jumps: m.medium,
        short_jumps: m.short,
        jump_density: m.density,
        bpm_consistency: m.consistency,
    }
}

/// The analysis of a chart in which no jump was found.
pub open spec fn no_jumps() -> JumpAnalysis {
    JumpAnalysis {
        overall_confidence: 0,
        total_jump_count: 0,
        max_jump_length: 0,
        long_jumps: 0,
        medium_jumps: 0,
        short_jumps: 0,
        jump_density: 0,
        bpm_consistency: 0,
    }
}

/// The interval, the distance gate, the classes and the weights of jumps.
pub fn jump_kind() -> (kind: PatternKind)
    ensures
        kind == jump_pattern(),
        kind.valid(),
        kind.thresholds.valid(),
{
    PatternKind {
        subdivision: JUMP_SUBDIVISION,
        distance_gate: Some(JUMP_DISTANCE),
        thresholds: Thresholds {
            short_from: JUMP_SHORT_FROM,
            medium_from: JUMP_MEDIUM_FROM,
            long_from: JUMP_LONG_FROM,
        },
        weights: Weights {
            density: JUMP_WEIGHT_DENSITY,
            consistency: JUMP_WEIGHT_CONSISTENCY,
            variety: JUMP_WEIGHT_VARIETY,
            long_ratio: JUMP_WEIGHT_LONG_RATIO,
            run_length: JUMP_WEIGHT_RUN_LENGTH,
        },
    }
}

/// Analyzes `notes` for jumps at a given tempo, in thousandths of a beat per
/// minute, with one scan over all notes.
pub fn analyze_jumps(notes: &[NoteEvent], tempo: u64) -> (analysis: JumpAnalysis)
    requires
        notes_valid(notes@),
        BPM_FLOOR <= tempo <= BPM_NUMERATOR,
    ensures
        analysis == jump_analysis_at(notes@, tempo as int),
        analysis.overall_confidence <= SCORE_ONE,
        notes@.len() == 0 ==> analysis == no_jumps(),
{
    analyze_jumps_with(Segmentation::Whole, notes, tempo)
}

/// Analyzes `notes` for jumps at a given tempo, in thousandths of a beat per
/// minute, scanning them in the given way.
pub fn analyze_jumps_with(mode: Segmentation, notes: &[NoteEvent], tempo: u64) -> (analysis:
    JumpAnalysis)
    requires
        notes_valid(notes@),
        BPM_FLOOR <= tempo <= BPM_NUMERATOR,
        mode == Segmentation::Sliding ==> 4 * notes@.len() + WINDOW_SIZE <= usize::MAX,
    ensures
        mode == Segmentation::Whole ==> analysis == jump_analysis_at(notes@, tempo as int),
        mode == Segmentation::Sliding ==> analysis == sliding_jump_analysis_at(
            notes@,
            tempo as int,
        ),
        analysis.overall_confidence <= SCORE_ONE,
        notes@.len() == 0 ==> analysis == no_jumps(),
{
    let kind = jump_kind();
    let m = measure_with(mode, notes, tempo, &kind);
    JumpAnalysis {
        overall_confidence: m.overall_confidence,
        total_jump_count: m.total,
        max_jump_length: m.longest_run,
        long_jumps: m.long,
        medium_jumps: m.medium,
        short_jumps: m.short,
        jump_density: m.density,
        bpm_consistency: m.consistency,
    }
}

impl Jump {
    /// The beatmap under analysis.
    pub closed spec fn beatmap(&self) -> Beatmap {
        self.map
    }

    /// Creates a new jump analyzer for the given beatmap.
    pub fn new(map: Beatmap) -> (analyzer: Self)
        ensures
            analyzer.beatmap() == map,
    {
        Self { map }
    }

    /// Analyzes the beatmap for jumps: estimates the tempo from the timeline
    /// and the release of the last note, then scans all notes once and
    /// scores them at that tempo. The beatmap is left as it was.
    pub fn analyze(&mut self) -> (analysis: JumpAnalysis)
        requires
            old(self).beatmap().valid(),
        ensures
            final(self).beatmap() == old(self).beatmap(),
            analysis == jump_analysis_at(
                old(self).beatmap().notes@,
                representative_tempo(
                    old(self).beatmap().timeline@,
                    last_release(old(self).beatmap().notes@),
                ),
            ),
            old(self).beatmap().timeline@.len() == 1 ==> analysis == jump_analysis_at(
                old(self).beatmap().notes@,
                bpm_of_beat_length(old(self).beatmap().timeline@[0].beat_length as int),
            ),
            analysis.overall_confidence <= SCORE_ONE,
            old(self).beatmap().notes@.len() == 0 ==> analysis == no_jumps(),
    {
        self.analyze_with(Segmentation::Whole)
    }

    /// Analyzes the beatmap for jumps as `analyze` does, scanning the notes
    /// in the given way.
    pub fn analyze_with(&mut self, mode: Segmentation) -> (analysis: JumpAnalysis)
        requires
            old(self).beatmap().valid(),
            mode == Segmentation::Sliding ==> 4 * old(self).beatmap().notes@.len() + WINDOW_SIZE
                <= usize::MAX,
        ensures
            final(self).beatmap() == old(self).beatmap(),
            mode == Segmentation::Whole ==> analysis == jump_analysis_at(
                old(self).beatmap().notes@,
                representative_tempo(
                    old(self).beatmap().timeline@,
                    last_release(old(self).beatmap().notes@),
                ),
            ),
            mode == Segmentation::Sliding ==> analysis == sliding_jump_analysis_at(
                old(self).beatmap().notes@,
                representative_tempo(
                    old(self).beatmap().timeline@,
                    last_release(old(self).beatmap().notes@),
                ),
            ),
            old(self).beatmap().timeline@.len() == 1 ==> analysis == (match mode {
                Segmentation::Whole => jump_analysis_at(
                    old(self).beatmap().notes@,
                    bpm_of_beat_length(old(self).beatmap().timeline@[0].beat_length as int),
                ),
                Segmentation::Sliding => sliding_jump_analysis_at(
                    old(self).beatmap().notes@,
                    bpm_of_beat_length(old(self).beatmap().timeline@[0].beat_length as int),
                ),
            }),
            analysis.overall_confidence <= SCORE_ONE,
            old(self).beatmap().notes@.len() == 0 ==> analysis == no_jumps(),
    {
        let n: usize = self.map.notes.len();
        let tempo: u64 = if n > 0 {
            bpm(Some(&self.map.notes[n - 1]), self.map.timeline.as_slice())
        } else {
            bpm(None, self.map.timeline.as_slice())
        };
        let analysis = analyze_jumps_with(mode, self.map.notes.as_slice(), tempo);
        analysis
    }
}

} // verus!
