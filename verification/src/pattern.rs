//! The analysis that jumps and streams share: choose the expected interval
//! from the tempo, scan the notes for runs, and score what was found.

use crate::model::{notes_valid, NoteEvent};
use crate::runs::{
    calculate_consecutive_notes, jitter_samples, lemma_accepted_count_bounded,
    lemma_jitter_samples_within, lemma_runs_are_not_empty, lemma_runs_cover_accepted_pairs,
    pair_count, run_lengths, RunConfig, MAX_SUBDIVISION,
};
use crate::score::{
    confidence_from, evaluate, lemma_metrics_fit, lemma_nothing_found_scores_nothing, metrics_of,
    no_metrics, Metrics, Thresholds, Weights, SCORE_ONE,
};
use crate::tempo::{
    beat_length_from_bpm, beat_length_of_bpm, lemma_beat_length_in_range, BPM_FLOOR,
    BPM_NUMERATOR,
};
use vstd::prelude::*;

verus! {

/// What tells one kind of pattern from another.
#[derive(Clone, Copy, Debug, PartialEq, Eq, Structural)]
pub struct PatternKind {
    /// The expected interval is the beat length divided by this.
    pub subdivision: i64,
    /// Least distance between the notes of a pair, if any is asked.
    pub distance_gate: Option<u32>,
    /// Where the length classes begin.
    pub thresholds: Thresholds,
    /// The weights of the confidence.
    pub weights: Weights,
}

impl PatternKind {
    /// The subdivision is one the scan accepts.
    pub open spec fn valid(&self) -> bool {
        1 <= self.subdivision <= MAX_SUBDIVISION
    }

    /// The scan's configuration at `tempo`: the beat length is the minute
    /// divided by the tempo, rounded down to a tick.
    pub open spec fn config_at(&self, tempo: int) -> RunConfig {
        RunConfig {
            beat_length: beat_length_of_bpm(tempo) as i64,
            subdivision: self.subdivision,
            distance_gate: self.distance_gate,
        }
    }

    /// Tests whether the subdivision is one the scan accepts.
    pub fn is_valid(&self) -> (ok: bool)
        ensures
            ok == self.valid(),
    {
        1 <= self.subdivision && self.subdivision <= MAX_SUBDIVISION
    }

    /// The scan's configuration at `tempo`: the beat length that the tempo
    /// stands for, with this kind's subdivision and distance gate.
    pub fn config_for(&self, tempo: u64) -> (config: RunConfig)
        requires
            self.valid(),
            BPM_FLOOR <= tempo <= BPM_NUMERATOR,
        ensures
            config == self.config_at(tempo as int),
            config.valid(),
    {
        RunConfig {
            beat_length: beat_length_from_bpm(tempo),
            subdivision: self.subdivision,
            distance_gate: self.distance_gate,
        }
    }
}

/// The metrics of one scan over all of `notes` at `tempo`.
pub open spec fn whole_metrics(kind: PatternKind, notes: Seq<NoteEvent>, tempo: int) -> Metrics {
    let config = kind.config_at(tempo);
    metrics_of(
        run_lengths(config.flags(notes)),
        jitter_samples(config, notes, pair_count(notes.len()) as int),
        notes.len() as int,
        config,
        kind.thresholds,
        kind.weights,
    )
}

/// A chart without notes has no metrics but zeros.
pub proof fn lemma_no_notes_no_metrics(kind: PatternKind, notes: Seq<NoteEvent>, tempo: int)
    requires
        notes.len() == 0,
    ensures
        whole_metrics(kind, notes, tempo) == no_metrics(),
{
    let config = kind.config_at(tempo);
    assert(config.flags(notes) =~= Seq::<bool>::empty());
    assert(run_lengths(config.flags(notes)) =~= Seq::<int>::empty());
    assert(jitter_samples(config, notes, 0) =~= Seq::<int>::empty());
    lemma_nothing_found_scores_nothing(0, config, kind.thresholds, kind.weights);
}

/// The confidence of a whole scan follows from the other values of its
/// metrics, and none of its scores exceeds one.
pub proof fn lemma_whole_metrics_fit(kind: PatternKind, notes: Seq<NoteEvent>, tempo: int)
    requires
        kind.valid(),
        BPM_FLOOR <= tempo <= BPM_NUMERATOR,
        notes.len() <= usize::MAX,
    ensures
        ({
            let m = whole_metrics(kind, notes, tempo);
            &&& m.total == m.short + m.medium + m.long
            &&& m.overall_confidence == confidence_from(
                kind.weights,
                m.density as int,
                m.consistency as int,
                m.short as int,
                m.medium as int,
                m.long as int,
                m.gaps as int,
            )
            &&& m.density <= SCORE_ONE
            &&& m.consistency <= SCORE_ONE
            &&& m.overall_confidence <= SCORE_ONE
        }),
{
    let config = kind.config_at(tempo);
    let flags = config.flags(notes);
    lemma_beat_length_in_range(tempo);
    lemma_runs_are_not_empty(flags);
    lemma_runs_cover_accepted_pairs(flags);
    lemma_accepted_count_bounded(flags);
    lemma_jitter_samples_within(config, notes, pair_count(notes.len()) as int);
    lemma_metrics_fit(
        run_lengths(flags),
        jitter_samples(config, notes, pair_count(notes.len()) as int),
        notes.len() as int,
        config,
        kind.thresholds,
        kind.weights,
    );
}

/// Scans all of `notes` once for runs of this kind at `tempo` and scores
/// them.
pub fn measure(notes: &[NoteEvent], tempo: u64, kind: &PatternKind) -> (m: Metrics)
    requires
        kind.valid(),
        notes_valid(notes@),
        BPM_FLOOR <= tempo <= BPM_NUMERATOR,
    ensures
        m == whole_metrics(*kind, notes@, tempo as int),
        m.total == m.short + m.medium + m.long,
        m.gaps <= notes@.len(),
        kind.thresholds.valid() ==> m.total <= m.gaps,
        m.density <= SCORE_ONE,
        m.consistency <= SCORE_ONE,
        m.overall_confidence <= SCORE_ONE,
        notes@.len() == 0 ==> m == no_metrics(),
{
    let config = kind.config_for(tempo);
    let scan = calculate_consecutive_notes(notes, &config);
    proof {
        if notes@.len() == 0 {
            lemma_no_notes_no_metrics(*kind, notes@, tempo as int);
        }
    }
    evaluate(&scan.0, &scan.1, notes.len(), &config, &kind.thresholds, &kind.weights)
}

} // verus!
