//! Sliding-window segmentation: the notes are cut into overlapping windows,
//! each window is scanned on its own, and the windows' results are put
//! together, counts by adding and peak values by taking the largest.
//!
//! A run that crosses the edge of a window is seen in parts by the windows
//! it crosses; nothing mends that.

use crate::model::{notes_valid, NoteEvent};
use crate::pattern::{
    lemma_no_notes_no_metrics, lemma_whole_metrics_fit, measure, whole_metrics, PatternKind,
};
use crate::score::{
    confidence, confidence_from, lemma_nothing_found_scores_nothing, no_metrics, Metrics,
    SCORE_ONE,
};
use crate::tempo::{BPM_FLOOR, BPM_NUMERATOR};
use vstd::prelude::*;
use vstd::slice::slice_subrange;

verus! {

/// Notes in a full window.
pub const WINDOW_SIZE: usize = 200;

/// Notes from the start of one window to the start of the next.
pub const WINDOW_STEP: usize = 50;

/// How the notes are handed to the scan.
#[derive(Clone, Copy, Debug, PartialEq, Eq, Structural)]
pub enum Segmentation {
    /// One scan over all notes.
    Whole,
    /// One scan per window.
    Sliding,
}

/// A value of the metrics that the windows are put together by.
#[derive(Clone, Copy, Debug, PartialEq, Eq, Structural)]
pub enum Part {
    Short,
    Medium,
    Long,
    Gaps,
    LongestRun,
    LongestPattern,
    Density,
    Consistency,
}

/// The index of the first note of window `k`.
pub open spec fn window_start(k: int) -> int {
    k * WINDOW_STEP
}

/// The index behind the last note of window `k` among `n` notes: a full
/// window's length behind its start, or the end of the notes if that comes
/// first.
pub open spec fn window_end(k: int, n: int) -> int {
    if window_start(k) + WINDOW_SIZE < n {
        window_start(k) + WINDOW_SIZE
    } else {
        n
    }
}

/// The number of windows over `n` notes: none without notes; else windows
/// follow one another until one reaches the last note.
pub open spec fn window_count(n: int) -> int {
    if n <= 0 {
        0
    } else if n <= WINDOW_SIZE {
        1
    } else {
        (n - WINDOW_SIZE + WINDOW_STEP - 1) / (WINDOW_STEP as int) + 1
    }
}

/// The notes of window `k`.
pub open spec fn window(notes: Seq<NoteEvent>, k: int) -> Seq<NoteEvent> {
    notes.subrange(window_start(k), window_end(k, notes.len() as int))
}

/// The named value of `m`.
pub open spec fn part_of(m: Metrics, part: Part) -> int {
    match part {
        Part::Short => m.short as int,
        Part::Medium => m.medium as int,
        Part::Long => m.long as int,
        Part::Gaps => m.gaps as int,
        Part::LongestRun => m.longest_run as int,
        Part::LongestPattern => m.longest_pattern as int,
        Part::Density => m.density as int,
        Part::Consistency => m.consistency as int,
    }
}

/// The named value of the metrics of window `k`, scanned on its own.
pub open spec fn window_part(
    kind: PatternKind,
    notes: Seq<NoteEvent>,
    tempo: int,
    part: Part,
    k: int,
) -> int {
    part_of(whole_metrics(kind, window(notes, k), tempo), part)
}

/// The sum of the named value over the first `upto` windows.
pub open spec fn windows_sum(
    kind: PatternKind,
    notes: Seq<NoteEvent>,
    tempo: int,
    part: Part,
    upto: int,
) -> int
    decreases upto,
{
    if upto <= 0 {
        0
    } else {
        windows_sum(kind, notes, tempo, part, upto - 1) + window_part(
            kind,
            notes,
            tempo,
            part,
            upto - 1,
        )
    }
}

/// The largest of the named value over the first `upto` windows, or zero if
/// there is none.
pub open spec fn windows_peak(
    kind: PatternKind,
    notes: Seq<NoteEvent>,
    tempo: int,
    part: Part,
    upto: int,
) -> int
    decreases upto,
{
    if upto <= 0 {
        0
    } else {
        let before = windows_peak(kind, notes, tempo, part, upto - 1);
        let here = window_part(kind, notes, tempo, part, upto - 1);
        if here > before {
            here
        } else {
            before
        }
    }
}

/// The metrics of `notes` at `tempo` by windows: the counts and the gaps are
/// added up over the windows, the longest run, the density and the
/// consistency are the largest that any window shows, and the confidence
/// follows from those.
pub open spec fn sliding_metrics(kind: PatternKind, notes: Seq<NoteEvent>, tempo: int) -> Metrics {
    let w = window_count(notes.len() as int);
    let short = windows_sum(kind, notes, tempo, Part::Short, w);
    let medium = windows_sum(kind, notes, tempo, Part::Medium, w);
    let long = windows_sum(kind, notes, tempo, Part::Long, w);
    let gaps = windows_sum(kind, notes, tempo, Part::Gaps, w);
    let density = windows_peak(kind, notes, tempo, Part::Density, w);
    let consistency = windows_peak(kind, notes, tempo, Part::Consistency, w);
    Metrics {
        short: short as usize,
        medium: medium as usize,
        long: long as usize,
        total: (short + medium + long) as usize,
        gaps: gaps as usize,
        longest_run: windows_peak(kind, notes, tempo, Part::LongestRun, w) as usize,
        longest_pattern: windows_peak(kind, notes, tempo, Part::LongestPattern, w) as usize,
        density: density as u64,
        consistency: consistency as u64,
        overall_confidence: confidence_from(
            kind.weights,
            density,
            consistency,
            short,
            medium,
            long,
            gaps,
        ) as u64,
    }
}

/// Notes that fit in one window are scanned by windows as they are scanned
/// at once.
pub proof fn lemma_one_window_is_the_whole(kind: PatternKind, notes: Seq<NoteEvent>, tempo: int)
    requires
        kind.valid(),
        BPM_FLOOR <= tempo <= BPM_NUMERATOR,
        notes.len() <= WINDOW_SIZE,
    ensures
        sliding_metrics(kind, notes, tempo) == whole_metrics(kind, notes, tempo),
{
    if notes.len() == 0 {
        lemma_no_notes_no_metrics(kind, notes, tempo);
        lemma_nothing_found_scores_nothing(
            0,
            kind.config_at(tempo),
            kind.thresholds,
            kind.weights,
        );
    } else {
        assert(window(notes, 0) =~= notes);
        reveal_with_fuel(windows_sum, 2);
        reveal_with_fuel(windows_peak, 2);
        lemma_whole_metrics_fit(kind, notes, tempo);
        let m = whole_metrics(kind, notes, tempo);
        assert(windows_sum(kind, notes, tempo, Part::Short, 1) == m.short);
        assert(windows_sum(kind, notes, tempo, Part::Medium, 1) == m.medium);
        assert(windows_sum(kind, notes, tempo, Part::Long, 1) == m.long);
        assert(windows_sum(kind, notes, tempo, Part::Gaps, 1) == m.gaps);
        assert(windows_peak(kind, notes, tempo, Part::LongestRun, 1) == m.longest_run);
        assert(windows_peak(kind, notes, tempo, Part::LongestPattern, 1) == m.longest_pattern);
        assert(windows_peak(kind, notes, tempo, Part::Density, 1) == m.density);
        assert(windows_peak(kind, notes, tempo, Part::Consistency, 1) == m.consistency);
    }
}

/// Tests whether `count` notes are few enough for the windows' counts to be
/// added up.
pub fn can_slide(count: usize) -> (ok: bool)
    ensures
        ok == (4 * count + WINDOW_SIZE <= usize::MAX),
{
    count <= (usize::MAX - WINDOW_SIZE) / 4
}

/// What has been gathered from the windows so far.
struct Gathered {
    short: usize,
    medium: usize,
    long: usize,
    gaps: usize,
    longest_run: usize,
    longest_pattern: usize,
    density: u64,
    consistency: u64,
}

impl Gathered {
    /// Whether this is what the first `upto` windows amount to.
    spec fn holds(
        &self,
        kind: PatternKind,
        notes: Seq<NoteEvent>,
        tempo: int,
        upto: int,
    ) -> bool {
        &&& self.short == windows_sum(kind, notes, tempo, Part::Short, upto)
        &&& self.medium == windows_sum(kind, notes, tempo, Part::Medium, upto)
        &&& self.long == windows_sum(kind, notes, tempo, Part::Long, upto)
        &&& self.gaps == windows_sum(kind, notes, tempo, Part::Gaps, upto)
        &&& self.longest_run == windows_peak(kind, notes, tempo, Part::LongestRun, upto)
        &&& self.longest_pattern == windows_peak(kind, notes, tempo, Part::LongestPattern, upto)
        &&& self.density == windows_peak(kind, notes, tempo, Part::Density, upto)
        &&& self.consistency == windows_peak(kind, notes, tempo, Part::Consistency, upto)
        &&& self.short + self.medium + self.long <= self.gaps
        &&& self.density <= SCORE_ONE
        &&& self.consistency <= SCORE_ONE
    }

    /// Nothing, as before the first window.
    fn new() -> (g: Self)
        ensures
            forall|kind: PatternKind, notes: Seq<NoteEvent>, tempo: int|
                #[trigger] g.holds(kind, notes, tempo, 0),
            g.gaps == 0,
    {
        Gathered {
            short: 0,
            medium: 0,
            long: 0,
            gaps: 0,
            longest_run: 0,
            longest_pattern: 0,
            density: 0,
            consistency: 0,
        }
    }

    /// Takes in the metrics of the next window.
    fn take_in(&mut self, m: &Metrics, Ghost(kind): Ghost<PatternKind>, Ghost(notes): Ghost<
        Seq<NoteEvent>,
    >, Ghost(tempo): Ghost<int>, Ghost(k): Ghost<int>)
        requires
            k >= 0,
            old(self).holds(kind, notes, tempo, k),
            *m == whole_metrics(kind, window(notes, k), tempo),
            m.total == m.short + m.medium + m.long,
            m.total <= m.gaps,
            m.density <= SCORE_ONE,
            m.consistency <= SCORE_ONE,
            old(self).gaps + m.gaps <= usize::MAX,
        ensures
            final(self).holds(kind, notes, tempo, k + 1),
            final(self).gaps == old(self).gaps + m.gaps,
    {
        self.short = self.short + m.short;
        self.medium = self.medium + m.medium;
        self.long = self.long + m.long;
        self.gaps = self.gaps + m.gaps;
        if m.longest_run > self.longest_run {
            self.longest_run = m.longest_run;
        }
        if m.longest_pattern > self.longest_pattern {
            self.longest_pattern = m.longest_pattern;
        }
        if m.density > self.density {
            self.density = m.density;
        }
        if m.consistency > self.consistency {
            self.consistency = m.consistency;
        }
    }
}

/// Scans `notes` window by window for runs of this kind at `tempo` and
/// scores what the windows show together.
pub fn measure_sliding(notes: &[NoteEvent], tempo: u64, kind: &PatternKind) -> (m: Metrics)
    requires
        kind.valid(),
        kind.thresholds.valid(),
        notes_valid(notes@),
        BPM_FLOOR <= tempo <= BPM_NUMERATOR,
        4 * notes@.len() + WINDOW_SIZE <= usize::MAX,
    ensures
        m == sliding_metrics(*kind, notes@, tempo as int),
        m.total == m.short + m.medium + m.long,
        m.density <= SCORE_ONE,
        m.consistency <= SCORE_ONE,
        m.overall_confidence <= SCORE_ONE,
        notes@.len() == 0 ==> m == no_metrics(),
{
    let n: usize = notes.len();
    let mut got = Gathered::new();
    assert(got.holds(*kind, notes@, tempo as int, 0));
    let mut start: usize = 0;
    let ghost mut k: int = 0;
    if n > 0 {
        while n - start > WINDOW_SIZE
            invariant
                n == notes@.len(),
                n > 0,
                kind.valid(),
                kind.thresholds.valid(),
                notes_valid(notes@),
                BPM_FLOOR <= tempo <= BPM_NUMERATOR,
                4 * n + WINDOW_SIZE <= usize::MAX,
                0 <= k,
                start == k * WINDOW_STEP,
                start < n,
                k > 0 ==> n - (start - WINDOW_STEP) > WINDOW_SIZE,
                got.holds(*kind, notes@, tempo as int, k),
                got.gaps <= 4 * start,
            decreases n - start,
        {
            let piece = slice_subrange(notes, start, start + WINDOW_SIZE);
            assert(piece@ == window(notes@, k));
            assert(notes_valid(piece@)) by {
                assert forall|i: int| 0 <= i < piece@.len() implies (#[trigger] piece@[i]).valid() by {
                    assert(notes@[start + i].valid());
                }
            }
            let m = measure(piece, tempo, kind);
            got.take_in(&m, Ghost(*kind), Ghost(notes@), Ghost(tempo as int), Ghost(k));
            start = start + WINDOW_STEP;
            proof {
                k = k + 1;
            }
        }
        let piece = slice_subrange(notes, start, n);
        assert(piece@ == window(notes@, k));
        assert(notes_valid(piece@)) by {
            assert forall|i: int| 0 <= i < piece@.len() implies (#[trigger] piece@[i]).valid() by {
                assert(notes@[start + i].valid());
            }
        }
        let m = measure(piece, tempo, kind);
        got.take_in(&m, Ghost(*kind), Ghost(notes@), Ghost(tempo as int), Ghost(k));
        proof {
            k = k + 1;
        }
    }
    assert(k == window_count(n as int));
    proof {
        if n == 0 {
            lemma_nothing_found_scores_nothing(
                0,
                kind.config_at(tempo as int),
                kind.thresholds,
                kind.weights,
            );
        }
    }
    let overall: u64 = confidence(
        &kind.weights,
        got.density,
        got.consistency,
        got.short,
        got.medium,
        got.long,
        got.gaps,
    );
    Metrics {
        short: got.short,
        medium: got.medium,
        long: got.long,
        total: got.short + got.medium + got.long,
        gaps: got.gaps,
        longest_run: got.longest_run,
        longest_pattern: got.longest_pattern,
        density: got.density,
        consistency: got.consistency,
        overall_confidence: overall,
    }
}

/// Scans `notes` in the given way and scores what was found.
pub fn measure_with(
    mode: Segmentation,
    notes: &[NoteEvent],
    tempo: u64,
    kind: &PatternKind,
) -> (m: Metrics)
    requires
        kind.valid(),
        notes_valid(notes@),
        BPM_FLOOR <= tempo <= BPM_NUMERATOR,
        mode == Segmentation::Sliding ==> kind.thresholds.valid() && 4 * notes@.len() + WINDOW_SIZE
            <= usize::MAX,
    ensures
        mode == Segmentation::Whole ==> m == whole_metrics(*kind, notes@, tempo as int),
        mode == Segmentation::Sliding ==> m == sliding_metrics(*kind, notes@, tempo as int),
        m.overall_confidence <= SCORE_ONE,
        notes@.len() == 0 ==> m == no_metrics(),
{
    match mode {
        Segmentation::Whole => measure(notes, tempo, kind),
        Segmentation::Sliding => measure_sliding(notes, tempo, kind),
    }
}

} // verus!
