//! Cuts a note sequence into runs: maximal stretches of consecutive notes
//! whose onset gaps all match an expected rhythmic interval.
//!
//! The expected interval is a beat length divided by a subdivision. It is
//! kept as that fraction, so that the tolerance test is exact.

use crate::model::{notes_valid, NoteEvent};
use crate::tempo::BEAT_LENGTH_CEILING;
use vstd::prelude::*;

verus! {

/// How far, in hundredths of the expected interval, a gap may lie from it.
pub const TOLERANCE_PERCENT: i64 = 10;

/// Finest subdivision of a beat that a configuration may ask for.
pub const MAX_SUBDIVISION: i64 = 64;

/// What the scan looks for.
#[derive(Clone, Copy, Debug, PartialEq, Eq, Structural)]
pub struct RunConfig {
    /// Length of one beat, in ticks.
    pub beat_length: i64,
    /// The expected interval is the beat length divided by this.
    pub subdivision: i64,
    /// Least distance, in playfield units, between the two notes of a pair;
    /// `None` for no such demand.
    pub distance_gate: Option<u32>,
}

/// The time from the onset of note `i` to the onset of the next note.
pub open spec fn onset_gap(notes: Seq<NoteEvent>, i: int) -> int {
    notes[i + 1].start_time - notes[i].start_time
}

/// The square of the planar distance between two notes.
pub open spec fn distance_squared(a: NoteEvent, b: NoteEvent) -> int {
    (b.x - a.x) * (b.x - a.x) + (b.y - a.y) * (b.y - a.y)
}

/// The distance between two numbers.
pub open spec fn abs_diff(a: int, b: int) -> int {
    if a >= b {
        a - b
    } else {
        b - a
    }
}

/// The number of consecutive pairs in a sequence of `len` notes.
pub open spec fn pair_count(len: nat) -> nat {
    if len > 0 {
        (len - 1) as nat
    } else {
        0
    }
}

impl RunConfig {
    /// The expected interval is positive and no longer than a minute.
    pub open spec fn valid(&self) -> bool {
        1 <= self.beat_length <= BEAT_LENGTH_CEILING && 1 <= self.subdivision <= MAX_SUBDIVISION
    }

    /// Whether `gap` lies within the tolerance of the expected interval:
    /// `|gap - beat/sub| / (beat/sub) <= 10%`, with the fractions cleared.
    pub open spec fn gap_matches(&self, gap: int) -> bool {
        abs_diff(gap * self.subdivision, self.beat_length as int) * 100 <= TOLERANCE_PERCENT
            * self.beat_length
    }

    /// Whether the two notes lie at least the asked distance apart.
    pub open spec fn far_enough(&self, a: NoteEvent, b: NoteEvent) -> bool {
        match self.distance_gate {
            Some(g) => distance_squared(a, b) >= g * g,
            None => true,
        }
    }

    /// Whether note `i` and the next note lie at least the asked distance
    /// apart.
    pub open spec fn pair_far_enough(&self, notes: Seq<NoteEvent>, i: int) -> bool {
        self.far_enough(notes[i], notes[i + 1])
    }

    /// Whether the pair of notes `i` and `i + 1` extends a run.
    pub open spec fn accepts(&self, notes: Seq<NoteEvent>, i: int) -> bool {
        self.gap_matches(onset_gap(notes, i)) && self.pair_far_enough(notes, i)
    }

    /// For each consecutive pair, whether it extends a run.
    pub open spec fn flags(&self, notes: Seq<NoteEvent>) -> Seq<bool> {
        Seq::new(pair_count(notes.len()), |i: int| self.accepts(notes, i))
    }

    /// Tests whether the expected interval is positive and no longer than a
    /// minute.
    pub fn is_valid(&self) -> (ok: bool)
        ensures
            ok == self.valid(),
    {
        1 <= self.beat_length && self.beat_length <= BEAT_LENGTH_CEILING && 1 <= self.subdivision
            && self.subdivision <= MAX_SUBDIVISION
    }

    /// Tests whether the pair `a`, `b` extends a run.
    pub fn pair_accepted(&self, a: &NoteEvent, b: &NoteEvent) -> (ok: bool)
        requires
            self.valid(),
            a.valid(),
            b.valid(),
        ensures
            ok == (self.gap_matches(b.start_time - a.start_time) && self.far_enough(*a, *b)),
    {
        let gap: i128 = b.start_time as i128 - a.start_time as i128;
        let sub: i128 = self.subdivision as i128;
        let beat: i128 = self.beat_length as i128;
        assert(-0x1000_0000_0000_0000 <= gap * sub <= 0x1000_0000_0000_0000) by (nonlinear_arith)
            requires
                -0x40_0000_0000_0000 <= gap <= 0x40_0000_0000_0000,
                1 <= sub <= 64,
        ;
        let scaled: i128 = gap * sub;
        let deviation: i128 = if scaled >= beat {
            scaled - beat
        } else {
            beat - scaled
        };
        if deviation * 100 > TOLERANCE_PERCENT as i128 * beat {
            return false;
        }
        match self.distance_gate {
            None => true,
            Some(g) => {
                let dx: i128 = b.x as i128 - a.x as i128;
                let dy: i128 = b.y as i128 - a.y as i128;
                let gate: i128 = g as i128;
                assert(0 <= dx * dx <= 0x1_0000_0000_0000_0000) by (nonlinear_arith)
                    requires
                        -0x1_0000_0000 <= dx <= 0x1_0000_0000,
                ;
                assert(0 <= dy * dy <= 0x1_0000_0000_0000_0000) by (nonlinear_arith)
                    requires
                        -0x1_0000_0000 <= dy <= 0x1_0000_0000,
                ;
                assert(0 <= gate * gate <= 0x1_0000_0000_0000_0000) by (nonlinear_arith)
                    requires
                        0 <= gate <= 0x1_0000_0000,
                ;
                dx * dx + dy * dy >= gate * gate
            },
        }
    }
}

/// The number of `true` entries at the end of `flags`: the accepted gaps of
/// the run that is still open after the last pair.
pub open spec fn trailing_run(flags: Seq<bool>) -> int
    decreases flags.len(),
{
    if flags.len() == 0 || !flags.last() {
        0
    } else {
        1 + trailing_run(flags.drop_last())
    }
}

/// The lengths of the runs that a rejected pair has ended, in the order in
/// which they end.
pub open spec fn closed_runs(flags: Seq<bool>) -> Seq<int>
    decreases flags.len(),
{
    if flags.len() == 0 {
        Seq::empty()
    } else if !flags.last() && trailing_run(flags.drop_last()) > 0 {
        closed_runs(flags.drop_last()).push(trailing_run(flags.drop_last()))
    } else {
        closed_runs(flags.drop_last())
    }
}

/// The lengths of all runs, in order: each is the number of accepted gaps in
/// a maximal block of accepted pairs, one less than the notes it spans.
pub open spec fn run_lengths(flags: Seq<bool>) -> Seq<int> {
    if trailing_run(flags) > 0 {
        closed_runs(flags).push(trailing_run(flags))
    } else {
        closed_runs(flags)
    }
}

/// The jitter samples of the first `upto` pairs, in order: for each accepted
/// pair that follows an accepted pair, the distance between their two gaps.
pub open spec fn jitter_samples(config: RunConfig, notes: Seq<NoteEvent>, upto: int) -> Seq<int>
    decreases upto,
{
    if upto <= 1 {
        Seq::empty()
    } else if config.accepts(notes, upto - 1) && config.accepts(notes, upto - 2) {
        jitter_samples(config, notes, upto - 1).push(
            abs_diff(onset_gap(notes, upto - 1), onset_gap(notes, upto - 2)),
        )
    } else {
        jitter_samples(config, notes, upto - 1)
    }
}

/// The number of accepted pairs.
pub open spec fn accepted_count(flags: Seq<bool>) -> int
    decreases flags.len(),
{
    if flags.len() == 0 {
        0
    } else {
        accepted_count(flags.drop_last()) + if flags.last() {
            1int
        } else {
            0int
        }
    }
}

/// The sum of a sequence of integers.
pub open spec fn sum_of(values: Seq<int>) -> int
    decreases values.len(),
{
    if values.len() == 0 {
        0
    } else {
        sum_of(values.drop_last()) + values.last()
    }
}

/// Each sample is at most a fifth of the expected interval, as the distance
/// between two gaps within the tolerance is.
pub open spec fn jitter_within(config: RunConfig, jitter: Seq<int>) -> bool {
    forall|k: int|
        0 <= k < jitter.len() ==> 0 <= #[trigger] jitter[k] && jitter[k] * config.subdivision * 5
            <= config.beat_length
}

/// Two gaps within the tolerance differ by at most a fifth of the expected
/// interval.
pub proof fn lemma_matching_gaps_are_close(config: RunConfig, first: int, second: int)
    requires
        config.valid(),
        config.gap_matches(first),
        config.gap_matches(second),
    ensures
        0 <= abs_diff(first, second),
        abs_diff(first, second) * config.subdivision * 5 <= config.beat_length,
{
    let s = config.subdivision as int;
    assert(abs_diff(first, second) * s == abs_diff(first * s, second * s)) by (nonlinear_arith)
        requires
            s >= 1,
    ;
}

/// Every jitter sample is at most a fifth of the expected interval.
pub proof fn lemma_jitter_samples_within(config: RunConfig, notes: Seq<NoteEvent>, upto: int)
    requires
        config.valid(),
    ensures
        jitter_within(config, jitter_samples(config, notes, upto)),
    decreases upto,
{
    if upto > 1 {
        lemma_jitter_samples_within(config, notes, upto - 1);
        if config.accepts(notes, upto - 1) && config.accepts(notes, upto - 2) {
            lemma_matching_gaps_are_close(
                config,
                onset_gap(notes, upto - 1),
                onset_gap(notes, upto - 2),
            );
        }
    }
}

/// The accepted pairs are some of the pairs.
pub proof fn lemma_accepted_count_bounded(flags: Seq<bool>)
    ensures
        0 <= accepted_count(flags) <= flags.len(),
    decreases flags.len(),
{
    if flags.len() > 0 {
        lemma_accepted_count_bounded(flags.drop_last());
    }
}

/// Every accepted gap lies in exactly one run: the run lengths add up to the
/// number of accepted pairs.
pub proof fn lemma_runs_cover_accepted_pairs(flags: Seq<bool>)
    ensures
        sum_of(closed_runs(flags)) + trailing_run(flags) == accepted_count(flags),
        sum_of(run_lengths(flags)) == accepted_count(flags),
    decreases flags.len(),
{
    if flags.len() > 0 {
        let before = flags.drop_last();
        lemma_runs_cover_accepted_pairs(before);
        if !flags.last() && trailing_run(before) > 0 {
            assert(closed_runs(flags).drop_last() =~= closed_runs(before));
        }
    }
    if trailing_run(flags) > 0 {
        assert(run_lengths(flags).drop_last() =~= closed_runs(flags));
    }
}

/// Every run holds at least one accepted gap, so spans at least two notes.
pub proof fn lemma_runs_are_not_empty(flags: Seq<bool>)
    ensures
        forall|k: int| 0 <= k < closed_runs(flags).len() ==> #[trigger] closed_runs(flags)[k] >= 1,
        forall|k: int| 0 <= k < run_lengths(flags).len() ==> #[trigger] run_lengths(flags)[k] >= 1,
    decreases flags.len(),
{
    if flags.len() > 0 {
        let before = flags.drop_last();
        lemma_runs_are_not_empty(before);
        assert forall|k: int| 0 <= k < closed_runs(flags).len() implies #[trigger] closed_runs(
            flags,
        )[k] >= 1 by {
            if k < closed_runs(before).len() {
                assert(closed_runs(flags)[k] == closed_runs(before)[k]);
            }
        }
    }
    assert forall|k: int| 0 <= k < run_lengths(flags).len() implies #[trigger] run_lengths(
        flags,
    )[k] >= 1 by {
        if k < closed_runs(flags).len() {
            assert(run_lengths(flags)[k] == closed_runs(flags)[k]);
        }
    }
}

/// A run of some number of gaps gives one jitter sample less: the samples
/// of the first `upto` pairs are as many as the accepted pairs among them,
/// less the runs among them.
pub proof fn lemma_jitter_count(config: RunConfig, notes: Seq<NoteEvent>, upto: int)
    requires
        0 <= upto <= pair_count(notes.len()),
    ensures
        jitter_samples(config, notes, upto).len() == accepted_count(config.flags(notes).take(upto))
            - run_lengths(config.flags(notes).take(upto)).len(),
    decreases upto,
{
    let flags = config.flags(notes);
    let now = flags.take(upto);
    if upto > 0 {
        let before = flags.take(upto - 1);
        assert(now.drop_last() =~= before);
        assert(now.last() == config.accepts(notes, upto - 1));
        lemma_jitter_count(config, notes, upto - 1);
        lemma_trailing_run_bounds(before);
        lemma_trailing_run_bounds(now);
        if upto > 1 {
            assert(before.last() == config.accepts(notes, upto - 2));
        }
    }
}

/// The run lengths as mathematical integers.
pub open spec fn lengths_view(lengths: Seq<usize>) -> Seq<int> {
    Seq::new(lengths.len(), |i: int| lengths[i] as int)
}

/// The jitter samples as mathematical integers.
pub open spec fn jitter_view(jitter: Seq<u64>) -> Seq<int> {
    Seq::new(jitter.len(), |i: int| jitter[i] as int)
}

/// An open run is never longer than the flags behind it.
pub proof fn lemma_trailing_run_bounds(flags: Seq<bool>)
    ensures
        0 <= trailing_run(flags) <= flags.len(),
        trailing_run(flags) > 0 <==> flags.len() > 0 && flags.last(),
    decreases flags.len(),
{
    if flags.len() > 0 && flags.last() {
        lemma_trailing_run_bounds(flags.drop_last());
    }
}

/// Scans the notes once and returns the run lengths and the jitter samples.
///
/// A run's length is its number of accepted gaps, so at least one; a pair
/// that is not accepted ends the run before it and belongs to none.
pub fn calculate_consecutive_notes(hit_objects: &[NoteEvent], config: &RunConfig) -> (scan: (
    Vec<usize>,
    Vec<u64>,
))
    requires
        config.valid(),
        notes_valid(hit_objects@),
    ensures
        lengths_view(scan.0@) == run_lengths(config.flags(hit_objects@)),
        jitter_view(scan.1@) == jitter_samples(
            *config,
            hit_objects@,
            pair_count(hit_objects@.len()) as int,
        ),
        jitter_within(*config, jitter_view(scan.1@)),
        forall|k: int| 0 <= k < scan.0@.len() ==> #[trigger] scan.0@[k] >= 1,
        sum_of(lengths_view(scan.0@)) <= pair_count(hit_objects@.len()),
        scan.1@.len() + scan.0@.len() == sum_of(lengths_view(scan.0@)),
{
    let n: usize = hit_objects.len();
    let ghost notes = hit_objects@;
    let ghost flags = config.flags(notes);
    let mut lengths: Vec<usize> = Vec::new();
    let mut jitter: Vec<u64> = Vec::new();
    let mut run: usize = 0;
    let mut prev_gap: i64 = 0;
    let mut i: usize = 0;
    assert(flags.take(0) =~= Seq::empty());
    assert(lengths_view(lengths@) =~= closed_runs(flags.take(0)));
    assert(jitter_view(jitter@) =~= jitter_samples(*config, notes, 0));
    while i + 1 < n
        invariant
            n == hit_objects@.len(),
            notes == hit_objects@,
            flags == config.flags(notes),
            config.valid(),
            notes_valid(notes),
            i <= flags.len(),
            flags.len() == pair_count(notes.len()),
            run == trailing_run(flags.take(i as int)),
            lengths_view(lengths@) == closed_runs(flags.take(i as int)),
            jitter_view(jitter@) == jitter_samples(*config, notes, i as int),
            run > 0 ==> i > 0 && prev_gap == onset_gap(notes, i - 1),
        decreases n - i,
    {
        let a = &hit_objects[i];
        let b = &hit_objects[i + 1];
        assert(notes[i as int].valid() && notes[i + 1].valid());
        let ok: bool = config.pair_accepted(a, b);
        proof {
            let now = flags.take(i + 1);
            assert(now.drop_last() =~= flags.take(i as int));
            assert(now.last() == flags[i as int]);
            assert(ok == config.accepts(notes, i as int));
            lemma_trailing_run_bounds(flags.take(i as int));
            lemma_trailing_run_bounds(now);
            if i > 0 {
                assert(flags.take(i as int).last() == flags[i - 1]);
            }
        }
        if ok {
            let gap: i64 = b.start_time - a.start_time;
            if run > 0 {
                let d: i64 = if gap >= prev_gap {
                    gap - prev_gap
                } else {
                    prev_gap - gap
                };
                let ghost before = jitter@;
                jitter.push(d as u64);
                assert(jitter_view(jitter@) =~= jitter_view(before).push(d as int));
            }
            run = run + 1;
            prev_gap = gap;
        } else if run > 0 {
            let ghost before = lengths@;
            lengths.push(run);
            assert(lengths_view(lengths@) =~= lengths_view(before).push(run as int));
            run = 0;
        }
        i += 1;
    }
    proof {
        assert(flags.take(i as int) =~= flags);
        lemma_jitter_samples_within(*config, notes, i as int);
        lemma_runs_cover_accepted_pairs(flags);
        lemma_accepted_count_bounded(flags);
        lemma_runs_are_not_empty(flags);
        lemma_jitter_count(*config, notes, i as int);
    }
    if run > 0 {
        let ghost before = lengths@;
        lengths.push(run);
        assert(lengths_view(lengths@) =~= lengths_view(before).push(run as int));
    }
    proof {
        assert forall|k: int| 0 <= k < lengths@.len() implies #[trigger] lengths@[k] >= 1 by {
            assert(lengths_view(lengths@)[k] == lengths@[k]);
        }
    }
    (lengths, jitter)
}

} // verus!
