//! Facts about run segmentation that hold for every note sequence.

use crate::model::NoteEvent;
use crate::runs::{
    closed_runs, jitter_samples, lemma_trailing_run_bounds, onset_gap, run_lengths, sum_of,
    trailing_run, RunConfig,
};
use crate::score::{consistency_of, SCORE_ONE};
use vstd::prelude::*;

verus! {

/// Where every pair is accepted, no run is ever ended and the open run spans
/// all pairs.
pub proof fn lemma_all_accepted(flags: Seq<bool>)
    requires
        forall|i: int| 0 <= i < flags.len() ==> flags[i],
    ensures
        trailing_run(flags) == flags.len(),
        closed_runs(flags) == Seq::<int>::empty(),
    decreases flags.len(),
{
    if flags.len() > 0 {
        lemma_all_accepted(flags.drop_last());
    }
}

/// Where no pair is accepted there is no run at all.
pub proof fn lemma_none_accepted(flags: Seq<bool>)
    requires
        forall|i: int| 0 <= i < flags.len() ==> !flags[i],
    ensures
        run_lengths(flags) == Seq::<int>::empty(),
    decreases flags.len(),
{
    if flags.len() > 0 {
        lemma_none_accepted(flags.drop_last());
    }
}

/// Where exactly the pair `k` is rejected, the accepted pairs before it are
/// one ended run (if there are any) and those after it are the open run.
pub proof fn lemma_one_rejected(flags: Seq<bool>, k: int)
    requires
        0 <= k < flags.len(),
        !flags[k],
        forall|i: int| 0 <= i < flags.len() && i != k ==> flags[i],
    ensures
        trailing_run(flags) == flags.len() - 1 - k,
        closed_runs(flags) == if k > 0 {
            seq![k]
        } else {
            Seq::<int>::empty()
        },
    decreases flags.len(),
{
    let before = flags.drop_last();
    if k == flags.len() - 1 {
        lemma_all_accepted(before);
        if k > 0 {
            assert(closed_runs(flags) =~= seq![k]);
        }
    } else {
        lemma_one_rejected(before, k);
    }
}

/// A sequence of at least two notes in which every pair is accepted is one
/// single run, whose length is the number of notes less one.
pub proof fn lemma_regular_sequence_is_one_run(config: RunConfig, notes: Seq<NoteEvent>)
    requires
        notes.len() >= 2,
        forall|i: int| 0 <= i < notes.len() - 1 ==> config.accepts(notes, i),
    ensures
        run_lengths(config.flags(notes)) == seq![notes.len() - 1],
{
    let flags = config.flags(notes);
    lemma_all_accepted(flags);
    assert(run_lengths(flags) =~= seq![notes.len() - 1]);
}

/// A gap that is exactly the expected interval is within the tolerance.
pub proof fn lemma_exact_gap_matches(config: RunConfig, gap: int)
    requires
        config.valid(),
        gap * config.subdivision == config.beat_length,
    ensures
        config.gap_matches(gap),
{
}

/// A gap half as long again as the expected interval is outside the
/// tolerance.
pub proof fn lemma_gap_half_too_long_is_rejected(config: RunConfig, gap: int)
    requires
        config.valid(),
        2 * (gap * config.subdivision) == 3 * config.beat_length,
    ensures
        !config.gap_matches(gap),
{
}

/// Equally spaced notes, a gap apart that is exactly the expected interval
/// and far enough from each other, form exactly one run of all their gaps,
/// and every jitter sample is zero.
pub proof fn lemma_equally_spaced_notes(config: RunConfig, notes: Seq<NoteEvent>, gap: int)
    requires
        config.valid(),
        notes.len() >= 2,
        gap * config.subdivision == config.beat_length,
        forall|i: int| 0 <= i < notes.len() - 1 ==> onset_gap(notes, i) == gap,
        forall|i: int| 0 <= i < notes.len() - 1 ==> config.pair_far_enough(notes, i),
    ensures
        run_lengths(config.flags(notes)) == seq![notes.len() - 1],
        jitter_samples(config, notes, notes.len() - 1) == Seq::new(
            (notes.len() - 2) as nat,
            |i: int| 0int,
        ),
{
    lemma_exact_gap_matches(config, gap);
    lemma_regular_sequence_is_one_run(config, notes);
    lemma_steady_gaps_have_no_jitter(config, notes, gap, notes.len() - 1);
}

/// Where the first `upto` pairs are all accepted with one and the same gap,
/// there is a jitter sample for each pair after the first, and each is zero.
pub proof fn lemma_steady_gaps_have_no_jitter(
    config: RunConfig,
    notes: Seq<NoteEvent>,
    gap: int,
    upto: int,
)
    requires
        1 <= upto <= notes.len() - 1,
        forall|i: int| 0 <= i < upto ==> config.accepts(notes, i),
        forall|i: int| 0 <= i < upto ==> onset_gap(notes, i) == gap,
    ensures
        jitter_samples(config, notes, upto) == Seq::new((upto - 1) as nat, |i: int| 0int),
    decreases upto,
{
    if upto > 1 {
        lemma_steady_gaps_have_no_jitter(config, notes, gap, upto - 1);
        assert(jitter_samples(config, notes, upto) =~= Seq::new((upto - 1) as nat, |i: int| 0int));
    } else {
        assert(jitter_samples(config, notes, upto) =~= Seq::new((upto - 1) as nat, |i: int| 0int));
    }
}

/// One rejected pair inside an otherwise accepted sequence splits it in two
/// runs: the pairs before it and the pairs after it. The rejected pair is in
/// neither.
pub proof fn lemma_one_outlier_splits_the_run(config: RunConfig, notes: Seq<NoteEvent>, k: int)
    requires
        0 < k < notes.len() - 2,
        !config.accepts(notes, k),
        forall|i: int| 0 <= i < notes.len() - 1 && i != k ==> config.accepts(notes, i),
    ensures
        run_lengths(config.flags(notes)) == seq![k, notes.len() - 2 - k],
{
    let flags = config.flags(notes);
    lemma_one_rejected(flags, k);
    assert(run_lengths(flags) =~= seq![k, notes.len() - 2 - k]);
}

/// Runs are found forwards only: a sequence whose onsets never increase, such
/// as an ascending one played backwards, has no run.
pub proof fn lemma_descending_onsets_have_no_runs(config: RunConfig, notes: Seq<NoteEvent>)
    requires
        config.valid(),
        forall|i: int| 0 <= i < notes.len() - 1 ==> onset_gap(notes, i) <= 0,
    ensures
        run_lengths(config.flags(notes)) == Seq::<int>::empty(),
{
    let flags = config.flags(notes);
    assert forall|i: int| 0 <= i < flags.len() implies !flags[i] by {
        let gap = onset_gap(notes, i);
        assert(gap * config.subdivision <= 0) by (nonlinear_arith)
            requires
                gap <= 0,
                config.subdivision >= 1,
        ;
    }
    lemma_none_accepted(flags);
}

/// Samples that are all zero add up to zero.
pub proof fn lemma_zeros_add_up_to_zero(count: nat)
    ensures
        sum_of(Seq::new(count, |i: int| 0int)) == 0,
    decreases count,
{
    let zeros = Seq::new(count, |i: int| 0int);
    if count > 0 {
        assert(zeros.drop_last() =~= Seq::new((count - 1) as nat, |i: int| 0int));
        lemma_zeros_add_up_to_zero((count - 1) as nat);
    }
}

/// Three or more equally spaced notes, a gap apart that is exactly the
/// expected interval and far enough from each other, have a consistency of
/// exactly one.
pub proof fn lemma_equally_spaced_notes_are_consistent(
    config: RunConfig,
    notes: Seq<NoteEvent>,
    gap: int,
)
    requires
        config.valid(),
        notes.len() >= 3,
        gap * config.subdivision == config.beat_length,
        forall|i: int| 0 <= i < notes.len() - 1 ==> onset_gap(notes, i) == gap,
        forall|i: int| 0 <= i < notes.len() - 1 ==> config.pair_far_enough(notes, i),
    ensures
        ({
            let jitter = jitter_samples(config, notes, notes.len() - 1);
            consistency_of(config, sum_of(jitter), jitter.len() as int) == SCORE_ONE
        }),
{
    lemma_equally_spaced_notes(config, notes, gap);
    let count = (notes.len() - 2) as nat;
    lemma_zeros_add_up_to_zero(count);
    let den = count * config.beat_length;
    assert(den >= 1) by (nonlinear_arith)
        requires
            den == count * config.beat_length,
            count >= 1,
            config.beat_length >= 1,
    ;
    assert(0 * config.subdivision * SCORE_ONE == 0);
    assert(0int / den == 0) by (nonlinear_arith)
        requires
            den >= 1,
    ;
}

/// Notes that are equally spaced at exactly the expected interval, but for
/// one gap inside that is half as long again, form two runs: the gaps before
/// the long one and the gaps after it.
pub proof fn lemma_one_long_gap_splits_the_run(
    config: RunConfig,
    notes: Seq<NoteEvent>,
    gap: int,
    k: int,
)
    requires
        config.valid(),
        0 < k < notes.len() - 2,
        gap * config.subdivision == config.beat_length,
        forall|i: int| 0 <= i < notes.len() - 1 && i != k ==> onset_gap(notes, i) == gap,
        2 * (onset_gap(notes, k) * config.subdivision) == 3 * config.beat_length,
        forall|i: int| 0 <= i < notes.len() - 1 ==> config.pair_far_enough(notes, i),
    ensures
        run_lengths(config.flags(notes)) == seq![k, notes.len() - 2 - k],
{
    lemma_exact_gap_matches(config, gap);
    lemma_gap_half_too_long_is_rejected(config, onset_gap(notes, k));
    lemma_one_outlier_splits_the_run(config, notes, k);
}

/// Whether the pairs from `start` up to, not including, `end` are a maximal
/// block of accepted pairs: all of them are accepted, and the pair before
/// and the pair behind, where there is one, are not.
pub open spec fn is_run_block(flags: Seq<bool>, start: int, end: int) -> bool {
    &&& 0 <= start < end <= flags.len()
    &&& forall|i: int| start <= i < end ==> flags[i]
    &&& (start == 0 || !flags[start - 1])
    &&& (end == flags.len() || !flags[end])
}

/// The open run is the maximal block that ends with the last pair.
pub proof fn lemma_open_run_is_a_block(flags: Seq<bool>)
    requires
        trailing_run(flags) > 0,
    ensures
        is_run_block(flags, flags.len() - trailing_run(flags), flags.len() as int),
    decreases flags.len(),
{
    let before = flags.drop_last();
    let start = flags.len() - trailing_run(flags);
    lemma_trailing_run_bounds(flags);
    lemma_trailing_run_bounds(before);
    if trailing_run(before) > 0 {
        lemma_open_run_is_a_block(before);
        assert(is_run_block(before, start, before.len() as int));
    }
    assert forall|i: int| start <= i < flags.len() implies flags[i] by {
        if i < flags.len() - 1 {
            assert(before[i]);
        }
    }
    if start > 0 {
        assert(before[start - 1] == flags[start - 1]);
    }
}

/// A maximal block that ends with the last pair is the open run.
pub proof fn lemma_last_block_is_the_open_run(flags: Seq<bool>, start: int)
    requires
        is_run_block(flags, start, flags.len() as int),
    ensures
        trailing_run(flags) == flags.len() - start,
    decreases flags.len(),
{
    let before = flags.drop_last();
    assert(flags[flags.len() - 1]);
    if start < flags.len() - 1 {
        assert forall|i: int| start <= i < before.len() implies before[i] by {
            assert(flags[i]);
        }
        if start > 0 {
            assert(before[start - 1] == flags[start - 1]);
        }
        assert(is_run_block(before, start, before.len() as int));
        lemma_last_block_is_the_open_run(before, start);
    } else {
        if before.len() > 0 {
            assert(before.last() == flags[start - 1]);
        }
        lemma_trailing_run_bounds(before);
    }
}

/// A maximal block of a sequence that ends before its last flag is one of
/// the sequence without that flag, and the other way round where the block
/// ends at least two flags before the end.
pub proof fn lemma_block_without_last_flag(flags: Seq<bool>, start: int, end: int)
    requires
        0 <= start < end < flags.len(),
    ensures
        end < flags.len() - 1 ==> (is_run_block(flags, start, end) <==> is_run_block(
            flags.drop_last(),
            start,
            end,
        )),
        end == flags.len() - 1 ==> (is_run_block(flags, start, end) <==> !flags.last()
            && is_run_block(flags.drop_last(), start, end)),
{
    let before = flags.drop_last();
    if start > 0 {
        assert(before[start - 1] == flags[start - 1]);
    }
    if end < flags.len() - 1 {
        assert(before[end] == flags[end]);
    }
    if is_run_block(flags, start, end) {
        assert forall|i: int| start <= i < end implies before[i] by {
            assert(flags[i]);
        }
    }
    if is_run_block(before, start, end) {
        assert forall|i: int| start <= i < end implies flags[i] by {
            assert(before[i]);
        }
    }
}

/// Every ended run is a maximal block of accepted pairs that ends before
/// the last pair.
pub proof fn lemma_ended_runs_are_blocks(flags: Seq<bool>, k: int)
    requires
        0 <= k < closed_runs(flags).len(),
    ensures
        exists|start: int, end: int|
            #[trigger] is_run_block(flags, start, end) && end < flags.len() && closed_runs(
                flags,
            )[k] == end - start,
    decreases flags.len(),
{
    let before = flags.drop_last();
    if k < closed_runs(before).len() {
        lemma_ended_runs_are_blocks(before, k);
        let (start, end) = choose|start: int, end: int|
            #[trigger] is_run_block(before, start, end) && end < before.len() && closed_runs(
                before,
            )[k] == end - start;
        lemma_block_without_last_flag(flags, start, end);
        assert(is_run_block(flags, start, end));
    } else {
        lemma_open_run_is_a_block(before);
        lemma_trailing_run_bounds(before);
        lemma_block_without_last_flag(
            flags,
            before.len() - trailing_run(before),
            before.len() as int,
        );
        assert(is_run_block(flags, before.len() - trailing_run(before), before.len() as int));
    }
}

/// Every run is a maximal block of accepted pairs, and its length is the
/// number of pairs in the block.
pub proof fn lemma_runs_are_blocks(flags: Seq<bool>, k: int)
    requires
        0 <= k < run_lengths(flags).len(),
    ensures
        exists|start: int, end: int|
            #[trigger] is_run_block(flags, start, end) && run_lengths(flags)[k] == end - start,
{
    if k < closed_runs(flags).len() {
        lemma_ended_runs_are_blocks(flags, k);
    } else {
        lemma_open_run_is_a_block(flags);
    }
}

/// Every maximal block of accepted pairs that ends before the last pair is
/// an ended run.
pub proof fn lemma_inner_blocks_are_ended_runs(flags: Seq<bool>, start: int, end: int)
    requires
        is_run_block(flags, start, end),
        end < flags.len(),
    ensures
        exists|k: int| 0 <= k < closed_runs(flags).len() && #[trigger] closed_runs(flags)[k] == end
            - start,
    decreases flags.len(),
{
    let before = flags.drop_last();
    lemma_block_without_last_flag(flags, start, end);
    if end == flags.len() - 1 {
        assert(is_run_block(before, start, end));
        lemma_last_block_is_the_open_run(before, start);
        let k = closed_runs(before).len() as int;
        assert(closed_runs(flags)[k] == end - start);
    } else {
        assert(is_run_block(before, start, end));
        lemma_inner_blocks_are_ended_runs(before, start, end);
        let k = choose|k: int|
            0 <= k < closed_runs(before).len() && #[trigger] closed_runs(before)[k] == end - start;
        assert(closed_runs(flags)[k] == end - start);
    }
}

/// Every maximal block of accepted pairs is a run: no block is left out.
pub proof fn lemma_blocks_are_runs(flags: Seq<bool>, start: int, end: int)
    requires
        is_run_block(flags, start, end),
    ensures
        exists|k: int| 0 <= k < run_lengths(flags).len() && #[trigger] run_lengths(flags)[k] == end
            - start,
{
    if end < flags.len() {
        lemma_inner_blocks_are_ended_runs(flags, start, end);
        let k = choose|k: int|
            0 <= k < closed_runs(flags).len() && #[trigger] closed_runs(flags)[k] == end - start;
        assert(run_lengths(flags)[k] == end - start);
    } else {
        lemma_last_block_is_the_open_run(flags, start);
        let k = closed_runs(flags).len() as int;
        assert(run_lengths(flags)[k] == end - start);
    }
}

} // verus!
