//! Turns run lengths and jitter samples into bucket counts, density,
//! consistency and one confidence score.
//!
//! Scores are whole numbers of millionths: 1 000 000 stands for 1.0.
//! Quotients are rounded down.

use crate::runs::{jitter_view, jitter_within, lengths_view, sum_of, RunConfig};
use vstd::prelude::*;

verus! {

/// The score that stands for 1.0.
pub const SCORE_ONE: u64 = 1_000_000;

/// The average run length at which its share of the confidence is full.
pub const FULL_RUN_LENGTH: u64 = 3;

/// The least consistency that samples can give: two gaps within a tenth of
/// the expected interval differ by at most a fifth of it.
pub const CONSISTENCY_FLOOR: u64 = 800_000;

/// Where the length classes begin, in accepted gaps.
#[derive(Clone, Copy, Debug, PartialEq, Eq, Structural)]
pub struct Thresholds {
    /// Shortest run that counts as a pattern.
    pub short_from: usize,
    /// Shortest run of medium length.
    pub medium_from: usize,
    /// Shortest long run.
    pub long_from: usize,
}

/// The length class of a run.
#[derive(Clone, Copy, Debug, PartialEq, Eq, Structural)]
pub enum Bucket {
    /// Too short to count as a pattern.
    Below,
    Short,
    Medium,
    Long,
}

/// The weight of each term of the confidence, in hundredths.
#[derive(Clone, Copy, Debug, PartialEq, Eq, Structural)]
pub struct Weights {
    pub density: u8,
    pub consistency: u8,
    pub variety: u8,
    pub long_ratio: u8,
    pub run_length: u8,
}

/// What one scan amounts to.
#[derive(Clone, Copy, Debug, PartialEq, Eq, Structural)]
pub struct Metrics {
    /// Runs in the short class.
    pub short: usize,
    /// Runs in the medium class.
    pub medium: usize,
    /// Runs in the long class.
    pub long: usize,
    /// Runs that count as a pattern: short, medium and long together.
    pub total: usize,
    /// Accepted gaps inside those patterns.
    pub gaps: usize,
    /// Length of the longest run, whether it counts as a pattern or not.
    pub longest_run: usize,
    /// Length of the longest run that counts as a pattern.
    pub longest_pattern: usize,
    /// Gaps inside patterns per note, in millionths.
    pub density: u64,
    /// One less the mean jitter per expected interval, in millionths; zero
    /// without jitter samples.
    pub consistency: u64,
    /// The weighted sum of the terms, capped at `SCORE_ONE`.
    pub overall_confidence: u64,
}

impl Thresholds {
    /// The classes follow one another: below, short, medium, long.
    pub open spec fn valid(&self) -> bool {
        1 <= self.short_from <= self.medium_from <= self.long_from
    }

    /// Whether a run of `len` gaps is too short to count.
    pub open spec fn is_below(&self, len: int) -> bool {
        len < self.short_from
    }

    /// Whether a run of `len` gaps is short.
    pub open spec fn is_short(&self, len: int) -> bool {
        self.short_from <= len < self.medium_from
    }

    /// Whether a run of `len` gaps is of medium length.
    pub open spec fn is_medium(&self, len: int) -> bool {
        self.medium_from <= len < self.long_from
    }

    /// Whether a run of `len` gaps is long.
    pub open spec fn is_long(&self, len: int) -> bool {
        self.long_from <= len
    }

    /// The class of a run of `len` gaps.
    pub open spec fn bucket_of(&self, len: int) -> Bucket {
        if self.is_below(len) {
            Bucket::Below
        } else if self.is_short(len) {
            Bucket::Short
        } else if self.is_medium(len) {
            Bucket::Medium
        } else {
            Bucket::Long
        }
    }

    /// Tests whether the classes follow one another.
    pub fn is_valid(&self) -> (ok: bool)
        ensures
            ok == self.valid(),
    {
        1 <= self.short_from && self.short_from <= self.medium_from && self.medium_from
            <= self.long_from
    }

    /// The class of a run of `len` gaps.
    pub fn classify(&self, len: usize) -> (bucket: Bucket)
        ensures
            bucket == self.bucket_of(len as int),
    {
        if len < self.short_from {
            Bucket::Below
        } else if len < self.medium_from {
            Bucket::Short
        } else if len < self.long_from {
            Bucket::Medium
        } else {
            Bucket::Long
        }
    }
}

/// The classes are a partition: every length is in exactly one of them, and
/// `bucket_of` names it.
pub proof fn lemma_buckets_partition(thresholds: Thresholds, len: int)
    requires
        thresholds.valid(),
    ensures
        thresholds.is_below(len) || thresholds.is_short(len) || thresholds.is_medium(len)
            || thresholds.is_long(len),
        !(thresholds.is_below(len) && thresholds.is_short(len)),
        !(thresholds.is_below(len) && thresholds.is_medium(len)),
        !(thresholds.is_below(len) && thresholds.is_long(len)),
        !(thresholds.is_short(len) && thresholds.is_medium(len)),
        !(thresholds.is_short(len) && thresholds.is_long(len)),
        !(thresholds.is_medium(len) && thresholds.is_long(len)),
        thresholds.is_below(len) <==> thresholds.bucket_of(len) == Bucket::Below,
        thresholds.is_short(len) <==> thresholds.bucket_of(len) == Bucket::Short,
        thresholds.is_medium(len) <==> thresholds.bucket_of(len) == Bucket::Medium,
        thresholds.is_long(len) <==> thresholds.bucket_of(len) == Bucket::Long,
{
}

/// How many of `lengths` fall in `bucket`.
pub open spec fn count_in(lengths: Seq<int>, thresholds: Thresholds, bucket: Bucket) -> int
    decreases lengths.len(),
{
    if lengths.len() == 0 {
        0
    } else {
        count_in(lengths.drop_last(), thresholds, bucket) + if thresholds.bucket_of(lengths.last())
            == bucket {
            1int
        } else {
            0int
        }
    }
}

/// The gaps inside patterns: the sum of the lengths that are not below the
/// shortest class.
pub open spec fn pattern_gaps(lengths: Seq<int>, thresholds: Thresholds) -> int
    decreases lengths.len(),
{
    if lengths.len() == 0 {
        0
    } else {
        pattern_gaps(lengths.drop_last(), thresholds) + if thresholds.is_below(lengths.last()) {
            0
        } else {
            lengths.last()
        }
    }
}

/// The largest of `lengths` that is at least `floor`, or zero if none is.
pub open spec fn longest_from(lengths: Seq<int>, floor: int) -> int
    decreases lengths.len(),
{
    if lengths.len() == 0 {
        0
    } else {
        let rest = longest_from(lengths.drop_last(), floor);
        if lengths.last() >= floor && lengths.last() > rest {
            lengths.last()
        } else {
            rest
        }
    }
}

/// The patterns per note, in millionths; zero where there is no note.
pub open spec fn density_of(gaps: int, note_count: int) -> int {
    if note_count == 0 {
        0
    } else {
        gaps * SCORE_ONE / note_count
    }
}

/// One less the mean of the samples divided by the expected interval, in
/// millionths; zero where there is no sample.
pub open spec fn consistency_of(config: RunConfig, jitter_sum: int, jitter_count: int) -> int {
    if jitter_count == 0 {
        0
    } else {
        SCORE_ONE - (jitter_sum * config.subdivision * SCORE_ONE) / (jitter_count
            * config.beat_length)
    }
}

/// Twice the medium and three times the long runs, per pattern (per one, if
/// there is none), in millionths.
pub open spec fn variety_of(short: int, medium: int, long: int) -> int {
    (medium * 2 + long * 3) * SCORE_ONE / at_least_one(short + medium + long)
}

/// The long runs per pattern (per one, if there is none), in millionths.
pub open spec fn long_ratio_of(long: int, total: int) -> int {
    long * SCORE_ONE / at_least_one(total)
}

/// The gaps per pattern, in millionths; zero where there is no pattern.
pub open spec fn average_length_of(gaps: int, total: int) -> int {
    if total == 0 {
        0
    } else {
        gaps * SCORE_ONE / total
    }
}

/// The share that the average run length has earned: a third of it, at most
/// one.
pub open spec fn length_term(average: int) -> int {
    at_most_one(average / (FULL_RUN_LENGTH as int))
}

/// `n`, or one if it is less.
pub open spec fn at_least_one(n: int) -> int {
    if n < 1 {
        1
    } else {
        n
    }
}

/// `score`, or `SCORE_ONE` if it is more.
pub open spec fn at_most_one(score: int) -> int {
    if score > SCORE_ONE {
        SCORE_ONE as int
    } else {
        score
    }
}

/// The weighted sum of the five terms, capped at `SCORE_ONE`. The weights
/// may add up to more than one: the sum saturates. There is no cap from
/// below.
pub open spec fn confidence_of(
    weights: Weights,
    density: int,
    consistency: int,
    variety: int,
    long_ratio: int,
    average: int,
) -> int {
    at_most_one(
        (density * weights.density + consistency * weights.consistency + variety * weights.variety
            + long_ratio * weights.long_ratio + length_term(average) * weights.run_length) / 100,
    )
}

/// The confidence never exceeds one, whatever the terms and the weights are.
pub proof fn lemma_confidence_saturates(
    weights: Weights,
    density: int,
    consistency: int,
    variety: int,
    long_ratio: int,
    average: int,
)
    ensures
        confidence_of(weights, density, consistency, variety, long_ratio, average) <= SCORE_ONE,
{
}

/// The confidence that follows from the density, the consistency, the class
/// counts and the gaps inside patterns.
pub open spec fn confidence_from(
    weights: Weights,
    density: int,
    consistency: int,
    short: int,
    medium: int,
    long: int,
    gaps: int,
) -> int {
    confidence_of(
        weights,
        density,
        consistency,
        variety_of(short, medium, long),
        long_ratio_of(long, short + medium + long),
        average_length_of(gaps, short + medium + long),
    )
}

/// What the runs `lengths` and the samples `jitter`, found among
/// `note_count` notes, amount to.
pub open spec fn metrics_of(
    lengths: Seq<int>,
    jitter: Seq<int>,
    note_count: int,
    config: RunConfig,
    thresholds: Thresholds,
    weights: Weights,
) -> Metrics {
    let short = count_in(lengths, thresholds, Bucket::Short);
    let medium = count_in(lengths, thresholds, Bucket::Medium);
    let long = count_in(lengths, thresholds, Bucket::Long);
    let total = short + medium + long;
    let gaps = pattern_gaps(lengths, thresholds);
    let density = density_of(gaps, note_count);
    let consistency = consistency_of(config, sum_of(jitter), jitter.len() as int);
    Metrics {
        short: short as usize,
        medium: medium as usize,
        long: long as usize,
        total: total as usize,
        gaps: gaps as usize,
        longest_run: longest_from(lengths, 0) as usize,
        longest_pattern: longest_from(lengths, thresholds.short_from as int) as usize,
        density: density as u64,
        consistency: consistency as u64,
        overall_confidence: confidence_from(
            weights,
            density,
            consistency,
            short,
            medium,
            long,
            gaps,
        ) as u64,
    }
}

/// The counts of one pass over the run lengths.
pub struct Tally {
    pub short: usize,
    pub medium: usize,
    pub long: usize,
    pub gaps: u128,
    pub longest_run: usize,
    pub longest_pattern: usize,
}

/// Counts the runs of each class, adds up the gaps inside patterns and finds
/// the longest run and the longest pattern.
pub fn tally(lengths: &Vec<usize>, thresholds: &Thresholds) -> (t: Tally)
    ensures
        t.short == count_in(lengths_view(lengths@), *thresholds, Bucket::Short),
        t.medium == count_in(lengths_view(lengths@), *thresholds, Bucket::Medium),
        t.long == count_in(lengths_view(lengths@), *thresholds, Bucket::Long),
        t.short + t.medium + t.long <= lengths@.len(),
        t.gaps == pattern_gaps(lengths_view(lengths@), *thresholds),
        t.longest_run == longest_from(lengths_view(lengths@), 0),
        t.longest_pattern == longest_from(lengths_view(lengths@), thresholds.short_from as int),
{
    let ghost lv = lengths_view(lengths@);
    let mut t = Tally { short: 0, medium: 0, long: 0, gaps: 0, longest_run: 0, longest_pattern: 0 };
    let mut i: usize = 0;
    assert(lv.take(0) =~= Seq::<int>::empty());
    while i < lengths.len()
        invariant
            lv == lengths_view(lengths@),
            i <= lengths@.len(),
            t.short == count_in(lv.take(i as int), *thresholds, Bucket::Short),
            t.medium == count_in(lv.take(i as int), *thresholds, Bucket::Medium),
            t.long == count_in(lv.take(i as int), *thresholds, Bucket::Long),
            t.short + t.medium + t.long <= i,
            t.gaps == pattern_gaps(lv.take(i as int), *thresholds),
            t.gaps <= i * 0xFFFF_FFFF_FFFF_FFFF,
            t.longest_run == longest_from(lv.take(i as int), 0),
            t.longest_pattern == longest_from(lv.take(i as int), thresholds.short_from as int),
        decreases lengths.len() - i,
    {
        let len: usize = lengths[i];
        proof {
            assert(lv.take(i + 1).drop_last() =~= lv.take(i as int));
            assert(lv.take(i + 1).last() == len as int);
        }
        match thresholds.classify(len) {
            Bucket::Below => {},
            Bucket::Short => {
                t.short = t.short + 1;
            },
            Bucket::Medium => {
                t.medium = t.medium + 1;
            },
            Bucket::Long => {
                t.long = t.long + 1;
            },
        }
        if len >= thresholds.short_from {
            t.gaps = t.gaps + len as u128;
            if len > t.longest_pattern {
                t.longest_pattern = len;
            }
        }
        if len > t.longest_run {
            t.longest_run = len;
        }
        i += 1;
    }
    assert(lv.take(i as int) =~= lv);
    t
}

/// The sum of the jitter samples.
pub fn jitter_total(jitter: &Vec<u64>) -> (total: u128)
    ensures
        total == sum_of(jitter_view(jitter@)),
        total <= jitter@.len() * 0xFFFF_FFFF_FFFF_FFFF,
{
    let ghost jv = jitter_view(jitter@);
    let mut total: u128 = 0;
    let mut i: usize = 0;
    assert(jv.take(0) =~= Seq::<int>::empty());
    while i < jitter.len()
        invariant
            jv == jitter_view(jitter@),
            i <= jitter@.len(),
            total == sum_of(jv.take(i as int)),
            total <= i * 0xFFFF_FFFF_FFFF_FFFF,
        decreases jitter.len() - i,
    {
        proof {
            assert(jv.take(i + 1).drop_last() =~= jv.take(i as int));
            assert(jv.take(i + 1).last() == jitter@[i as int] as int);
        }
        total = total + jitter[i] as u128;
        i += 1;
    }
    assert(jv.take(i as int) =~= jv);
    total
}

/// A quotient is at most `k` where the dividend is at most `k` times the
/// divisor.
pub proof fn lemma_quotient_bound(a: int, d: int, k: int)
    requires
        0 <= a,
        0 < d,
        a <= k * d,
    ensures
        0 <= a / d <= k,
{
    assert(0 <= a / d <= k) by (nonlinear_arith)
        requires
            0 <= a,
            0 < d,
            a <= k * d,
    ;
}

/// A product of two bounded numbers is bounded by the product of the bounds.
pub proof fn lemma_product_bound(a: int, b: int, a_max: int, b_max: int)
    requires
        0 <= a <= a_max,
        0 <= b <= b_max,
    ensures
        0 <= a * b <= a_max * b_max,
{
    assert(0 <= a * b <= a_max * b_max) by (nonlinear_arith)
        requires
            0 <= a <= a_max,
            0 <= b <= b_max,
    ;
}

/// The gaps inside patterns are some of all the gaps inside runs.
pub proof fn lemma_pattern_gaps_bounded(lengths: Seq<int>, thresholds: Thresholds)
    requires
        forall|k: int| 0 <= k < lengths.len() ==> 0 <= lengths[k],
    ensures
        0 <= pattern_gaps(lengths, thresholds) <= sum_of(lengths),
    decreases lengths.len(),
{
    if lengths.len() > 0 {
        lemma_pattern_gaps_bounded(lengths.drop_last(), thresholds);
    }
}

/// Each pattern holds at least one gap.
pub proof fn lemma_patterns_hold_gaps(lengths: Seq<int>, thresholds: Thresholds)
    requires
        thresholds.valid(),
    ensures
        count_in(lengths, thresholds, Bucket::Short) + count_in(lengths, thresholds, Bucket::Medium)
            + count_in(lengths, thresholds, Bucket::Long) <= pattern_gaps(lengths, thresholds),
    decreases lengths.len(),
{
    if lengths.len() > 0 {
        lemma_patterns_hold_gaps(lengths.drop_last(), thresholds);
    }
}

/// The mean of samples that are each at most a fifth of the expected
/// interval is at most a fifth of it.
pub proof fn lemma_jitter_sum_bounded(config: RunConfig, jitter: Seq<int>)
    requires
        config.valid(),
        jitter_within(config, jitter),
    ensures
        0 <= sum_of(jitter),
        0 <= sum_of(jitter) * config.subdivision,
        sum_of(jitter) * config.subdivision * 5 <= jitter.len() * config.beat_length,
    decreases jitter.len(),
{
    if jitter.len() > 0 {
        let rest = jitter.drop_last();
        let x = jitter.last();
        lemma_jitter_sum_bounded(config, rest);
        let s = config.subdivision as int;
        let b = config.beat_length as int;
        let r = sum_of(rest);
        let n = rest.len() as int;
        assert(0 <= (r + x) * s && (r + x) * s * 5 <= (n + 1) * b) by (nonlinear_arith)
            requires
                0 <= r * s,
                r * s * 5 <= n * b,
                0 <= x,
                x * s * 5 <= b,
                s >= 1,
        ;
    } else {
        assert(sum_of(jitter) * config.subdivision == 0) by (nonlinear_arith)
            requires
                sum_of(jitter) == 0,
        ;
        assert(jitter.len() * config.beat_length == 0) by (nonlinear_arith)
            requires
                jitter.len() == 0,
        ;
    }
}

/// Where there are samples, the consistency lies between four fifths and
/// one.
pub proof fn lemma_consistency_range(config: RunConfig, jitter: Seq<int>)
    requires
        config.valid(),
        jitter_within(config, jitter),
        jitter.len() > 0,
    ensures
        CONSISTENCY_FLOOR <= consistency_of(config, sum_of(jitter), jitter.len() as int)
            <= SCORE_ONE,
{
    lemma_jitter_sum_bounded(config, jitter);
    let scaled = sum_of(jitter) * config.subdivision;
    let den = jitter.len() * config.beat_length;
    assert(den >= 1) by (nonlinear_arith)
        requires
            den == jitter.len() * config.beat_length,
            jitter.len() >= 1,
            config.beat_length >= 1,
    ;
    lemma_quotient_bound(scaled * SCORE_ONE, den, 200_000);
}

/// A quotient by a positive number is at most the dividend.
pub proof fn lemma_quotient_at_most_dividend(a: int, d: int)
    requires
        0 <= a,
        0 < d,
    ensures
        0 <= a / d <= a,
{
    assert(0 <= a / d <= a) by (nonlinear_arith)
        requires
            0 <= a,
            0 < d,
    ;
}

/// The weighted, capped sum of the five terms: density, consistency,
/// variety, share of long patterns and average pattern length.
pub fn confidence(
    weights: &Weights,
    density: u64,
    consistency: u64,
    short: usize,
    medium: usize,
    long: usize,
    gaps: usize,
) -> (score: u64)
    ensures
        score == confidence_from(
            *weights,
            density as int,
            consistency as int,
            short as int,
            medium as int,
            long as int,
            gaps as int,
        ),
        score <= SCORE_ONE,
{
    let one: u128 = SCORE_ONE as u128;
    let total: u128 = short as u128 + medium as u128 + long as u128;
    let pool: u128 = if total == 0 {
        1
    } else {
        total
    };
    proof {
        lemma_quotient_at_most_dividend((medium * 2 + long * 3) * SCORE_ONE, pool as int);
        lemma_quotient_at_most_dividend(long * SCORE_ONE, pool as int);
        lemma_quotient_at_most_dividend(gaps * SCORE_ONE, pool as int);
    }
    let variety: u128 = (medium as u128 * 2 + long as u128 * 3) * one / pool;
    let long_ratio: u128 = long as u128 * one / pool;
    let average: u128 = if total == 0 {
        0
    } else {
        gaps as u128 * one / total
    };
    let third: u128 = average / (FULL_RUN_LENGTH as u128);
    let length_share: u128 = if third > one {
        one
    } else {
        third
    };
    proof {
        let big: int = 0x1_0000_0000_0000_0000_0000_0000;
        lemma_product_bound(density as int, weights.density as int, big, 255);
        lemma_product_bound(consistency as int, weights.consistency as int, big, 255);
        lemma_product_bound(variety as int, weights.variety as int, big, 255);
        lemma_product_bound(long_ratio as int, weights.long_ratio as int, big, 255);
        lemma_product_bound(length_share as int, weights.run_length as int, big, 255);
    }
    let weighted: u128 = (density as u128 * (weights.density as u128) + consistency as u128 * (
    weights.consistency as u128) + variety * (weights.variety as u128) + long_ratio * (
    weights.long_ratio as u128) + length_share * (weights.run_length as u128)) / 100;
    if weighted > one {
        SCORE_ONE
    } else {
        weighted as u64
    }
}

/// Computes the metrics of one scan: the class counts, the longest run, the
/// density, the consistency and the confidence.
pub fn evaluate(
    lengths: &Vec<usize>,
    jitter: &Vec<u64>,
    note_count: usize,
    config: &RunConfig,
    thresholds: &Thresholds,
    weights: &Weights,
) -> (m: Metrics)
    requires
        config.valid(),
        jitter_within(*config, jitter_view(jitter@)),
        sum_of(lengths_view(lengths@)) <= note_count,
    ensures
        m == metrics_of(
            lengths_view(lengths@),
            jitter_view(jitter@),
            note_count as int,
            *config,
            *thresholds,
            *weights,
        ),
        m.total == m.short + m.medium + m.long,
        m.gaps <= note_count,
        m.density <= SCORE_ONE,
        m.consistency <= SCORE_ONE,
        m.overall_confidence <= SCORE_ONE,
        jitter@.len() > 0 ==> m.consistency >= CONSISTENCY_FLOOR,
        thresholds.valid() ==> m.total <= m.gaps,
{
    let ghost lv = lengths_view(lengths@);
    let ghost jv = jitter_view(jitter@);
    let t = tally(lengths, thresholds);
    let jitter_sum: u128 = jitter_total(jitter);
    let run_count: usize = lengths.len();
    assert(t.short + t.medium + t.long <= run_count);
    let total: usize = t.short + t.medium + t.long;
    let one: u128 = SCORE_ONE as u128;
    proof {
        lemma_pattern_gaps_bounded(lv, *thresholds);
        lemma_jitter_sum_bounded(*config, jv);
        if thresholds.valid() {
            lemma_patterns_hold_gaps(lv, *thresholds);
        }
    }
    let density: u128 = if note_count == 0 {
        0
    } else {
        proof {
            lemma_quotient_bound(t.gaps * SCORE_ONE, note_count as int, SCORE_ONE as int);
        }
        t.gaps * one / (note_count as u128)
    };
    let consistency: u128 = if jitter.len() == 0 {
        0
    } else {
        let count: u128 = jitter.len() as u128;
        let beat: u128 = config.beat_length as u128;
        proof {
            lemma_product_bound(
                count as int,
                beat as int,
                0xFFFF_FFFF_FFFF_FFFF,
                60_000_000,
            );
            lemma_product_bound(1, 1, count as int, beat as int);
            lemma_consistency_range(*config, jv);
        }
        let den: u128 = count * beat;
        let scaled: u128 = jitter_sum * (config.subdivision as u128);
        one - scaled * one / den
    };
    let confidence: u64 = confidence(
        weights,
        density as u64,
        consistency as u64,
        t.short,
        t.medium,
        t.long,
        t.gaps as usize,
    );
    Metrics {
        short: t.short,
        medium: t.medium,
        long: t.long,
        total,
        gaps: t.gaps as usize,
        longest_run: t.longest_run,
        longest_pattern: t.longest_pattern,
        density: density as u64,
        consistency: consistency as u64,
        overall_confidence: confidence,
    }
}

/// The metrics in which every count and every score is zero.
pub open spec fn no_metrics() -> Metrics {
    Metrics {
        short: 0,
        medium: 0,
        long: 0,
        total: 0,
        gaps: 0,
        longest_run: 0,
        longest_pattern: 0,
        density: 0,
        consistency: 0,
        overall_confidence: 0,
    }
}

/// Without runs and without jitter samples every count and every score is
/// zero, whatever the number of notes.
pub proof fn lemma_nothing_found_scores_nothing(
    note_count: int,
    config: RunConfig,
    thresholds: Thresholds,
    weights: Weights,
)
    requires
        0 <= note_count,
    ensures
        metrics_of(
            Seq::<int>::empty(),
            Seq::<int>::empty(),
            note_count,
            config,
            thresholds,
            weights,
        ) == no_metrics(),
{
    let lengths = Seq::<int>::empty();
    let jitter = Seq::<int>::empty();
    assert(pattern_gaps(lengths, thresholds) == 0);
    assert(sum_of(jitter) == 0);
    assert(density_of(0, note_count) == 0) by (nonlinear_arith)
        requires
            0 <= note_count,
    ;
    assert(consistency_of(config, 0, 0) == 0);
    assert(variety_of(0, 0, 0) == 0);
    assert(long_ratio_of(0, 0) == 0);
    assert(average_length_of(0, 0) == 0);
    assert(length_term(0) == 0);
    assert(0 * weights.density + 0 * weights.consistency + 0 * weights.variety + 0
        * weights.long_ratio + 0 * weights.run_length == 0);
    assert(confidence_of(weights, 0, 0, 0, 0, 0) == 0);
    assert(confidence_from(weights, 0, 0, 0, 0, 0, 0) == 0);
}

/// No class holds more runs than there are, and the longest run is no
/// longer than all runs together.
pub proof fn lemma_counts_bounded(lengths: Seq<int>, thresholds: Thresholds, floor: int)
    requires
        forall|k: int| 0 <= k < lengths.len() ==> 1 <= lengths[k],
    ensures
        0 <= count_in(lengths, thresholds, Bucket::Short),
        0 <= count_in(lengths, thresholds, Bucket::Medium),
        0 <= count_in(lengths, thresholds, Bucket::Long),
        count_in(lengths, thresholds, Bucket::Short) + count_in(lengths, thresholds, Bucket::Medium)
            + count_in(lengths, thresholds, Bucket::Long) <= lengths.len() <= sum_of(lengths),
        0 <= longest_from(lengths, floor) <= sum_of(lengths),
    decreases lengths.len(),
{
    if lengths.len() > 0 {
        lemma_counts_bounded(lengths.drop_last(), thresholds, floor);
    }
}

/// Where the runs and the samples come from a scan of `note_count` notes,
/// every value of the metrics is the quantity it stands for: none is too
/// large for its field.
pub proof fn lemma_metrics_fit(
    lengths: Seq<int>,
    jitter: Seq<int>,
    note_count: int,
    config: RunConfig,
    thresholds: Thresholds,
    weights: Weights,
)
    requires
        config.valid(),
        forall|k: int| 0 <= k < lengths.len() ==> 1 <= lengths[k],
        sum_of(lengths) <= note_count <= usize::MAX,
        jitter_within(config, jitter),
    ensures
        ({
            let m = metrics_of(lengths, jitter, note_count, config, thresholds, weights);
            &&& m.short == count_in(lengths, thresholds, Bucket::Short)
            &&& m.medium == count_in(lengths, thresholds, Bucket::Medium)
            &&& m.long == count_in(lengths, thresholds, Bucket::Long)
            &&& m.total == m.short + m.medium + m.long
            &&& m.gaps == pattern_gaps(lengths, thresholds)
            &&& m.longest_run == longest_from(lengths, 0)
            &&& m.longest_pattern == longest_from(lengths, thresholds.short_from as int)
            &&& m.density == density_of(pattern_gaps(lengths, thresholds), note_count)
            &&& m.consistency == consistency_of(config, sum_of(jitter), jitter.len() as int)
            &&& m.overall_confidence == confidence_from(
                weights,
                m.density as int,
                m.consistency as int,
                m.short as int,
                m.medium as int,
                m.long as int,
                m.gaps as int,
            )
            &&& m.density <= SCORE_ONE
            &&& m.consistency <= SCORE_ONE
            &&& m.overall_confidence <= SCORE_ONE
        }),
{
    lemma_counts_bounded(lengths, thresholds, 0);
    lemma_counts_bounded(lengths, thresholds, thresholds.short_from as int);
    lemma_pattern_gaps_bounded(lengths, thresholds);
    let gaps = pattern_gaps(lengths, thresholds);
    if note_count > 0 {
        lemma_quotient_bound(gaps * SCORE_ONE, note_count, SCORE_ONE as int);
    }
    if jitter.len() > 0 {
        lemma_consistency_range(config, jitter);
    }
    let m = metrics_of(lengths, jitter, note_count, config, thresholds, weights);
    let pool = at_least_one(m.short + m.medium + m.long);
    lemma_quotient_at_most_dividend((m.medium * 2 + m.long * 3) * SCORE_ONE, pool);
    lemma_quotient_at_most_dividend(m.long * SCORE_ONE, pool);
    lemma_quotient_at_most_dividend(m.gaps * SCORE_ONE, pool);
}

} // verus!
