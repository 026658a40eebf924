use beatmap_patterns::runs::RunConfig;
use beatmap_patterns::score::{
    confidence, evaluate, jitter_total, tally, Bucket, Thresholds, Weights,
};

fn jump_thresholds() -> Thresholds {
    Thresholds { short_from: 4, medium_from: 7, long_from: 12 }
}

fn stream_thresholds() -> Thresholds {
    Thresholds { short_from: 6, medium_from: 10, long_from: 20 }
}

fn jump_weights() -> Weights {
    Weights { density: 40, consistency: 20, variety: 35, long_ratio: 45, run_length: 30 }
}

fn stream_weights() -> Weights {
    Weights { density: 30, consistency: 20, variety: 20, long_ratio: 20, run_length: 20 }
}

#[test]
fn jump_buckets_partition_the_lengths() {
    let t = jump_thresholds();
    assert!(t.is_valid());
    for len in 0..40usize {
        let expected = if len < 4 {
            Bucket::Below
        } else if len < 7 {
            Bucket::Short
        } else if len < 12 {
            Bucket::Medium
        } else {
            Bucket::Long
        };
        assert_eq!(t.classify(len), expected);
    }
    assert_eq!(t.classify(usize::MAX), Bucket::Long);
}

#[test]
fn stream_buckets_partition_the_lengths() {
    let t = stream_thresholds();
    assert_eq!(t.classify(0), Bucket::Below);
    assert_eq!(t.classify(5), Bucket::Below);
    assert_eq!(t.classify(6), Bucket::Short);
    assert_eq!(t.classify(9), Bucket::Short);
    assert_eq!(t.classify(10), Bucket::Medium);
    assert_eq!(t.classify(19), Bucket::Medium);
    assert_eq!(t.classify(20), Bucket::Long);
    assert_eq!(t.classify(1_000), Bucket::Long);
}

#[test]
fn thresholds_out_of_order_are_not_valid() {
    assert!(!Thresholds { short_from: 0, medium_from: 7, long_from: 12 }.is_valid());
    assert!(!Thresholds { short_from: 8, medium_from: 7, long_from: 12 }.is_valid());
    assert!(!Thresholds { short_from: 4, medium_from: 13, long_from: 12 }.is_valid());
    assert!(Thresholds { short_from: 4, medium_from: 4, long_from: 4 }.is_valid());
}

#[test]
fn tally_counts_each_class() {
    let lengths = vec![1, 3, 4, 6, 7, 11, 12, 30, 2];
    let t = tally(&lengths, &jump_thresholds());
    assert_eq!((t.short, t.medium, t.long), (2, 2, 2));
    assert_eq!(t.gaps, 4 + 6 + 7 + 11 + 12 + 30);
    assert_eq!(t.longest_run, 30);
    assert_eq!(t.longest_pattern, 30);
    let t = tally(&vec![5, 3, 2], &stream_thresholds());
    assert_eq!((t.short, t.medium, t.long), (0, 0, 0));
    assert_eq!(t.gaps, 0);
    assert_eq!(t.longest_run, 5);
    assert_eq!(t.longest_pattern, 0);
}

#[test]
fn jitter_total_adds_up() {
    assert_eq!(jitter_total(&vec![]), 0);
    assert_eq!(jitter_total(&vec![3, 4, 5]), 12);
    assert_eq!(jitter_total(&vec![u64::MAX, u64::MAX]), 2 * (u64::MAX as u128));
}

#[test]
fn nothing_found_scores_nothing() {
    let config = RunConfig { beat_length: 400_000, subdivision: 2, distance_gate: Some(120) };
    let m = evaluate(&vec![], &vec![], 0, &config, &jump_thresholds(), &jump_weights());
    assert_eq!((m.short, m.medium, m.long, m.total), (0, 0, 0, 0));
    assert_eq!((m.longest_run, m.longest_pattern), (0, 0));
    assert_eq!((m.density, m.consistency, m.overall_confidence), (0, 0, 0));
    let m = evaluate(&vec![], &vec![], 500, &config, &jump_thresholds(), &jump_weights());
    assert_eq!((m.density, m.consistency, m.overall_confidence), (0, 0, 0));
}

#[test]
fn one_short_jump_among_many_notes() {
    // One run of four gaps among a hundred notes, no jitter between them.
    let config = RunConfig { beat_length: 400_000, subdivision: 2, distance_gate: Some(120) };
    let m = evaluate(&vec![4], &vec![0, 0, 0], 100, &config, &jump_thresholds(), &jump_weights());
    assert_eq!((m.short, m.medium, m.long, m.total), (1, 0, 0, 1));
    assert_eq!(m.density, 40_000);
    assert_eq!(m.consistency, 1_000_000);
    // (0.04 * 0.4 + 1 * 0.2 + 0 + 0 + 1 * 0.3) = 0.516
    assert_eq!(m.overall_confidence, 516_000);
}

#[test]
fn runs_below_the_minimum_count_for_nothing_but_the_longest_run() {
    let config = RunConfig { beat_length: 400_000, subdivision: 4, distance_gate: None };
    let m = evaluate(
        &vec![5, 3],
        &vec![0, 0, 0, 0, 0, 0],
        50,
        &config,
        &stream_thresholds(),
        &stream_weights(),
    );
    assert_eq!((m.short, m.medium, m.long, m.total), (0, 0, 0, 0));
    assert_eq!(m.longest_run, 5);
    assert_eq!(m.longest_pattern, 0);
    assert_eq!(m.density, 0);
    assert_eq!(m.consistency, 1_000_000);
    assert_eq!(m.overall_confidence, 200_000);
}

#[test]
fn consistency_falls_with_the_mean_jitter() {
    // Expected interval 333 333 / 2 ticks; three samples of 3 334 ticks.
    let config = RunConfig { beat_length: 333_333, subdivision: 2, distance_gate: None };
    let m = evaluate(
        &vec![4],
        &vec![3_334, 3_334, 3_334],
        10,
        &config,
        &jump_thresholds(),
        &jump_weights(),
    );
    // 1 - (10 002 / 3) / 166 666.5 = 1 - 0.020004..
    assert_eq!(m.consistency, 979_996);
    assert_eq!(m.density, 400_000);
    // 0.4 * 0.4 + 0.979996 * 0.2 + 0.3 = 0.6559992
    assert_eq!(m.overall_confidence, 655_999);
}

#[test]
fn mixed_stream_lengths() {
    let config = RunConfig { beat_length: 400_000, subdivision: 4, distance_gate: None };
    let lengths = vec![6, 10, 25, 3];
    let m = evaluate(&lengths, &vec![0; 40], 1_000, &config, &stream_thresholds(), &stream_weights());
    assert_eq!((m.short, m.medium, m.long, m.total), (1, 1, 1, 3));
    assert_eq!(m.longest_run, 25);
    assert_eq!(m.longest_pattern, 25);
    assert_eq!(m.density, 41_000);
    // variety 5/3, long ratio 1/3, run length term 1:
    // (41 000 * 30 + 1 000 000 * 20 + 1 666 666 * 20 + 333 333 * 20
    //  + 1 000 000 * 20) / 100 = 812 299.8
    assert_eq!(m.overall_confidence, 812_299);
}

#[test]
fn confidence_saturates_at_one() {
    let config = RunConfig { beat_length: 400_000, subdivision: 4, distance_gate: None };
    let m = evaluate(&vec![999], &vec![0; 998], 1_000, &config, &stream_thresholds(), &stream_weights());
    assert_eq!(m.density, 999_000);
    assert_eq!(m.overall_confidence, 1_000_000);
}

#[test]
fn each_term_of_the_confidence() {
    let only = |d: u8, c: u8, v: u8, l: u8, r: u8| Weights {
        density: d,
        consistency: c,
        variety: v,
        long_ratio: l,
        run_length: r,
    };
    // Density and consistency are weighed as they are.
    assert_eq!(confidence(&only(40, 0, 0, 0, 0), 500_000, 900_000, 1, 1, 1, 30), 200_000);
    assert_eq!(confidence(&only(0, 20, 0, 0, 0), 500_000, 900_000, 1, 1, 1, 30), 180_000);
    // Variety: (2 * 1 + 3 * 1) / 3 = 1.666666, a fifth of it is 0.333333.
    assert_eq!(confidence(&only(0, 0, 20, 0, 0), 0, 0, 1, 1, 1, 30), 333_333);
    // Share of long patterns: 1 / 4, of which 45 hundredths.
    assert_eq!(confidence(&only(0, 0, 0, 45, 0), 0, 0, 2, 1, 1, 40), 112_500);
    // Average length 3 / 2 gaps, a third of it is one half.
    assert_eq!(confidence(&only(0, 0, 0, 0, 100), 0, 0, 2, 0, 0, 3), 500_000);
    // From an average of three gaps on the share is full.
    assert_eq!(confidence(&only(0, 0, 0, 0, 30), 0, 0, 2, 0, 0, 6), 300_000);
    assert_eq!(confidence(&only(0, 0, 0, 0, 30), 0, 0, 2, 0, 0, 600), 300_000);
    // Without patterns only density and consistency are left.
    assert_eq!(confidence(&only(40, 20, 35, 45, 30), 0, 1_000_000, 0, 0, 0, 0), 200_000);
    assert_eq!(confidence(&only(40, 20, 35, 45, 30), 0, 0, 0, 0, 0, 0), 0);
    // The sum saturates.
    assert_eq!(confidence(&only(255, 255, 255, 255, 255), u64::MAX, u64::MAX, 0, 0, 9, 90), 1_000_000);
}
