use beatmap_patterns::model::NoteEvent;
use beatmap_patterns::runs::{calculate_consecutive_notes, RunConfig};

fn note_at(start: i64, x: i32, y: i32) -> NoteEvent {
    NoteEvent { start_time: start, end_time: start, x, y }
}

fn spaced(count: usize, gap: i64) -> Vec<NoteEvent> {
    let mut notes = Vec::new();
    let mut t: i64 = 1_000_000;
    for _ in 0..count {
        notes.push(note_at(t, 256, 192));
        t += gap;
    }
    notes
}

fn quarter(beat_length: i64) -> RunConfig {
    RunConfig { beat_length, subdivision: 4, distance_gate: None }
}

fn half_gated(beat_length: i64) -> RunConfig {
    RunConfig { beat_length, subdivision: 2, distance_gate: Some(120) }
}

#[test]
fn no_notes_no_runs() {
    let (lengths, jitter) = calculate_consecutive_notes(&[], &quarter(400_000));
    assert!(lengths.is_empty());
    assert!(jitter.is_empty());
    let (lengths, jitter) = calculate_consecutive_notes(&spaced(1, 100_000), &quarter(400_000));
    assert!(lengths.is_empty());
    assert!(jitter.is_empty());
}

#[test]
fn equally_spaced_notes_are_one_run() {
    let notes = spaced(25, 100_000);
    let (lengths, jitter) = calculate_consecutive_notes(&notes, &quarter(400_000));
    assert_eq!(lengths, vec![24]);
    assert_eq!(jitter, vec![0u64; 23]);
}

#[test]
fn two_notes_are_a_run_of_one_gap_without_jitter() {
    let notes = spaced(2, 100_000);
    let (lengths, jitter) = calculate_consecutive_notes(&notes, &quarter(400_000));
    assert_eq!(lengths, vec![1]);
    assert!(jitter.is_empty());
}

#[test]
fn one_outlier_gap_splits_the_run() {
    // Ten regular gaps, one gap half as long again, seven regular gaps.
    let mut notes = Vec::new();
    let mut t: i64 = 0;
    for i in 0..19 {
        notes.push(note_at(t, 0, 0));
        t += if i == 10 { 150_000 } else { 100_000 };
    }
    let (lengths, jitter) = calculate_consecutive_notes(&notes, &quarter(400_000));
    assert_eq!(lengths, vec![10, 7]);
    assert_eq!(jitter, vec![0u64; 15]);
}

#[test]
fn reversed_sequence_has_other_runs() {
    let mut notes = spaced(12, 100_000);
    let (forward, _) = calculate_consecutive_notes(&notes, &quarter(400_000));
    assert_eq!(forward, vec![11]);
    notes.reverse();
    let (backward, jitter) = calculate_consecutive_notes(&notes, &quarter(400_000));
    assert!(backward.is_empty());
    assert!(jitter.is_empty());
}

#[test]
fn tolerance_is_ten_percent_inclusive() {
    // Expected interval 100 000 ticks: 90 000 and 110 000 are still in.
    let config = quarter(400_000);
    let at = |gap: i64| calculate_consecutive_notes(&spaced(2, gap), &config).0;
    assert_eq!(at(110_000), vec![1]);
    assert_eq!(at(90_000), vec![1]);
    assert!(at(110_001).is_empty());
    assert!(at(89_999).is_empty());
    assert!(at(0).is_empty());
}

#[test]
fn expected_interval_need_not_be_whole() {
    // A quarter of 333 333 ticks is 83 333.25.
    let config = quarter(333_333);
    let at = |gap: i64| calculate_consecutive_notes(&spaced(2, gap), &config).0;
    assert_eq!(at(83_333), vec![1]);
    assert_eq!(at(75_000), vec![1]);
    assert!(at(74_999).is_empty());
    assert_eq!(at(91_666), vec![1]);
    assert!(at(91_667).is_empty());
}

#[test]
fn jitter_is_the_distance_between_successive_gaps() {
    let notes = vec![
        note_at(0, 0, 0),
        note_at(100_000, 0, 0),
        note_at(205_000, 0, 0),
        note_at(300_000, 0, 0),
        note_at(500_000, 0, 0),
        note_at(600_000, 0, 0),
        note_at(702_000, 0, 0),
    ];
    let (lengths, jitter) = calculate_consecutive_notes(&notes, &quarter(400_000));
    assert_eq!(lengths, vec![3, 2]);
    assert_eq!(jitter, vec![5_000, 10_000, 2_000]);
}

#[test]
fn distance_gate_is_inclusive() {
    let config = half_gated(400_000);
    let pair = |x: i32, y: i32| {
        let notes = vec![note_at(0, 10, 10), note_at(200_000, 10 + x, 10 + y)];
        calculate_consecutive_notes(&notes, &config).0
    };
    assert_eq!(pair(120, 0), vec![1]);
    assert_eq!(pair(0, -120), vec![1]);
    assert_eq!(pair(72, 96), vec![1]);
    assert!(pair(119, 0).is_empty());
    assert!(pair(84, 85).is_empty());
    assert_eq!(pair(85, 85), vec![1]);
}

#[test]
fn close_notes_break_a_jump_run() {
    let xs = [0, 200, 0, 200, 210, 0, 200];
    let mut notes = Vec::new();
    for (i, x) in xs.iter().enumerate() {
        notes.push(note_at(200_000 * i as i64, *x, 0));
    }
    let (lengths, jitter) = calculate_consecutive_notes(&notes, &half_gated(400_000));
    assert_eq!(lengths, vec![3, 2]);
    assert_eq!(jitter, vec![0, 0, 0]);
}

#[test]
fn extreme_positions_do_not_overflow() {
    let notes = vec![
        note_at(0, i32::MIN, i32::MIN),
        note_at(200_000, i32::MAX, i32::MAX),
        note_at(400_000, i32::MAX, i32::MAX),
    ];
    let config = RunConfig { beat_length: 400_000, subdivision: 2, distance_gate: Some(u32::MAX) };
    let (lengths, _) = calculate_consecutive_notes(&notes, &config);
    assert_eq!(lengths, vec![1]);
}

#[test]
fn configurations_out_of_range_are_not_valid() {
    assert!(quarter(400_000).is_valid());
    assert!(half_gated(60_000_000).is_valid());
    assert!(quarter(1).is_valid());
    assert!(!quarter(0).is_valid());
    assert!(!quarter(-400_000).is_valid());
    assert!(!quarter(60_000_001).is_valid());
    assert!(!RunConfig { beat_length: 400_000, subdivision: 0, distance_gate: None }.is_valid());
    assert!(RunConfig { beat_length: 400_000, subdivision: 64, distance_gate: None }.is_valid());
    assert!(!RunConfig { beat_length: 400_000, subdivision: 65, distance_gate: None }.is_valid());
}
