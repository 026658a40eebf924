use beatmap_patterns::analyze::jump::analyze_jumps_with;
use beatmap_patterns::analyze::stream::analyze_streams_with;
use beatmap_patterns::analyze::{Jump, Stream};
use beatmap_patterns::model::{Beatmap, NoteEvent, TempoSegment};
use beatmap_patterns::pattern::{measure, PatternKind};
use beatmap_patterns::score::{Thresholds, Weights};
use beatmap_patterns::window::{can_slide, measure_sliding, measure_with, Segmentation};

fn stream_kind() -> PatternKind {
    PatternKind {
        subdivision: 4,
        distance_gate: None,
        thresholds: Thresholds { short_from: 6, medium_from: 10, long_from: 20 },
        weights: Weights { density: 30, consistency: 20, variety: 20, long_ratio: 20, run_length: 20 },
    }
}

fn steady(count: usize, gap: i64) -> Vec<NoteEvent> {
    let mut notes = Vec::new();
    for i in 0..count {
        let t = gap * i as i64;
        let x = if i % 2 == 0 { 100 } else { 300 };
        notes.push(NoteEvent { start_time: t, end_time: t, x, y: 0 });
    }
    notes
}

#[test]
fn no_notes_no_windows() {
    let m = measure_sliding(&[], 150_000, &stream_kind());
    assert_eq!((m.short, m.medium, m.long, m.total, m.gaps), (0, 0, 0, 0, 0));
    assert_eq!((m.longest_run, m.longest_pattern), (0, 0));
    assert_eq!((m.density, m.consistency, m.overall_confidence), (0, 0, 0));
}

#[test]
fn up_to_a_full_window_is_one_window() {
    for count in [1usize, 2, 7, 50, 199, 200] {
        let notes = steady(count, 100_000);
        let whole = measure(&notes, 150_000, &stream_kind());
        let sliding = measure_sliding(&notes, 150_000, &stream_kind());
        assert_eq!(whole, sliding);
    }
}

#[test]
fn one_note_more_than_a_window_is_two_windows() {
    // Windows over notes 0..200 and 50..201: runs of 199 and 150 gaps.
    let notes = steady(201, 100_000);
    let m = measure_sliding(&notes, 150_000, &stream_kind());
    assert_eq!((m.short, m.medium, m.long, m.total), (0, 0, 2, 2));
    assert_eq!(m.gaps, 199 + 150);
    assert_eq!(m.longest_run, 199);
    assert_eq!(m.density, 995_000);
    assert_eq!(m.consistency, 1_000_000);
    assert_eq!(m.overall_confidence, 1_000_000);
}

#[test]
fn windows_overlap_and_the_last_is_cut_short() {
    // Windows over notes 0..200, 50..250, 100..300 and 150..310.
    let notes = steady(310, 100_000);
    let m = measure_sliding(&notes, 150_000, &stream_kind());
    assert_eq!((m.short, m.medium, m.long), (0, 0, 4));
    assert_eq!(m.gaps, 199 + 199 + 199 + 159);
    assert_eq!(m.longest_run, 199);
    assert_eq!(m.longest_pattern, 199);
    assert_eq!(m.density, 995_000);
}

#[test]
fn windows_end_with_the_first_that_reaches_the_last_note() {
    // 250 notes: windows over 0..200 and 50..250 and no more.
    let notes = steady(250, 100_000);
    let m = measure_sliding(&notes, 150_000, &stream_kind());
    assert_eq!(m.long, 2);
    assert_eq!(m.gaps, 398);
}

#[test]
fn a_run_is_counted_in_every_window_that_holds_enough_of_it() {
    // A run of 30 gaps over notes 180..=210, all else too far apart in time.
    let mut notes = Vec::new();
    let mut t: i64 = 0;
    for i in 0..400usize {
        notes.push(NoteEvent { start_time: t, end_time: t, x: 0, y: 0 });
        t += if (180..210).contains(&i) { 100_000 } else { 700_000 };
    }
    let whole = measure(&notes, 150_000, &stream_kind());
    assert_eq!((whole.short, whole.medium, whole.long), (0, 0, 1));
    assert_eq!(whole.longest_run, 30);
    assert_eq!(whole.density, 75_000);
    // Window 0..200 holds 19 gaps of it, windows 50..250, 100..300 and
    // 150..350 all 30, window 200..400 the last 10.
    let m = measure_sliding(&notes, 150_000, &stream_kind());
    assert_eq!((m.short, m.medium, m.long), (0, 2, 3));
    assert_eq!(m.gaps, 19 + 30 + 30 + 30 + 10);
    assert_eq!(m.longest_run, 30);
    assert_eq!(m.density, 150_000);
    assert_eq!(m.consistency, 1_000_000);
    // variety (2 * 2 + 3 * 3) / 5, long ratio 3 / 5:
    // (150 000 * 30 + 1 000 000 * 20 + 2 600 000 * 20 + 600 000 * 20
    //  + 1 000 000 * 20) / 100 = 1 085 000, capped.
    assert_eq!(m.overall_confidence, 1_000_000);
}

#[test]
fn peak_density_is_the_densest_window() {
    // Seven gaps at the very start of 260 notes.
    let mut notes = Vec::new();
    let mut t: i64 = 0;
    for i in 0..260usize {
        notes.push(NoteEvent { start_time: t, end_time: t, x: 0, y: 0 });
        t += if i < 7 { 100_000 } else { 700_000 };
    }
    let m = measure_sliding(&notes, 150_000, &stream_kind());
    assert_eq!((m.short, m.medium, m.long), (1, 0, 0));
    assert_eq!(m.gaps, 7);
    assert_eq!(m.density, 35_000);
    // (35 000 * 30 + 1 000 000 * 20 + 0 + 0 + 1 000 000 * 20) / 100
    assert_eq!(m.overall_confidence, 410_500);
}

#[test]
fn the_mode_chooses_the_scan() {
    let notes = steady(320, 100_000);
    let kind = stream_kind();
    assert_eq!(measure_with(Segmentation::Whole, &notes, 150_000, &kind), measure(&notes, 150_000, &kind));
    assert_eq!(
        measure_with(Segmentation::Sliding, &notes, 150_000, &kind),
        measure_sliding(&notes, 150_000, &kind)
    );
    assert_eq!(measure(&notes, 150_000, &kind).long, 1);
    assert_eq!(measure_sliding(&notes, 150_000, &kind).long, 4);
}

#[test]
fn analyzers_by_windows() {
    let notes = steady(260, 200_000);
    assert!(can_slide(notes.len()));
    let jumps = analyze_jumps_with(Segmentation::Sliding, &notes, 150_000);
    assert_eq!(jumps.long_jumps, 3);
    assert_eq!(jumps.total_jump_count, 3);
    assert_eq!(jumps.max_jump_length, 199);
    assert_eq!(jumps.jump_density, 995_000);
    let streams = analyze_streams_with(Segmentation::Sliding, &notes, 75_000);
    assert_eq!(streams.long_streams, 3);
    assert_eq!(streams.max_stream_length, 199);

    let map = Beatmap { notes, timeline: vec![TempoSegment { time: 0, beat_length: 400_000 }] };
    let by_windows = Jump::new(map.clone()).analyze_with(Segmentation::Sliding);
    assert_eq!(by_windows, jumps);
    let at_once = Jump::new(map.clone()).analyze_with(Segmentation::Whole);
    assert_eq!(at_once, Jump::new(map.clone()).analyze());
    assert_eq!(at_once.long_jumps, 1);
    assert_eq!(at_once.max_jump_length, 259);
    let none = Stream::new(map).analyze_with(Segmentation::Sliding);
    assert_eq!(none.overall_confidence, 0);
}

#[test]
fn too_many_notes_cannot_be_cut_into_windows() {
    assert!(can_slide(0));
    assert!(can_slide(1_000_000));
    assert!(can_slide((usize::MAX - 200) / 4));
    assert!(!can_slide((usize::MAX - 200) / 4 + 1));
    assert!(!can_slide(usize::MAX));
}
