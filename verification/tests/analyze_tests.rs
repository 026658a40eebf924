use beatmap_patterns::analyze::jump::analyze_jumps;
use beatmap_patterns::analyze::stream::analyze_streams;
use beatmap_patterns::analyze::{Jump, JumpAnalysis, Stream, StreamAnalysis};
use beatmap_patterns::model::{Beatmap, NoteEvent, TempoSegment};
use beatmap_patterns::pattern::{measure, PatternKind};
use beatmap_patterns::score::{Thresholds, Weights};

fn steady(count: usize, gap: i64, swing: i32) -> Vec<NoteEvent> {
    let mut notes = Vec::new();
    for i in 0..count {
        let t = 1_000_000 + gap * i as i64;
        let x = if i % 2 == 0 { 100 } else { 100 + swing };
        notes.push(NoteEvent { start_time: t, end_time: t, x, y: 192 });
    }
    notes
}

fn no_jumps() -> JumpAnalysis {
    JumpAnalysis {
        overall_confidence: 0,
        total_jump_count: 0,
        max_jump_length: 0,
        long_jumps: 0,
        medium_jumps: 0,
        short_jumps: 0,
        jump_density: 0,
        bpm_consistency: 0,
    }
}

fn no_streams() -> StreamAnalysis {
    StreamAnalysis {
        overall_confidence: 0,
        short_streams: 0,
        medium_streams: 0,
        long_streams: 0,
        max_stream_length: 0,
        stream_density: 0,
        bpm_consistency: 0,
    }
}

#[test]
fn empty_beatmap_scores_nothing() {
    let map = Beatmap { notes: vec![], timeline: vec![] };
    assert!(map.is_valid());
    assert_eq!(Jump::new(map.clone()).analyze(), no_jumps());
    assert_eq!(Stream::new(map).analyze(), no_streams());
    let map = Beatmap {
        notes: vec![],
        timeline: vec![TempoSegment { time: 0, beat_length: 333_333 }],
    };
    assert_eq!(Jump::new(map.clone()).analyze(), no_jumps());
    assert_eq!(Stream::new(map).analyze(), no_streams());
}

#[test]
fn thousand_note_stream_is_one_long_run() {
    // 180 beats per minute, notes a quarter of a beat apart.
    let map = Beatmap {
        notes: steady(1_000, 83_333, 0),
        timeline: vec![TempoSegment { time: 0, beat_length: 333_333 }],
    };
    assert!(map.is_valid());
    let streams = Stream::new(map.clone()).analyze();
    assert_eq!(
        streams,
        StreamAnalysis {
            overall_confidence: 1_000_000,
            short_streams: 0,
            medium_streams: 0,
            long_streams: 1,
            max_stream_length: 999,
            stream_density: 999_000,
            bpm_consistency: 1_000_000,
        }
    );
    assert_eq!(Jump::new(map).analyze(), no_jumps());
}

#[test]
fn medium_jump_pattern() {
    // 150 beats per minute, nine notes half a beat and 200 units apart.
    let map = Beatmap {
        notes: steady(9, 200_000, 200),
        timeline: vec![TempoSegment { time: 0, beat_length: 400_000 }],
    };
    let jumps = Jump::new(map.clone()).analyze();
    assert_eq!(
        jumps,
        JumpAnalysis {
            overall_confidence: 1_000_000,
            total_jump_count: 1,
            max_jump_length: 8,
            long_jumps: 0,
            medium_jumps: 1,
            short_jumps: 0,
            jump_density: 888_888,
            bpm_consistency: 1_000_000,
        }
    );
    assert_eq!(Stream::new(map).analyze(), no_streams());
}

#[test]
fn short_jump_run_counts_for_the_longest_jump_only() {
    // Three gaps: below the shortest class, but still the longest run.
    let map = Beatmap {
        notes: steady(4, 200_000, 150),
        timeline: vec![TempoSegment { time: 0, beat_length: 400_000 }],
    };
    let jumps = Jump::new(map).analyze();
    assert_eq!(jumps.total_jump_count, 0);
    assert_eq!(jumps.max_jump_length, 3);
    assert_eq!(jumps.jump_density, 0);
    assert_eq!(jumps.bpm_consistency, 1_000_000);
    assert_eq!(jumps.overall_confidence, 200_000);
}

#[test]
fn short_stream_run_is_no_stream() {
    let map = Beatmap {
        notes: steady(6, 100_000, 0),
        timeline: vec![TempoSegment { time: 0, beat_length: 400_000 }],
    };
    let streams = Stream::new(map).analyze();
    assert_eq!(streams.max_stream_length, 0);
    assert_eq!(streams.short_streams, 0);
    assert_eq!(streams.bpm_consistency, 1_000_000);
    assert_eq!(streams.overall_confidence, 200_000);
}

#[test]
fn analysis_uses_the_dominant_tempo() {
    // 400 ms beats for 100 s, then 300 ms beats for 10 s: the notes at a
    // quarter of 400 ms are the stream.
    let map = Beatmap {
        notes: steady(11, 100_000, 0),
        timeline: vec![
            TempoSegment { time: 0, beat_length: 400_000 },
            TempoSegment { time: 100_000_000, beat_length: 300_000 },
        ],
    };
    let mut notes = map.notes.clone();
    notes.push(NoteEvent { start_time: 110_000_000, end_time: 110_000_000, x: 0, y: 0 });
    let map = Beatmap { notes, timeline: map.timeline };
    let streams = Stream::new(map).analyze();
    assert_eq!(streams.medium_streams, 1);
    assert_eq!(streams.max_stream_length, 10);
    assert_eq!(streams.stream_density, 833_333);
}

#[test]
fn analysis_at_a_given_tempo() {
    let notes = steady(30, 250_000, 300);
    // 120 beats per minute: half a beat is 250 ms.
    let jumps = analyze_jumps(&notes, 120_000);
    assert_eq!(jumps.long_jumps, 1);
    assert_eq!(jumps.max_jump_length, 29);
    assert_eq!(jumps.jump_density, 966_666);
    // 60 beats per minute: a quarter of a beat is 250 ms.
    let streams = analyze_streams(&notes, 60_000);
    assert_eq!(streams.long_streams, 1);
    assert_eq!(streams.max_stream_length, 29);
    // At 180 beats per minute neither interval is near 250 ms.
    assert_eq!(analyze_jumps(&notes, 180_000), no_jumps());
    assert_eq!(analyze_streams(&notes, 180_000), no_streams());
}

#[test]
fn confidence_never_exceeds_one() {
    for count in [0usize, 1, 2, 5, 7, 13, 40, 250] {
        for gap in [90_000i64, 100_000, 110_000, 200_000] {
            let map = Beatmap {
                notes: steady(count, gap, 130),
                timeline: vec![TempoSegment { time: 0, beat_length: 400_000 }],
            };
            assert!(Jump::new(map.clone()).analyze().overall_confidence <= 1_000_000);
            assert!(Stream::new(map).analyze().overall_confidence <= 1_000_000);
        }
    }
}

#[test]
fn out_of_range_times_are_not_valid() {
    let far = 9_007_199_254_740_993;
    let note = NoteEvent { start_time: far, end_time: 0, x: 0, y: 0 };
    assert!(!note.is_valid());
    assert!(!Beatmap { notes: vec![note], timeline: vec![] }.is_valid());
    let seg = TempoSegment { time: -far, beat_length: 1 };
    assert!(!seg.is_valid());
    assert!(!Beatmap { notes: vec![], timeline: vec![seg] }.is_valid());
    let edge = NoteEvent { start_time: far - 1, end_time: 1 - far, x: 0, y: 0 };
    assert!(Beatmap { notes: vec![edge], timeline: vec![] }.is_valid());
}

#[test]
fn a_kind_of_its_own() {
    // Thirds of a beat, no gate, classes from two gaps on.
    let kind = PatternKind {
        subdivision: 3,
        distance_gate: None,
        thresholds: Thresholds { short_from: 2, medium_from: 3, long_from: 5 },
        weights: Weights { density: 100, consistency: 0, variety: 0, long_ratio: 0, run_length: 0 },
    };
    assert!(kind.is_valid());
    let m = measure(&steady(4, 100_000, 0), 200_000, &kind);
    assert_eq!((m.short, m.medium, m.long), (0, 1, 0));
    assert_eq!(m.density, 750_000);
    assert_eq!(m.overall_confidence, 750_000);
}
