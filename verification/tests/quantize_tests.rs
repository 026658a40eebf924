use beatmap_patterns::model::{NoteEvent, TempoSegment};
use beatmap_patterns::quantize::{
    nearest_within, power_of_two, ticks_from_double_bits, units_from_single_bits,
};

const TIME_LIMIT: i64 = 9_007_199_254_740_992;

fn ticks(ms: f64) -> i64 {
    ticks_from_double_bits(ms.to_bits())
}

fn units(pos: f32) -> i32 {
    units_from_single_bits(pos.to_bits())
}

#[test]
fn milliseconds_become_ticks() {
    assert_eq!(ticks(0.0), 0);
    assert_eq!(ticks(-0.0), 0);
    assert_eq!(ticks(1.0), 1_000);
    assert_eq!(ticks(-1.0), -1_000);
    assert_eq!(ticks(333.333), 333_333);
    assert_eq!(ticks(333.333_333_333_333_3), 333_333);
    assert_eq!(ticks(166.667), 166_667);
    assert_eq!(ticks(60_000.0), 60_000_000);
    assert_eq!(ticks(1234.5678), 1_234_568);
    assert_eq!(ticks(-1234.5678), -1_234_568);
    assert_eq!(ticks(4_503_599_627_370.496), 4_503_599_627_370_496);
}

#[test]
fn halves_go_away_from_zero() {
    assert_eq!(ticks(0.0005), 1);
    assert_eq!(ticks(-0.0005), -1);
    assert_eq!(ticks(0.000_499), 0);
    assert_eq!(ticks(-0.000_499), 0);
    // A sixteenth of a millisecond is 62.5 ticks, exactly.
    assert_eq!(ticks(0.0625), 63);
    assert_eq!(ticks(-0.0625), -63);
    assert_eq!(ticks(0.1875), 188);
    assert_eq!(ticks(0.03125), 31);
    assert_eq!(ticks(1.0 / 2048.0), 0);
    // The nearest binary64 number to 1.0005 lies just below it.
    assert_eq!(ticks(1.0005), 1_000);
    assert_eq!(units(0.5), 1);
    assert_eq!(units(-0.5), -1);
    assert_eq!(units(1.5), 2);
    assert_eq!(units(2.5), 3);
    assert_eq!(units(-2.5), -3);
    assert_eq!(units(0.499_999_97), 0);
}

#[test]
fn times_out_of_range_are_held_at_the_edge() {
    assert_eq!(ticks(1e300), TIME_LIMIT);
    assert_eq!(ticks(-1e300), -TIME_LIMIT);
    assert_eq!(ticks(f64::MAX), TIME_LIMIT);
    assert_eq!(ticks(f64::INFINITY), TIME_LIMIT);
    assert_eq!(ticks(f64::NEG_INFINITY), -TIME_LIMIT);
    assert_eq!(ticks(9_007_199_254_740.992), TIME_LIMIT);
    assert_eq!(ticks(9_007_199_254_740.0), 9_007_199_254_740_000);
    assert_eq!(ticks(9_007_199_254_741.0), TIME_LIMIT);
    assert_eq!(ticks(4_503_599_627_370_496.0), TIME_LIMIT);
    assert_eq!(ticks(9_007_199_254_740_992.0), TIME_LIMIT);
}

#[test]
fn what_is_not_a_number_counts_as_zero() {
    assert_eq!(ticks(f64::NAN), 0);
    assert_eq!(ticks(-f64::NAN), 0);
    assert_eq!(units(f32::NAN), 0);
}

#[test]
fn tiny_times_are_zero() {
    assert_eq!(ticks(f64::MIN_POSITIVE), 0);
    assert_eq!(ticks(-f64::MIN_POSITIVE), 0);
    assert_eq!(ticks(f64::from_bits(1)), 0);
    assert_eq!(ticks(1e-30), 0);
    assert_eq!(units(f32::MIN_POSITIVE), 0);
    assert_eq!(units(f32::from_bits(1)), 0);
}

#[test]
fn ticks_agree_with_rounding_the_product() {
    // Eighths of a millisecond are whole ticks, so the product is exact.
    for k in -20_000i64..20_000 {
        let ms = k as f64 / 8.0;
        assert_eq!(ticks(ms), (ms * 1000.0).round() as i64);
        assert_eq!(ticks(ms), k * 125);
    }
    // Thousandths of a millisecond come back as they were.
    for k in -20_000i64..20_000 {
        let ms = (k * 7919) as f64 / 1000.0;
        assert_eq!(ticks(ms), k * 7919);
    }
}

#[test]
fn coordinates_become_units() {
    assert_eq!(units(0.0), 0);
    assert_eq!(units(-0.0), 0);
    assert_eq!(units(256.0), 256);
    assert_eq!(units(192.0), 192);
    assert_eq!(units(120.4), 120);
    assert_eq!(units(119.6), 120);
    assert_eq!(units(-64.2), -64);
    assert_eq!(units(8_388_608.0), 8_388_608);
    assert_eq!(units(16_777_215.0), 16_777_215);
    assert_eq!(units(1_073_741_824.0), 1_073_741_824);
    assert_eq!(units(2_147_483_520.0), 2_147_483_520);
    assert_eq!(units(2_147_483_648.0), 2_147_483_647);
    assert_eq!(units(-2_147_483_648.0), -2_147_483_647);
    assert_eq!(units(1e20), 2_147_483_647);
    assert_eq!(units(f32::INFINITY), 2_147_483_647);
    assert_eq!(units(f32::NEG_INFINITY), -2_147_483_647);
    for k in -4_000i32..4_000 {
        let pos = k as f32 / 4.0;
        assert_eq!(units(pos), pos.round() as i32);
    }
}

#[test]
fn powers_of_two() {
    assert_eq!(power_of_two(0), 1);
    assert_eq!(power_of_two(1), 2);
    assert_eq!(power_of_two(10), 1_024);
    assert_eq!(power_of_two(63), 1u128 << 63);
    assert_eq!(power_of_two(64), 1u128 << 64);
}

#[test]
fn nearest_quotients() {
    assert_eq!(nearest_within(10, 2, 100), 3);
    assert_eq!(nearest_within(9, 2, 100), 2);
    assert_eq!(nearest_within(11, 2, 100), 3);
    assert_eq!(nearest_within(1_000, 1, 100), 100);
    assert_eq!(nearest_within(u64::MAX, 64, 100), 1);
    assert_eq!(nearest_within(u64::MAX, 65, 100), 0);
    assert_eq!(nearest_within(u64::MAX, 1_074, 100), 0);
    assert_eq!(nearest_within(u64::MAX, 1, u64::MAX), 1u64 << 63);
}

#[test]
fn notes_and_segments_from_bits() {
    let note = NoteEvent::from_bits(
        1_000.25f64.to_bits(),
        1_500.0f64.to_bits(),
        256.4f32.to_bits(),
        (-12.5f32).to_bits(),
    );
    assert_eq!(note, NoteEvent { start_time: 1_000_250, end_time: 1_500_000, x: 256, y: -13 });
    assert!(note.is_valid());
    let segment = TempoSegment::from_bits(
        (-30.0f64).to_bits(),
        (60_000.0f64 / 180.0).to_bits(),
    );
    assert_eq!(segment, TempoSegment { time: -30_000, beat_length: 333_333 });
    let far = NoteEvent::from_bits(f64::MAX.to_bits(), f64::NAN.to_bits(), 0, 0);
    assert!(far.is_valid());
    assert_eq!(far.start_time, TIME_LIMIT);
    assert_eq!(far.end_time, 0);
}
