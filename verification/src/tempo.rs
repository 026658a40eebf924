//! Reduces a piecewise tempo timeline to one representative tempo.
//!
//! Each segment is active from its start to the start of the next one; the
//! first counts from time zero and the last runs to a reference time. The
//! durations are added up per beat length, and the beat length that was
//! active longest decides the tempo.

use crate::model::{time_in_range, timeline_valid, NoteEvent, TempoSegment};
use vstd::prelude::*;

verus! {

/// Lowest tempo reported: one beat per minute, in thousandths.
pub const BPM_FLOOR: u64 = 1_000;

/// Ticks in a minute, times a thousand: dividing it by a beat length in ticks
/// gives the tempo in thousandths of a beat per minute.
pub const BPM_NUMERATOR: i64 = 60_000_000_000;

/// Longest beat any reported tempo stands for, in ticks: one minute.
pub const BEAT_LENGTH_CEILING: i64 = 60_000_000;

/// Largest magnitude a bucket may hold before more is added to it.
pub const TOTAL_LIMIT: i128 = 1_000_000_000_000_000_000_000_000_000_000_000_000;

/// Largest magnitude of one segment's active duration: twice the largest
/// time.
pub const DURATION_LIMIT: i128 = 18_014_398_509_481_984;

/// The release time of the note, if there is one.
pub open spec fn end_time_of(note: Option<&NoteEvent>) -> Option<int> {
    match note {
        Some(n) => Some(n.end_time as int),
        None => None,
    }
}

/// The time up to which the timeline is weighed: the given end time, else the
/// start of the last segment, else zero.
pub open spec fn reference_time(end: Option<int>, timeline: Seq<TempoSegment>) -> int {
    match end {
        Some(t) => t,
        None => if timeline.len() > 0 {
            timeline.last().time as int
        } else {
            0
        },
    }
}

/// Where segment `i` starts counting: the first segment at zero, the others
/// at their own start.
pub open spec fn segment_start(timeline: Seq<TempoSegment>, i: int) -> int {
    if i == 0 {
        0
    } else {
        timeline[i].time as int
    }
}

/// Where segment `i` stops counting: at the start of the next segment, or at
/// the reference time if it is the last.
pub open spec fn segment_end(timeline: Seq<TempoSegment>, i: int, last_time: int) -> int {
    if i + 1 < timeline.len() {
        timeline[i + 1].time as int
    } else {
        last_time
    }
}

/// What segment `i` adds to its bucket: its span, unless it starts after the
/// reference time, in which case nothing.
pub open spec fn active_duration(timeline: Seq<TempoSegment>, i: int, last_time: int) -> int {
    if segment_start(timeline, i) <= last_time {
        segment_end(timeline, i, last_time) - segment_start(timeline, i)
    } else {
        0
    }
}

/// The duration that the first `upto` segments add to the bucket of
/// `beat_length`.
pub open spec fn accumulated(
    timeline: Seq<TempoSegment>,
    last_time: int,
    beat_length: int,
    upto: int,
) -> int
    decreases upto,
{
    if upto <= 0 {
        0
    } else {
        accumulated(timeline, last_time, beat_length, upto - 1) + if timeline[upto
            - 1].beat_length == beat_length {
            active_duration(timeline, upto - 1, last_time)
        } else {
            0
        }
    }
}

/// The duration gathered in the bucket that segment `i` adds to.
pub open spec fn bucket_total(timeline: Seq<TempoSegment>, last_time: int, i: int) -> int {
    accumulated(timeline, last_time, timeline[i].beat_length as int, timeline.len() as int)
}

/// Whether segment `i` decides the tempo: no segment's bucket is larger
/// than its bucket, and the bucket of every segment before it is smaller. So
/// among equally large buckets, the one whose beat length comes first in the
/// timeline decides.
pub open spec fn is_dominant_segment(timeline: Seq<TempoSegment>, last_time: int, i: int) -> bool {
    &&& 0 <= i < timeline.len()
    &&& forall|j: int|
        0 <= j < timeline.len() ==> #[trigger] bucket_total(timeline, last_time, j) <= bucket_total(
            timeline,
            last_time,
            i,
        )
    &&& forall|j: int|
        0 <= j < i ==> #[trigger] bucket_total(timeline, last_time, j) < bucket_total(
            timeline,
            last_time,
            i,
        )
}

/// The segment that decides the tempo of a timeline that is not empty.
pub open spec fn dominant_segment(timeline: Seq<TempoSegment>, last_time: int) -> int {
    choose|i: int| is_dominant_segment(timeline, last_time, i)
}

/// The beat length that was active longest, or zero for an empty timeline.
pub open spec fn dominant_beat(timeline: Seq<TempoSegment>, last_time: int) -> int {
    if timeline.len() == 0 {
        0
    } else {
        timeline[dominant_segment(timeline, last_time)].beat_length as int
    }
}

/// The representative tempo of a timeline that is weighed up to `end`.
pub open spec fn representative_tempo(timeline: Seq<TempoSegment>, end: Option<int>) -> int {
    bpm_of_beat_length(dominant_beat(timeline, reference_time(end, timeline)))
}

/// At most one segment decides the tempo.
pub proof fn lemma_dominant_segment_is_unique(
    timeline: Seq<TempoSegment>,
    last_time: int,
    i: int,
    j: int,
)
    requires
        is_dominant_segment(timeline, last_time, i),
        is_dominant_segment(timeline, last_time, j),
    ensures
        i == j,
{
    if i < j {
        assert(bucket_total(timeline, last_time, i) < bucket_total(timeline, last_time, j));
        assert(bucket_total(timeline, last_time, j) <= bucket_total(timeline, last_time, i));
    } else if j < i {
        assert(bucket_total(timeline, last_time, j) < bucket_total(timeline, last_time, i));
        assert(bucket_total(timeline, last_time, i) <= bucket_total(timeline, last_time, j));
    }
}

/// The tempo, in thousandths of a beat per minute, that a beat of
/// `beat_length` ticks stands for, never below the floor. A beat length that
/// is not positive gives the floor.
pub open spec fn bpm_of_beat_length(beat_length: int) -> int {
    if beat_length <= 0 {
        BPM_FLOOR as int
    } else if (BPM_NUMERATOR as int) / beat_length < BPM_FLOOR {
        BPM_FLOOR as int
    } else {
        (BPM_NUMERATOR as int) / beat_length
    }
}

/// The release time of the last note, if there is a note.
pub open spec fn last_release(notes: Seq<NoteEvent>) -> Option<int> {
    if notes.len() > 0 {
        Some(notes.last().end_time as int)
    } else {
        None
    }
}

/// One bucket: a beat length and the duration gathered for it.
pub struct BeatLenBucket {
    pub beat_length: i64,
    pub total: i128,
}

/// Gathers, per beat length, how long it was active.
pub struct BeatLenDuration {
    pub last_time: i64,
    pub buckets: Vec<BeatLenBucket>,
}

impl BeatLenDuration {
    /// No two buckets are for the same beat length.
    pub open spec fn wf(&self) -> bool {
        forall|a: int, b: int|
            0 <= a < b < self.buckets@.len() ==> (#[trigger] self.buckets@[a]).beat_length != (
            #[trigger] self.buckets@[b]).beat_length
    }

    /// The buckets hold room for one more duration each.
    pub open spec fn has_room(&self) -> bool {
        forall|k: int|
            0 <= k < self.buckets@.len() ==> -TOTAL_LIMIT <= (#[trigger] self.buckets@[k]).total
                <= TOTAL_LIMIT
    }

    /// Whether a bucket for `beat_length` exists.
    pub open spec fn has_bucket(&self, beat_length: int) -> bool {
        exists|k: int|
            0 <= k < self.buckets@.len() && (#[trigger] self.buckets@[k]).beat_length
                == beat_length
    }

    /// What a span from `curr_time` to `next_time` adds: its length if it
    /// starts no later than the reference time, else nothing.
    pub open spec fn gain(&self, curr_time: int, next_time: int) -> int {
        if curr_time <= self.last_time {
            next_time - curr_time
        } else {
            0
        }
    }

    /// An accumulator without buckets.
    pub fn new(last_time: i64) -> (acc: Self)
        ensures
            acc.wf(),
            acc.last_time == last_time,
            acc.buckets@.len() == 0,
    {
        BeatLenDuration { last_time, buckets: Vec::new() }
    }

    /// Adds the span from `curr_time` to `next_time` to the bucket of
    /// `beat_len`. A missing bucket is created, also where the span starts
    /// after the reference time and so adds nothing.
    pub fn add(&mut self, beat_len: i64, curr_time: i64, next_time: i64)
        requires
            old(self).wf(),
            old(self).has_room(),
            time_in_range(curr_time as int),
            time_in_range(next_time as int),
        ensures
            final(self).wf(),
            final(self).last_time == old(self).last_time,
            old(self).has_bucket(beat_len as int) ==> exists|k: int|
                0 <= k < old(self).buckets@.len() && (#[trigger] old(self).buckets@[k]).beat_length
                    == beat_len && final(self).buckets@ == old(self).buckets@.update(
                    k,
                    (BeatLenBucket {
                        beat_length: beat_len,
                        total: (old(self).buckets@[k].total + old(self).gain(
                            curr_time as int,
                            next_time as int,
                        )) as i128,
                    }),
                ),
            !old(self).has_bucket(beat_len as int) ==> final(self).buckets@ == old(
                self,
            ).buckets@.push(
                (BeatLenBucket {
                    beat_length: beat_len,
                    total: old(self).gain(curr_time as int, next_time as int) as i128,
                }),
            ),
    {
        let gain: i128 = if curr_time <= self.last_time {
            next_time as i128 - curr_time as i128
        } else {
            0
        };
        let mut k: usize = 0;
        while k < self.buckets.len()
            invariant
                k <= self.buckets.len(),
                *self == *old(self),
                old(self).wf(),
                old(self).has_room(),
                gain == old(self).gain(curr_time as int, next_time as int),
                -DURATION_LIMIT <= gain <= DURATION_LIMIT,
                forall|j: int| 0 <= j < k ==> (#[trigger] self.buckets@[j]).beat_length != beat_len,
            decreases self.buckets.len() - k,
        {
            if self.buckets[k].beat_length == beat_len {
                assert(-TOTAL_LIMIT <= self.buckets@[k as int].total <= TOTAL_LIMIT);
                let total: i128 = self.buckets[k].total + gain;
                self.buckets.set(k, BeatLenBucket { beat_length: beat_len, total });
                assert(old(self).buckets@[k as int].beat_length == beat_len);
                return ;
            }
            k += 1;
        }
        assert(!old(self).has_bucket(beat_len as int));
        self.buckets.push(BeatLenBucket { beat_length: beat_len, total: gain });
    }
}

/// A beat length that none of the first `upto` segments has, has gathered
/// nothing from them.
pub proof fn lemma_absent_accumulates_nothing(
    timeline: Seq<TempoSegment>,
    last_time: int,
    beat_length: int,
    upto: int,
)
    requires
        0 <= upto <= timeline.len(),
        forall|j: int| 0 <= j < upto ==> (#[trigger] timeline[j]).beat_length != beat_length,
    ensures
        accumulated(timeline, last_time, beat_length, upto) == 0,
    decreases upto,
{
    if upto > 0 {
        lemma_absent_accumulates_nothing(timeline, last_time, beat_length, upto - 1);
    }
}

/// The beat length that was active longest, or zero for an empty timeline.
/// Where several were active equally long, the one that comes first in the
/// timeline is returned.
pub fn dominant_beat_length(last_hit_object: Option<&NoteEvent>, timing_points: &[TempoSegment]) -> (beat: i64)
    requires
        timeline_valid(timing_points@),
        last_hit_object matches Some(n) ==> n.valid(),
    ensures
        beat == dominant_beat(
            timing_points@,
            reference_time(end_time_of(last_hit_object), timing_points@),
        ),
        timing_points@.len() > 0 ==> is_dominant_segment(
            timing_points@,
            reference_time(end_time_of(last_hit_object), timing_points@),
            dominant_segment(
                timing_points@,
                reference_time(end_time_of(last_hit_object), timing_points@),
            ),
        ),
        timing_points@.len() == 1 ==> beat == timing_points@[0].beat_length,
{
    let n: usize = timing_points.len();
    let last_time: i64 = match last_hit_object {
        Some(note) => note.end_time,
        None => if n > 0 {
            timing_points[n - 1].time
        } else {
            0
        },
    };
    let ghost tl = timing_points@;
    let ghost last = last_time as int;
    assert(time_in_range(last)) by {
        if last_hit_object.is_none() && n > 0 {
            assert(tl[n - 1].valid());
        }
    }
    let mut acc = BeatLenDuration::new(last_time);
    // For each bucket, the segment that made it.
    let ghost mut firsts: Seq<int> = Seq::empty();
    let mut i: usize = 0;
    while i < n
        invariant
            n == timing_points@.len(),
            tl == timing_points@,
            timeline_valid(tl),
            time_in_range(last),
            last == last_time,
            acc.last_time == last_time,
            0 <= i <= n,
            firsts.len() == acc.buckets@.len(),
            forall|k: int|
                0 <= k < acc.buckets@.len() ==> (#[trigger] acc.buckets@[k]).total == accumulated(
                    tl,
                    last,
                    acc.buckets@[k].beat_length as int,
                    i as int,
                ),
            forall|k: int|
                0 <= k < acc.buckets@.len() ==> -(i as int) * DURATION_LIMIT <= (
                #[trigger] acc.buckets@[k]).total <= (i as int) * DURATION_LIMIT,
            acc.wf(),
            forall|j: int| 0 <= j < i ==> acc.has_bucket((#[trigger] tl[j]).beat_length as int),
            forall|k: int|
                0 <= k < firsts.len() ==> 0 <= #[trigger] firsts[k] < i && tl[firsts[k]].beat_length
                    == acc.buckets@[k].beat_length,
            forall|k: int, j: int|
                0 <= k < firsts.len() && 0 <= j < firsts[k] ==> (#[trigger] tl[j]).beat_length != (
                #[trigger] acc.buckets@[k]).beat_length,
            forall|a: int, b: int|
                0 <= a < b < firsts.len() ==> #[trigger] firsts[a] < #[trigger] firsts[b],
        decreases n - i,
    {
        let curr = timing_points[i];
        let curr_time: i64 = if i == 0 {
            0
        } else {
            curr.time
        };
        let next_time: i64 = if i + 1 < n {
            timing_points[i + 1].time
        } else {
            last_time
        };
        proof {
            assert(tl[i as int].valid());
            if i + 1 < n {
                assert(tl[i + 1].valid());
            }
        }
        let ghost before = acc.buckets@;
        let ghost had = acc.has_bucket(curr.beat_length as int);
        let ghost gain = acc.gain(curr_time as int, next_time as int);
        assert(gain == active_duration(tl, i as int, last));
        assert(-DURATION_LIMIT <= gain <= DURATION_LIMIT);
        assert(acc.has_room());
        acc.add(curr.beat_length, curr_time, next_time);
        proof {
            let after = acc.buckets@;
            if had {
                let hit = choose|k: int|
                    0 <= k < before.len() && (#[trigger] before[k]).beat_length
                        == curr.beat_length && after == before.update(
                        k,
                        (BeatLenBucket {
                            beat_length: curr.beat_length,
                            total: (before[k].total + gain) as i128,
                        }),
                    );
                assert forall|k: int| 0 <= k < after.len() implies (#[trigger] after[k]).beat_length
                    == before[k].beat_length by {}
                assert forall|k: int| 0 <= k < after.len() implies (#[trigger] after[k]).total
                    == accumulated(tl, last, after[k].beat_length as int, i + 1) by {
                    if k != hit {
                        assert(after[k] == before[k]);
                        if k < hit {
                            assert(before[k].beat_length != before[hit].beat_length);
                        } else {
                            assert(before[hit].beat_length != before[k].beat_length);
                        }
                    }
                }
            } else {
                lemma_absent_accumulates_nothing(tl, last, curr.beat_length as int, i as int);
                assert(after[before.len() as int].beat_length == curr.beat_length);
                assert forall|k: int| 0 <= k < after.len() implies (#[trigger] after[k]).total
                    == accumulated(tl, last, after[k].beat_length as int, i + 1) by {
                    if k < before.len() {
                        assert(after[k] == before[k]);
                        assert(before[k].beat_length != curr.beat_length);
                    }
                }
                assert forall|k: int| 0 <= k < before.len() implies (#[trigger] after[k]).beat_length
                    == before[k].beat_length by {}
                firsts = firsts.push(i as int);
            }
            assert forall|j: int| 0 <= j < i + 1 implies acc.has_bucket(
                (#[trigger] tl[j]).beat_length as int,
            ) by {
                if j == i {
                    if had {
                        let hit = choose|k: int|
                            0 <= k < before.len() && (#[trigger] before[k]).beat_length
                                == curr.beat_length;
                        assert(after[hit].beat_length == curr.beat_length);
                    } else {
                        assert(after[before.len() as int].beat_length == curr.beat_length);
                    }
                } else {
                    let w = choose|k: int|
                        0 <= k < before.len() && (#[trigger] before[k]).beat_length
                            == tl[j].beat_length;
                    assert(after[w].beat_length == tl[j].beat_length);
                }
            }
        }
        i += 1;
    }
    if acc.buckets.len() == 0 {
        proof {
            if n > 0 {
                assert(acc.has_bucket(tl[0].beat_length as int));
            }
        }
        return 0;
    }
    let mut best: usize = 0;
    let mut k: usize = 1;
    while k < acc.buckets.len()
        invariant
            0 <= best < k <= acc.buckets@.len(),
            forall|j: int|
                0 <= j < k ==> (#[trigger] acc.buckets@[j]).total <= acc.buckets@[best as int].total,
            forall|j: int|
                0 <= j < best ==> (#[trigger] acc.buckets@[j]).total < acc.buckets@[best as int].total,
        decreases acc.buckets.len() - k,
    {
        if acc.buckets[k].total > acc.buckets[best].total {
            best = k;
        }
        k += 1;
    }
    let beat: i64 = acc.buckets[best].beat_length;
    proof {
        let winner = firsts[best as int];
        assert(tl[winner].beat_length == beat);
        assert(bucket_total(tl, last, winner) == acc.buckets@[best as int].total);
        assert forall|j: int| 0 <= j < tl.len() implies #[trigger] bucket_total(tl, last, j)
            <= bucket_total(tl, last, winner) by {
            assert(acc.has_bucket(tl[j].beat_length as int));
            let b = choose|b: int|
                0 <= b < acc.buckets@.len() && (#[trigger] acc.buckets@[b]).beat_length
                    == tl[j].beat_length;
            assert(acc.buckets@[b].total <= acc.buckets@[best as int].total);
        }
        assert forall|j: int| 0 <= j < winner implies #[trigger] bucket_total(tl, last, j)
            < bucket_total(tl, last, winner) by {
            assert(acc.has_bucket(tl[j].beat_length as int));
            let b = choose|b: int|
                0 <= b < acc.buckets@.len() && (#[trigger] acc.buckets@[b]).beat_length
                    == tl[j].beat_length;
            if b == best {
                assert(tl[j].beat_length != acc.buckets@[best as int].beat_length);
            } else if b > best {
                assert(firsts[best as int] < firsts[b]);
                assert(tl[j].beat_length != acc.buckets@[b].beat_length);
            }
            assert(acc.buckets@[b].total < acc.buckets@[best as int].total);
        }
        assert(is_dominant_segment(tl, last, winner));
        lemma_dominant_segment_is_unique(tl, last, winner, dominant_segment(tl, last));
    }
    beat
}

/// The representative tempo of a timeline, in thousandths of a beat per
/// minute: the tempo of the beat length that was active longest up to the
/// release of `last_hit_object` (or, without one, up to the start of the last
/// segment), never below one beat per minute. An empty timeline gives that
/// floor.
pub fn bpm(last_hit_object: Option<&NoteEvent>, timing_points: &[TempoSegment]) -> (tempo: u64)
    requires
        timeline_valid(timing_points@),
        last_hit_object matches Some(n) ==> n.valid(),
    ensures
        tempo == representative_tempo(timing_points@, end_time_of(last_hit_object)),
        BPM_FLOOR <= tempo <= BPM_NUMERATOR,
        timing_points@.len() == 0 ==> tempo == BPM_FLOOR,
        timing_points@.len() == 1 ==> tempo == bpm_of_beat_length(
            timing_points@[0].beat_length as int,
        ),
{
    let beat: i64 = dominant_beat_length(last_hit_object, timing_points);
    tempo_of_beat_length(beat)
}

/// The tempo that a beat of `beat_length` ticks stands for, floored at one
/// beat per minute.
pub fn tempo_of_beat_length(beat_length: i64) -> (tempo: u64)
    ensures
        tempo == bpm_of_beat_length(beat_length as int),
        BPM_FLOOR <= tempo <= BPM_NUMERATOR,
{
    if beat_length <= 0 {
        return BPM_FLOOR;
    }
    let q: i64 = BPM_NUMERATOR / beat_length;
    assert(0 <= q <= BPM_NUMERATOR) by (nonlinear_arith)
        requires
            q == BPM_NUMERATOR / beat_length,
            beat_length >= 1,
            BPM_NUMERATOR == 60_000_000_000,
    ;
    if q < 1_000 {
        BPM_FLOOR
    } else {
        q as u64
    }
}

/// The beat length, in ticks, that a tempo stands for.
pub open spec fn beat_length_of_bpm(tempo: int) -> int {
    (BPM_NUMERATOR as int) / tempo
}

/// A tempo between the floor and the fastest stands for a beat between one
/// tick and one minute.
pub proof fn lemma_beat_length_in_range(tempo: int)
    requires
        BPM_FLOOR <= tempo <= BPM_NUMERATOR,
    ensures
        1 <= beat_length_of_bpm(tempo) <= BEAT_LENGTH_CEILING,
{
    assert(1 <= 60_000_000_000int / tempo <= 60_000_000) by (nonlinear_arith)
        requires
            1_000 <= tempo <= 60_000_000_000,
    ;
}

/// The beat length that `tempo` stands for: between one tick and one minute.
pub fn beat_length_from_bpm(tempo: u64) -> (beat: i64)
    requires
        BPM_FLOOR <= tempo <= BPM_NUMERATOR,
    ensures
        beat == beat_length_of_bpm(tempo as int),
        1 <= beat <= BEAT_LENGTH_CEILING,
{
    proof {
        lemma_beat_length_in_range(tempo as int);
    }
    BPM_NUMERATOR / (tempo as i64)
}

/// With a single segment the tempo is the minute divided by that segment's
/// beat length, whatever the notes are, as long as that beat is neither
/// longer than a minute nor without length.
pub proof fn lemma_single_segment_tempo(end: Option<int>, timeline: Seq<TempoSegment>)
    requires
        timeline.len() == 1,
        0 < timeline[0].beat_length <= BEAT_LENGTH_CEILING,
    ensures
        representative_tempo(timeline, end) == (BPM_NUMERATOR as int) / (
        timeline[0].beat_length as int),
{
    let last = reference_time(end, timeline);
    assert(is_dominant_segment(timeline, last, 0));
    lemma_dominant_segment_is_unique(timeline, last, 0, dominant_segment(timeline, last));
    let b = timeline[0].beat_length as int;
    assert((BPM_NUMERATOR as int) / b >= 1_000) by (nonlinear_arith)
        requires
            0 < b <= 60_000_000,
            BPM_NUMERATOR == 60_000_000_000,
    ;
}

/// The beat length that decides the tempo occurs in the timeline, and no
/// beat length of the timeline was active longer.
pub proof fn lemma_dominant_beat_is_longest(timeline: Seq<TempoSegment>, last_time: int, j: int)
    requires
        0 <= j < timeline.len(),
        is_dominant_segment(timeline, last_time, dominant_segment(timeline, last_time)),
    ensures
        accumulated(
            timeline,
            last_time,
            timeline[j].beat_length as int,
            timeline.len() as int,
        ) <= accumulated(
            timeline,
            last_time,
            dominant_beat(timeline, last_time),
            timeline.len() as int,
        ),
{
    let w = dominant_segment(timeline, last_time);
    assert(bucket_total(timeline, last_time, j) <= bucket_total(timeline, last_time, w));
}

} // verus!
