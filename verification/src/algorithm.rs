//! The segmentation engine: a deterministic, side-effect-free transform of
//! one session's ordered readings into scored segments and interruptions.

use crate::config::SegmentationConfig;
use crate::grouping::{
    group_readings, groups_match, lemma_run_bounds_cover_index, lemma_run_bounds_structure,
    spec_run_bounds, ReadingGroup,
};
use crate::merge::{
    lemma_merge_all_covers, lemma_merge_all_durations, lemma_merge_all_props, merge_input_wf,
    sandwich_merge, segments_bounds_wf, spec_covered, spec_merge_all, spec_total_reading_count,
    spec_with_ids,
};
use crate::models::{
    readings_scores_wf, readings_well_formed, ContextReading, Interruption, Segment,
    CAPTURE_INTERVAL_SECS, MAX_TIMESTAMP_SECS,
};
use crate::scoring::{
    compute_confidence, compute_unique_phash_count, spec_confidence, spec_score_duration,
    spec_score_ocr, spec_score_stability, spec_score_visual, spec_unique_phash_count,
};
use vstd::prelude::*;

verus! {

/// Number of readings in `s` whose window title is `t`.
pub open spec fn spec_title_count(s: Seq<ContextReading>, t: Seq<char>) -> nat
    decreases s.len(),
{
    if s.len() == 0 {
        0
    } else {
        spec_title_count(s.drop_last(), t) + (if s.last().window_metadata.title@ == t {
            1nat
        } else {
            0nat
        })
    }
}

/// The most frequent title among the first `n` readings' titles, counted
/// over all of `s`; a strictly greater count replaces, so the earliest
/// title wins ties.
pub open spec fn spec_best_title_prefix(s: Seq<ContextReading>, n: int) -> Option<String>
    decreases n,
{
    if n <= 0 {
        None
    } else {
        let t = s[n - 1].window_metadata.title;
        match spec_best_title_prefix(s, n - 1) {
            None => Some(t),
            Some(b) => if spec_title_count(s, t@) > spec_title_count(s, b@) {
                Some(t)
            } else {
                Some(b)
            },
        }
    }
}

/// The most frequent window title of the readings, earliest first
/// occurrence winning ties; `None` only for an empty list.
pub open spec fn spec_most_common_title(s: Seq<ContextReading>) -> Option<String> {
    spec_best_title_prefix(s, s.len() as int)
}

/// Counts the readings whose window title equals `t`.
fn count_title(readings: &Vec<ContextReading>, t: &str) -> (r: usize)
    ensures
        r == spec_title_count(readings@, t@),
{
    let len = readings.len();
    let mut count: usize = 0;
    let mut i: usize = 0;
    while i < len
        invariant
            i <= len,
            len == readings@.len(),
            count == spec_title_count(readings@.take(i as int), t@),
            count <= i,
        decreases len - i,
    {
        proof {
            assert(readings@.take(i + 1).drop_last() =~= readings@.take(i as int));
            assert(readings@.take(i + 1).last() == readings@[i as int]);
        }
        if crate::text::str_eq(readings[i].window_metadata.title.as_str(), t) {
            count += 1;
        }
        i += 1;
    }
    proof {
        assert(readings@.take(len as int) =~= readings@);
    }
    count
}

/// Picks the most common window title; the title counted most often wins,
/// the earliest occurrence winning ties, so the choice is deterministic.
pub fn most_common_window_title(readings: &Vec<ContextReading>) -> (r: Option<String>)
    ensures
        r == spec_most_common_title(readings@),
        r is Some <==> readings@.len() > 0,
        r matches Some(t) ==> forall|j: int|
            0 <= j < readings@.len() ==> spec_title_count(
                readings@,
                (#[trigger] readings@[j]).window_metadata.title@,
            ) <= spec_title_count(readings@, t@),
{
    let len = readings.len();
    let mut best: Option<String> = None;
    let mut best_count: usize = 0;
    let mut j: usize = 0;
    while j < len
        invariant
            j <= len,
            len == readings@.len(),
            best == spec_best_title_prefix(readings@, j as int),
            best matches Some(b) ==> best_count == spec_title_count(readings@, b@),
            forall|k: int|
                0 <= k < j ==> spec_title_count(
                    readings@,
                    (#[trigger] readings@[k]).window_metadata.title@,
                ) <= best_count,
        decreases len - j,
    {
        let candidate_count = count_title(readings, readings[j].window_metadata.title.as_str());
        match &best {
            None => {
                best = Some(readings[j].window_metadata.title.clone());
                best_count = candidate_count;
            },
            Some(_) => {
                if candidate_count > best_count {
                    best = Some(readings[j].window_metadata.title.clone());
                    best_count = candidate_count;
                }
            },
        }
        j += 1;
    }
    best
}

/// The readings whose timestamp falls within `lo..=hi`, in order.
pub open spec fn spec_readings_within(s: Seq<ContextReading>, lo: int, hi: int) -> Seq<
    ContextReading,
>
    decreases s.len(),
{
    if s.len() == 0 {
        Seq::empty()
    } else {
        spec_readings_within(s.drop_last(), lo, hi) + (if lo <= s.last().timestamp <= hi {
            seq![s.last()]
        } else {
            Seq::empty()
        })
    }
}

/// Filtering by time range keeps the confidence bounds.
proof fn lemma_within_scores_wf(s: Seq<ContextReading>, lo: int, hi: int)
    requires
        readings_scores_wf(s),
    ensures
        readings_scores_wf(spec_readings_within(s, lo, hi)),
        spec_readings_within(s, lo, hi).len() <= s.len(),
    decreases s.len(),
{
    if s.len() > 0 {
        assert(readings_scores_wf(s.drop_last())) by {
            assert(forall|i: int| 0 <= i < s.len() - 1 ==> #[trigger] s.drop_last()[i] == s[i]);
        }
        lemma_within_scores_wf(s.drop_last(), lo, hi);
        let w = spec_readings_within(s, lo, hi);
        let prev = spec_readings_within(s.drop_last(), lo, hi);
        assert(s.last() == s[s.len() - 1]);
        assert forall|i: int| 0 <= i < w.len() implies (#[trigger] w[i].ocr_confidence matches Some(
            c,
        ) ==> c <= 1000) by {
            if i < prev.len() {
                assert(w[i] == prev[i]);
            } else {
                assert(w[i] == s[s.len() - 1]);
            }
        }
    }
}

/// Collects the readings whose timestamp lies in `lo..=hi`.
fn readings_within(readings: &Vec<ContextReading>, lo: i64, hi: i64) -> (r: Vec<ContextReading>)
    ensures
        r@ == spec_readings_within(readings@, lo as int, hi as int),
{
    let len = readings.len();
    let mut out: Vec<ContextReading> = Vec::new();
    let mut i: usize = 0;
    while i < len
        invariant
            i <= len,
            len == readings@.len(),
            out@ == spec_readings_within(readings@.take(i as int), lo as int, hi as int),
        decreases len - i,
    {
        proof {
            assert(readings@.take(i + 1).drop_last() =~= readings@.take(i as int));
            assert(readings@.take(i + 1).last() == readings@[i as int]);
        }
        let reading = &readings[i];
        if lo <= reading.timestamp && reading.timestamp <= hi {
            out.push(reading.duplicate());
            proof {
                assert(out@ =~= spec_readings_within(readings@.take(i + 1), lo as int, hi as int));
            }
        } else {
            proof {
                assert(out@ =~= spec_readings_within(readings@.take(i + 1), lo as int, hi as int));
            }
        }
        i += 1;
    }
    proof {
        assert(readings@.take(len as int) =~= readings@);
    }
    out
}


/// The candidate segment of run `lo..hi`, numbered `idx`; scores are
/// computed later.
pub open spec fn spec_group_segment(s: Seq<ContextReading>, lo: int, hi: int, idx: int) -> Segment {
    Segment {
        id: idx as u64,
        session_id: s[lo].session_id,
        start_time: s[lo].timestamp,
        end_time: s[hi - 1].timestamp,
        duration_secs: (s[hi - 1].timestamp - s[lo].timestamp + CAPTURE_INTERVAL_SECS) as i64,
        bundle_id: s[lo].window_metadata.bundle_id,
        app_name: Some(s[lo].window_metadata.owner_name),
        window_title: spec_most_common_title(s.subrange(lo, hi)),
        confidence: 0,
        duration_score: None,
        stability_score: None,
        visual_clarity_score: None,
        ocr_quality_score: None,
        reading_count: (hi - lo) as usize,
        unique_phash_count: None,
    }
}

/// One candidate segment per maximal constant-identity run.
pub open spec fn spec_initial_segments(s: Seq<ContextReading>) -> Seq<Segment> {
    Seq::new(
        spec_run_bounds(s).len(),
        |i: int| spec_group_segment(s, spec_run_bounds(s)[i].0, spec_run_bounds(s)[i].1, i),
    )
}

/// The initial segments are well-formed input for the merge and span the
/// readings exactly.
#[verifier::rlimit(100)]
proof fn lemma_initial_segments_wf(s: Seq<ContextReading>)
    requires
        readings_well_formed(s),
        s.len() > 0,
        s.len() <= usize::MAX,
    ensures
        segments_bounds_wf(spec_initial_segments(s)),
        crate::merge::segments_durations_wf(spec_initial_segments(s)),
        spec_initial_segments(s).len() > 0,
        spec_initial_segments(s)[0].start_time == s[0].timestamp,
        spec_initial_segments(s).last().end_time == s.last().timestamp,
{
    lemma_run_bounds_structure(s);
    let bs = spec_run_bounds(s);
    let init = spec_initial_segments(s);
    assert(init.len() == bs.len());
    assert(init[0].start_time == s[bs[0].0].timestamp);
    assert(init.last().end_time == s[bs[bs.len() - 1].1 - 1].timestamp);
    assert forall|i: int|
        0 <= i < init.len() implies 0 <= (#[trigger] init[i]).start_time <= init[i].end_time
        <= MAX_TIMESTAMP_SECS by {
        let lo = bs[i].0;
        let hi = bs[i].1;
        assert(init[i] == spec_group_segment(s, lo, hi, i));
        if lo < hi - 1 {
            assert(s[lo].timestamp < s[hi - 1].timestamp);
        }
    }
    assert forall|i: int|
        0 <= i < init.len() - 1 implies (#[trigger] init[i]).end_time < init[i + 1].start_time by {
        assert(init[i] == spec_group_segment(s, bs[i].0, bs[i].1, i));
        assert(init[i + 1] == spec_group_segment(s, bs[i + 1].0, bs[i + 1].1, i + 1));
        assert(bs[i].1 - 1 < bs[i + 1].0);
        assert(s[bs[i].1 - 1].timestamp < s[bs[i + 1].0].timestamp);
    }
    assert forall|i: int|
        0 <= i < init.len() implies (#[trigger] init[i]).duration_secs == init[i].end_time
        - init[i].start_time + CAPTURE_INTERVAL_SECS by {
        let lo = bs[i].0;
        let hi = bs[i].1;
        assert(init[i] == spec_group_segment(s, lo, hi, i));
        if lo < hi - 1 {
            assert(s[lo].timestamp < s[hi - 1].timestamp);
        }
    }
}

/// Prefix sums of the initial segments' reading counts telescope along the
/// run boundaries.
proof fn lemma_initial_total_prefix(s: Seq<ContextReading>, m: int)
    requires
        readings_well_formed(s),
        s.len() > 0,
        s.len() <= usize::MAX,
        0 <= m <= spec_run_bounds(s).len(),
    ensures
        spec_total_reading_count(spec_initial_segments(s).take(m)) == (if m == 0 {
            0int
        } else {
            spec_run_bounds(s)[m - 1].1
        }),
    decreases m,
{
    lemma_run_bounds_structure(s);
    let bs = spec_run_bounds(s);
    let init = spec_initial_segments(s);
    if m > 0 {
        lemma_initial_total_prefix(s, m - 1);
        assert(init.take(m).drop_last() =~= init.take(m - 1));
        assert(init.take(m).last() == init[m - 1]);
        assert(init[m - 1] == spec_group_segment(s, bs[m - 1].0, bs[m - 1].1, m - 1));
        assert(0 < bs[m - 1].1 - bs[m - 1].0 <= s.len());
        assert(init[m - 1].reading_count == bs[m - 1].1 - bs[m - 1].0);
        if m == 1 {
            assert(bs[0].0 == 0);
        } else {
            assert(bs[m - 2].1 == bs[m - 1].0);
        }
    }
}

/// The initial segments hold exactly one reading count per reading.
proof fn lemma_initial_total(s: Seq<ContextReading>)
    requires
        readings_well_formed(s),
        s.len() > 0,
        s.len() <= usize::MAX,
    ensures
        spec_total_reading_count(spec_initial_segments(s)) == s.len(),
{
    lemma_run_bounds_structure(s);
    let bs = spec_run_bounds(s);
    let init = spec_initial_segments(s);
    lemma_initial_total_prefix(s, bs.len() as int);
    assert(init.take(bs.len() as int) =~= init);
}

/// There are no more runs than readings.
proof fn lemma_run_bounds_len(s: Seq<ContextReading>)
    ensures
        spec_run_bounds(s).len() <= s.len(),
    decreases s.len(),
{
    if s.len() == 1 {
        assert(spec_run_bounds(s).len() == 1);
    } else if s.len() > 1 {
        lemma_run_bounds_len(s.drop_last());
        let rest = spec_run_bounds(s.drop_last());
        lemma_run_bounds_structure(s.drop_last());
        if s[s.len() - 1].window_metadata.bundle_id@ == s[s.len()
            - 2].window_metadata.bundle_id@ {
            assert(spec_run_bounds(s) == rest.update(
                rest.len() - 1,
                (rest.last().0, s.len() as int),
            ));
        } else {
            assert(spec_run_bounds(s) == rest.push((s.len() - 1, s.len() as int)));
        }
    }
}

/// The initial segments carry their index as id, so ids are distinct.
proof fn lemma_initial_ids_distinct(s: Seq<ContextReading>)
    requires
        s.len() <= usize::MAX,
    ensures
        crate::merge::spec_ids_distinct(spec_initial_segments(s)),
{
    lemma_run_bounds_len(s);
    let init = spec_initial_segments(s);
    assert forall|i: int, j: int|
        0 <= i < j < init.len() implies (#[trigger] init[i]).id != (#[trigger] init[j]).id by {
        assert(init[i] == spec_group_segment(s, spec_run_bounds(s)[i].0, spec_run_bounds(s)[i].1, i));
        assert(init[j] == spec_group_segment(s, spec_run_bounds(s)[j].0, spec_run_bounds(s)[j].1, j));
        assert(init[i].id == i as u64 && init[j].id == j as u64);
    }
}

/// The whole general path up to the merge: the initial segments are valid
/// merge input, and the merged list spans and covers the readings.
proof fn lemma_general_path(readings: Seq<ContextReading>, config: SegmentationConfig)
    requires
        readings_well_formed(readings),
        readings.len() > 0,
        readings.len() <= usize::MAX,
        config.wf(),
    ensures
        merge_input_wf(spec_initial_segments(readings)),
        ({
            let merged = spec_merge_all(spec_initial_segments(readings), config).0;
            &&& merge_input_wf(merged)
            &&& crate::merge::segments_durations_wf(merged)
            &&& merged.len() > 0
            &&& merged[0].start_time == readings[0].timestamp
            &&& merged.last().end_time == readings.last().timestamp
            &&& forall|j: int|
                0 <= j < readings.len() ==> spec_covered(
                    merged,
                    (#[trigger] readings[j]).timestamp as int,
                )
        }),
{
    let init = spec_initial_segments(readings);
    lemma_initial_segments_wf(readings);
    lemma_initial_total(readings);
    lemma_initial_ids_distinct(readings);
    assert(merge_input_wf(init));
    lemma_merge_all_props(init, config);
    lemma_merge_all_durations(init, config);
    let merged = spec_merge_all(init, config).0;
    assert forall|j: int| 0 <= j < readings.len() implies spec_covered(
        merged,
        (#[trigger] readings[j]).timestamp as int,
    ) by {
        lemma_initial_covered(readings, j);
        lemma_merge_all_covers(init, config, readings[j].timestamp as int);
    }
}

/// Re-aggregation and scoring keep ids, intervals, coverage and the
/// interruptions' ownership.
proof fn lemma_finalized_output(
    readings: Seq<ContextReading>,
    config: SegmentationConfig,
    extended: Seq<Segment>,
    finals: Seq<Segment>,
    ints: Seq<Interruption>,
)
    requires
        readings.len() > 0,
        finals.len() == extended.len(),
        forall|i: int|
            0 <= i < finals.len() ==> #[trigger] finals[i] == spec_finalize(
                extended[i],
                readings,
                config,
            ),
        extended.len() > 0,
        forall|i: int|
            0 <= i < extended.len() ==> (#[trigger] extended[i]).start_time
                <= extended[i].end_time,
        forall|i: int|
            0 <= i < extended.len() ==> (#[trigger] extended[i]).duration_secs == extended[i].end_time
                - extended[i].start_time + CAPTURE_INTERVAL_SECS,
        forall|i: int|
            0 <= i < extended.len() - 1 ==> (#[trigger] extended[i]).end_time + 1 == extended[i
                + 1].start_time,
        crate::merge::spec_ids_distinct(extended),
        extended[0].start_time == readings[0].timestamp,
        extended.last().end_time == readings.last().timestamp,
        forall|j: int|
            0 <= j < readings.len() ==> spec_covered(
                extended,
                (#[trigger] readings[j]).timestamp as int,
            ),
        crate::merge::spec_ints_linked(ints, extended),
    ensures
        segments_cover(readings, finals),
        crate::merge::spec_ints_linked(ints, finals),
        crate::merge::spec_ids_distinct(finals),
        forall|i: int|
            0 <= i < finals.len() ==> (#[trigger] finals[i]).duration_secs == finals[i].end_time
                - finals[i].start_time + CAPTURE_INTERVAL_SECS,
{
    assert(forall|i: int|
        0 <= i < finals.len() ==> (#[trigger] finals[i]).start_time == extended[i].start_time
            && finals[i].end_time == extended[i].end_time && finals[i].id == extended[i].id
            && finals[i].duration_secs == extended[i].duration_secs);
    assert(finals[0].start_time == extended[0].start_time);
    assert(finals.last().end_time == extended.last().end_time);
    assert forall|j: int| 0 <= j < readings.len() implies spec_covered(
        finals,
        (#[trigger] readings[j]).timestamp as int,
    ) by {
        let t = readings[j].timestamp as int;
        let k = choose|k: int|
            0 <= k < extended.len() && (#[trigger] extended[k]).start_time <= t
                <= extended[k].end_time;
        assert(finals[k].start_time <= t <= finals[k].end_time);
    }
    assert(segments_cover(readings, finals));
    assert forall|j: int| 0 <= j < ints.len() implies crate::merge::spec_owned_by(
        #[trigger] ints[j],
        finals,
    ) by {
        let k = choose|k: int|
            0 <= k < extended.len() && (#[trigger] extended[k]).id == ints[j].segment_id
                && extended[k].start_time <= ints[j].timestamp <= extended[k].end_time;
        assert(finals[k].id == extended[k].id);
        assert(finals[k].start_time <= ints[j].timestamp <= finals[k].end_time);
    }
    assert forall|i: int, j: int|
        0 <= i < j < finals.len() implies (#[trigger] finals[i]).id != (#[trigger] finals[j]).id by {
        assert(finals[i].id == extended[i].id);
        assert(finals[j].id == extended[j].id);
    }
}

/// Every reading timestamp lies in one initial segment's interval.
proof fn lemma_initial_covered(s: Seq<ContextReading>, j: int)
    requires
        readings_well_formed(s),
        0 <= j < s.len(),
        s.len() <= usize::MAX,
    ensures
        spec_covered(spec_initial_segments(s), s[j].timestamp as int),
{
    lemma_run_bounds_structure(s);
    lemma_run_bounds_cover_index(s, j);
    let bs = spec_run_bounds(s);
    let init = spec_initial_segments(s);
    let i = choose|i: int| 0 <= i < bs.len() && (#[trigger] bs[i]).0 <= j < bs[i].1;
    assert(init[i] == spec_group_segment(s, bs[i].0, bs[i].1, i));
    if bs[i].0 < j {
        assert(s[bs[i].0].timestamp < s[j].timestamp);
    }
    if j < bs[i].1 - 1 {
        assert(s[j].timestamp < s[bs[i].1 - 1].timestamp);
    }
    assert(init[i].start_time <= s[j].timestamp <= init[i].end_time);
}

/// A field-wise copy of a reading list, visible to the verifier.
fn clone_readings(readings: &Vec<ContextReading>) -> (r: Vec<ContextReading>)
    ensures
        r@ == readings@,
{
    let len = readings.len();
    let mut out: Vec<ContextReading> = Vec::new();
    let mut i: usize = 0;
    while i < len
        invariant
            i <= len,
            len == readings@.len(),
            out@ =~= readings@.take(i as int),
        decreases len - i,
    {
        out.push(readings[i].duplicate());
        i += 1;
    }
    proof {
        assert(readings@.take(len as int) =~= readings@);
    }
    out
}

/// Builds one candidate segment per group, in order.
#[verifier::rlimit(100)]
fn initial_segments(groups: &Vec<ReadingGroup>, readings: &Vec<ContextReading>) -> (r: Vec<
    Segment,
>)
    requires
        readings_well_formed(readings@),
        groups_match(readings@, groups@),
    ensures
        r@ == spec_initial_segments(readings@),
{
    proof {
        lemma_run_bounds_structure(readings@);
    }
    let ghost bs = spec_run_bounds(readings@);
    let count = groups.len();
    let mut out: Vec<Segment> = Vec::new();
    let mut i: usize = 0;
    while i < count
        invariant
            i <= count,
            count == groups@.len(),
            readings_well_formed(readings@),
            groups_match(readings@, groups@),
            bs == spec_run_bounds(readings@),
            out@ =~= spec_initial_segments(readings@).take(i as int),
        decreases count - i,
    {
        proof {
            lemma_run_bounds_structure(readings@);
        }
        let group = &groups[i];
        let ghost lo = bs[i as int].0;
        let ghost hi = bs[i as int].1;
        proof {
            assert(group.readings@ == readings@.subrange(lo, hi));
            assert(group.readings@[0] == readings@[lo]);
            assert(group.readings@.last() == readings@[hi - 1]);
            assert(group.start_time == readings@[lo].timestamp);
            assert(group.end_time == readings@[hi - 1].timestamp);
            if lo < hi - 1 {
                assert(readings@[lo].timestamp < readings@[hi - 1].timestamp);
            }
            assert(0 <= group.start_time <= group.end_time <= MAX_TIMESTAMP_SECS);
        }
        let duration = group.duration_secs();
        let title = most_common_window_title(&group.readings);
        let segment = Segment {
            id: i as u64,
            session_id: group.readings[0].session_id.clone(),
            start_time: group.start_time,
            end_time: group.end_time,
            duration_secs: duration,
            bundle_id: group.bundle_id.clone(),
            app_name: Some(group.app_name.clone()),
            window_title: title,
            confidence: 0,
            duration_score: None,
            stability_score: None,
            visual_clarity_score: None,
            ocr_quality_score: None,
            reading_count: group.readings.len(),
            unique_phash_count: None,
        };
        proof {
            assert(segment == spec_group_segment(readings@, lo, hi, i as int));
            assert(spec_initial_segments(readings@)[i as int] == spec_group_segment(
                readings@,
                lo,
                hi,
                i as int,
            ));
        }
        out.push(segment);
        i += 1;
    }
    proof {
        assert(spec_initial_segments(readings@).take(count as int) =~= spec_initial_segments(
            readings@,
        ));
    }
    out
}

/// The end-time convention, fixed once for the whole pipeline: each
/// segment's interval extends to just before the next segment's start, so
/// consecutive segments abut and their union is exactly the session span;
/// the last segment ends at the last reading.  Durations follow the
/// extended interval plus one capture interval.
pub open spec fn spec_extend_ends(s: Seq<Segment>) -> Seq<Segment> {
    Seq::new(
        s.len(),
        |i: int|
            if i < s.len() - 1 {
                Segment {
                    end_time: (s[i + 1].start_time - 1) as i64,
                    duration_secs: (s[i + 1].start_time - 1 - s[i].start_time
                        + CAPTURE_INTERVAL_SECS) as i64,
                    ..s[i]
                }
            } else {
                s[i]
            },
    )
}

/// Extending the ends keeps ids, starts, the first start and last end, and
/// every prior coverage and ownership fact; the segments come out abutting,
/// in range, ordered, and with durations matching their intervals.
#[verifier::rlimit(100)]
proof fn lemma_extend_ends(s: Seq<Segment>, ints: Seq<Interruption>)
    requires
        merge_input_wf(s),
        crate::merge::segments_durations_wf(s),
        s.len() > 0,
        crate::merge::spec_ints_linked(ints, s),
    ensures
        ({
            let ext = spec_extend_ends(s);
            &&& ext.len() == s.len()
            &&& forall|i: int|
                0 <= i < ext.len() ==> (#[trigger] ext[i]).id == s[i].id && ext[i].start_time
                    == s[i].start_time && s[i].end_time <= ext[i].end_time
            &&& segments_bounds_wf(ext)
            &&& crate::merge::segments_durations_wf(ext)
            &&& crate::merge::spec_ids_distinct(ext)
            &&& forall|i: int|
                0 <= i < ext.len() - 1 ==> (#[trigger] ext[i]).end_time + 1 == ext[i
                    + 1].start_time
            &&& ext[0].start_time == s[0].start_time
            &&& ext.last().end_time == s.last().end_time
            &&& forall|t: int| #[trigger] spec_covered(s, t) ==> spec_covered(ext, t)
            &&& crate::merge::spec_ints_linked(ints, ext)
        }),
{
    let ext = spec_extend_ends(s);
    assert forall|i: int|
        0 <= i < ext.len() implies (#[trigger] ext[i]).id == s[i].id && ext[i].start_time
        == s[i].start_time && s[i].end_time <= ext[i].end_time && 0 <= ext[i].start_time
        <= ext[i].end_time <= MAX_TIMESTAMP_SECS && ext[i].duration_secs == ext[i].end_time
        - ext[i].start_time + CAPTURE_INTERVAL_SECS by {
        if i < ext.len() - 1 {
            assert(s[i].end_time < s[i + 1].start_time);
            assert(0 <= s[i + 1].start_time <= s[i + 1].end_time <= MAX_TIMESTAMP_SECS);
        }
    }
    assert forall|i: int|
        0 <= i < ext.len() - 1 implies (#[trigger] ext[i]).end_time + 1 == ext[i + 1].start_time
        && ext[i].end_time < ext[i + 1].start_time by {
        assert(ext[i].end_time == s[i + 1].start_time - 1);
        assert(ext[i + 1].start_time == s[i + 1].start_time);
    }
    assert(segments_bounds_wf(ext));
    assert forall|t: int| #[trigger] spec_covered(s, t) implies spec_covered(ext, t) by {
        let k = choose|k: int|
            0 <= k < s.len() && (#[trigger] s[k]).start_time <= t <= s[k].end_time;
        assert(ext[k].start_time <= t <= ext[k].end_time);
    }
    assert forall|j: int| 0 <= j < ints.len() implies crate::merge::spec_owned_by(
        #[trigger] ints[j],
        ext,
    ) by {
        let k = choose|k: int|
            0 <= k < s.len() && (#[trigger] s[k]).id == ints[j].segment_id && s[k].start_time
                <= ints[j].timestamp <= s[k].end_time;
        assert(ext[k].id == ints[j].segment_id);
        assert(ext[k].start_time <= ints[j].timestamp <= ext[k].end_time);
    }
}

/// A segment after per-segment re-aggregation and scoring: counts are
/// recomputed from the readings within its interval, then the four
/// sub-scores and the weighted confidence are attached.
pub open spec fn spec_finalize(
    seg: Segment,
    readings: Seq<ContextReading>,
    config: SegmentationConfig,
) -> Segment {
    let within = spec_readings_within(readings, seg.start_time as int, seg.end_time as int);
    let unique = spec_unique_phash_count(within);
    let d = spec_score_duration(seg.duration_secs as int);
    let st = spec_score_stability(seg.bundle_id@, within);
    let v = spec_score_visual(unique, within.len());
    let o = spec_score_ocr(within);
    Segment {
        reading_count: within.len() as usize,
        unique_phash_count: Some(unique as usize),
        confidence: spec_confidence(config, d, st, v, o) as u32,
        duration_score: Some(d as u32),
        stability_score: Some(st as u32),
        visual_clarity_score: Some(v as u32),
        ocr_quality_score: Some(o as u32),
        ..seg
    }
}

/// Every score carried by the segment lies in 0..=1000.
pub open spec fn segment_scores_bounded(seg: Segment) -> bool {
    &&& seg.confidence <= 1000
    &&& (seg.duration_score matches Some(x) ==> x <= 1000)
    &&& (seg.stability_score matches Some(x) ==> x <= 1000)
    &&& (seg.visual_clarity_score matches Some(x) ==> x <= 1000)
    &&& (seg.ocr_quality_score matches Some(x) ==> x <= 1000)
}

/// Applies the end-time convention: each segment's end extends to just
/// before the next segment's start, with the duration recomputed to match;
/// the last segment is left at the last reading.
fn extend_segment_ends(segments: Vec<Segment>) -> (r: Vec<Segment>)
    requires
        merge_input_wf(segments@),
        crate::merge::segments_durations_wf(segments@),
    ensures
        r@ == spec_extend_ends(segments@),
{
    let len = segments.len();
    let mut out: Vec<Segment> = Vec::new();
    let mut i: usize = 0;
    while i < len
        invariant
            i <= len,
            len == segments@.len(),
            merge_input_wf(segments@),
            crate::merge::segments_durations_wf(segments@),
            out@ =~= spec_extend_ends(segments@).take(i as int),
        decreases len - i,
    {
        if i + 1 < len {
            let next_start = segments[i + 1].start_time;
            proof {
                assert(segments@[i as int].start_time <= segments@[i as int].end_time
                    < segments@[i + 1].start_time);
                assert(0 <= segments@[i + 1].start_time <= MAX_TIMESTAMP_SECS);
            }
            let mut extended = segments[i].duplicate();
            extended.end_time = next_start - 1;
            extended.duration_secs = next_start - 1 - extended.start_time
                + CAPTURE_INTERVAL_SECS;
            out.push(extended);
        } else {
            out.push(segments[i].duplicate());
        }
        proof {
            assert(out@ =~= spec_extend_ends(segments@).take(i + 1));
        }
        i += 1;
    }
    proof {
        assert(spec_extend_ends(segments@).take(len as int) =~= spec_extend_ends(segments@));
    }
    out
}

/// Re-aggregates and scores each merged segment.
#[verifier::rlimit(100)]
fn finalize_segments(
    merged: Vec<Segment>,
    readings: &Vec<ContextReading>,
    config: &SegmentationConfig,
) -> (r: Vec<Segment>)
    requires
        config.wf(),
        readings_scores_wf(readings@),
        segments_bounds_wf(merged@),
        crate::merge::segments_durations_wf(merged@),
    ensures
        r@ == Seq::new(merged@.len(), |i: int| spec_finalize(merged@[i], readings@, *config)),
        forall|i: int| 0 <= i < r@.len() ==> segment_scores_bounded(#[trigger] r@[i]),
{
    let count = merged.len();
    let mut out: Vec<Segment> = Vec::new();
    let mut i: usize = 0;
    while i < count
        invariant
            i <= count,
            count == merged@.len(),
            config.wf(),
            readings_scores_wf(readings@),
            segments_bounds_wf(merged@),
            crate::merge::segments_durations_wf(merged@),
            out@ =~= Seq::new(i as nat, |k: int| spec_finalize(merged@[k], readings@, *config)),
            forall|k: int| 0 <= k < out@.len() ==> segment_scores_bounded(#[trigger] out@[k]),
        decreases count - i,
    {
        let seg = &merged[i];
        let within = readings_within(readings, seg.start_time, seg.end_time);
        proof {
            lemma_within_scores_wf(readings@, seg.start_time as int, seg.end_time as int);
        }
        let unique = compute_unique_phash_count(&within);
        let mut updated = seg.duplicate();
        updated.reading_count = within.len();
        updated.unique_phash_count = Some(unique);
        proof {
            assert(0 <= updated.duration_secs
                <= crate::scoring::MAX_SEGMENT_DURATION_SECS) by {
                assert(merged@[i as int].duration_secs == merged@[i as int].end_time - merged@[
                i as int].start_time + CAPTURE_INTERVAL_SECS);
            }
        }
        let (confidence, d, st, v, o) = compute_confidence(&updated, &within, config);
        updated.confidence = confidence;
        updated.duration_score = Some(d);
        updated.stability_score = Some(st);
        updated.visual_clarity_score = Some(v);
        updated.ocr_quality_score = Some(o);
        proof {
            assert(updated == spec_finalize(merged@[i as int], readings@, *config));
        }
        out.push(updated);
        proof {
            assert(out@ =~= Seq::new(
                (i + 1) as nat,
                |k: int| spec_finalize(merged@[k], readings@, *config),
            ));
        }
        i += 1;
    }
    out
}

/// All readings carry one app identity: the no-switch session.
pub open spec fn spec_all_same_bundle(s: Seq<ContextReading>) -> bool {
    forall|j: int|
        0 <= j < s.len() ==> (#[trigger] s[j]).window_metadata.bundle_id@
            == s[0].window_metadata.bundle_id@
}

/// Decides `spec_all_same_bundle` on a concrete reading list.
fn all_same_bundle(readings: &Vec<ContextReading>) -> (r: bool)
    requires
        readings@.len() > 0,
    ensures
        r == spec_all_same_bundle(readings@),
{
    let len = readings.len();
    let mut j: usize = 1;
    while j < len
        invariant
            1 <= j <= len,
            len == readings@.len(),
            forall|k: int|
                0 <= k < j ==> (#[trigger] readings@[k]).window_metadata.bundle_id@ == readings@[0].window_metadata.bundle_id@,
        decreases len - j,
    {
        if !crate::text::str_eq(
            readings[j].window_metadata.bundle_id.as_str(),
            readings[0].window_metadata.bundle_id.as_str(),
        ) {
            return false;
        }
        j += 1;
    }
    true
}

/// The single segment covering a short or no-switch session: it spans the
/// whole session, carries the computed sub-scores, and keeps the high
/// fixed-prior confidence of a session with no detected switching.
pub open spec fn spec_single_segment(s: Seq<ContextReading>, config: SegmentationConfig) -> Segment {
    let duration = s.last().timestamp - s[0].timestamp + CAPTURE_INTERVAL_SECS;
    let unique = spec_unique_phash_count(s);
    let d = spec_score_duration(duration);
    let st = spec_score_stability(s[0].window_metadata.bundle_id@, s);
    let v = spec_score_visual(unique, s.len());
    let o = spec_score_ocr(s);
    Segment {
        id: 0,
        session_id: s[0].session_id,
        start_time: s[0].timestamp,
        end_time: s.last().timestamp,
        duration_secs: duration as i64,
        bundle_id: s[0].window_metadata.bundle_id,
        app_name: Some(s[0].window_metadata.owner_name),
        window_title: spec_most_common_title(s),
        confidence: 950,
        duration_score: Some(d as u32),
        stability_score: Some(st as u32),
        visual_clarity_score: Some(v as u32),
        ocr_quality_score: Some(o as u32),
        reading_count: s.len() as usize,
        unique_phash_count: Some(unique as usize),
    }
}

/// Builds the single segment of a short or no-switch session.
fn single_segment(readings: &Vec<ContextReading>, config: &SegmentationConfig) -> (r: Segment)
    requires
        readings_well_formed(readings@),
        readings_scores_wf(readings@),
        config.wf(),
        readings@.len() > 0,
    ensures
        r == spec_single_segment(readings@, *config),
        segment_scores_bounded(r),
{
    let n = readings.len();
    proof {
        if n > 1 {
            assert(readings@[0].timestamp < readings@[n - 1].timestamp);
        }
        assert(readings@.last() == readings@[n - 1]);
    }
    let duration = readings[n - 1].timestamp - readings[0].timestamp + CAPTURE_INTERVAL_SECS;
    let unique = compute_unique_phash_count(readings);
    let title = most_common_window_title(readings);
    let d = crate::scoring::score_duration(duration);
    let st = crate::scoring::score_stability(
        readings[0].window_metadata.bundle_id.as_str(),
        readings,
    );
    let v = crate::scoring::score_visual_clarity(unique, n);
    let o = crate::scoring::score_ocr_quality(readings);
    let first = &readings[0];
    Segment {
        id: 0,
        session_id: first.session_id.clone(),
        start_time: first.timestamp,
        end_time: readings[n - 1].timestamp,
        duration_secs: duration,
        bundle_id: first.window_metadata.bundle_id.clone(),
        app_name: Some(first.window_metadata.owner_name.clone()),
        window_title: title,
        confidence: 950,
        duration_score: Some(d),
        stability_score: Some(st),
        visual_clarity_score: Some(v),
        ocr_quality_score: Some(o),
        reading_count: n,
        unique_phash_count: Some(unique),
    }
}

/// The deterministic segmentation of one session's ordered readings: the
/// value `segment_session` returns, as a function of its inputs alone.
pub open spec fn spec_segment_session(
    readings: Seq<ContextReading>,
    config: SegmentationConfig,
) -> (Seq<Segment>, Seq<Interruption>) {
    if readings.len() == 0 {
        (Seq::empty(), Seq::empty())
    } else if readings.last().timestamp - readings[0].timestamp
        < config.min_segment_duration_secs || spec_all_same_bundle(readings) {
        (seq![spec_single_segment(readings, config)], Seq::empty())
    } else {
        let merged = spec_merge_all(spec_initial_segments(readings), config);
        let extended = spec_extend_ends(merged.0);
        (
            Seq::new(extended.len(), |i: int| spec_finalize(extended[i], readings, config)),
            spec_with_ids(merged.1),
        )
    }
}

/// The output segments reconstruct the session span exactly: they run from
/// the first to the last reading timestamp, consecutive segments abut (the
/// next starts right after the previous ends), so their union is all of
/// `[first, last]` with no gaps and no overlaps, and every reading falls
/// inside a segment.
pub open spec fn segments_cover(readings: Seq<ContextReading>, segs: Seq<Segment>) -> bool {
    &&& segs.len() > 0
    &&& segs[0].start_time == readings[0].timestamp
    &&& segs.last().end_time == readings.last().timestamp
    &&& forall|i: int| 0 <= i < segs.len() ==> (#[trigger] segs[i]).start_time <= segs[i].end_time
    &&& forall|i: int|
        0 <= i < segs.len() - 1 ==> (#[trigger] segs[i]).end_time + 1 == segs[i + 1].start_time
    &&& forall|j: int|
        0 <= j < readings.len() ==> spec_covered(segs, (#[trigger] readings[j]).timestamp as int)
}

/// The short or no-switch path: one segment spanning the whole session,
/// no interruptions, and the coverage and linking facts it carries.
proof fn lemma_single_path(readings: Seq<ContextReading>, config: SegmentationConfig)
    requires
        readings_well_formed(readings),
        readings.len() > 0,
        readings.last().timestamp - readings[0].timestamp < config.min_segment_duration_secs
            || spec_all_same_bundle(readings),
    ensures
        spec_segment_session(readings, config).0 == seq![spec_single_segment(readings, config)],
        spec_segment_session(readings, config).1 == Seq::<Interruption>::empty(),
        segments_cover(readings, seq![spec_single_segment(readings, config)]),
        crate::merge::spec_ids_distinct(seq![spec_single_segment(readings, config)]),
{
    let single = spec_single_segment(readings, config);
    let segs = seq![single];
    let n = readings.len() as int;
    assert(readings.last() == readings[n - 1]);
    if n > 1 {
        assert(readings[0].timestamp < readings[n - 1].timestamp);
    }
    assert(segs[0].start_time == readings[0].timestamp);
    assert(segs.last().end_time == readings.last().timestamp);
    assert forall|j: int| 0 <= j < readings.len() implies spec_covered(
        segs,
        (#[trigger] readings[j]).timestamp as int,
    ) by {
        if 0 < j {
            assert(readings[0].timestamp < readings[j].timestamp);
        }
        if j < n - 1 {
            assert(readings[j].timestamp < readings[n - 1].timestamp);
        }
        assert(segs[0].start_time <= readings[j].timestamp <= segs[0].end_time);
    }
    assert(segments_cover(readings, segs));
}

/// The general path returns the finalized merge output: what
/// `spec_segment_session` says for a session that is neither short nor
/// switch-free.
proof fn lemma_general_pin(
    readings: Seq<ContextReading>,
    config: SegmentationConfig,
    finals: Seq<Segment>,
    ints: Seq<Interruption>,
)
    requires
        readings.len() > 0,
        !(readings.last().timestamp - readings[0].timestamp < config.min_segment_duration_secs
            || spec_all_same_bundle(readings)),
        finals == Seq::new(
            spec_extend_ends(spec_merge_all(spec_initial_segments(readings), config).0).len(),
            |i: int|
                spec_finalize(
                    spec_extend_ends(spec_merge_all(spec_initial_segments(readings), config).0)[i],
                    readings,
                    config,
                ),
        ),
        ints == spec_with_ids(spec_merge_all(spec_initial_segments(readings), config).1),
    ensures
        finals == spec_segment_session(readings, config).0,
        ints == spec_segment_session(readings, config).1,
{
}

/// Segmenting one ordered reading list with one configuration always
/// yields identical segments and interruptions: the output is a function
/// of the readings and the configuration alone.
pub proof fn lemma_segmentation_deterministic(
    readings: Seq<ContextReading>,
    config: SegmentationConfig,
    first: (Seq<Segment>, Seq<Interruption>),
    second: (Seq<Segment>, Seq<Interruption>),
)
    requires
        first == spec_segment_session(readings, config),
        second == spec_segment_session(readings, config),
    ensures
        first == second,
{
}

/// The general path: group, fold sandwiched excursions, re-aggregate and
/// score.
#[verifier::rlimit(100)]
fn segment_general(readings: &Vec<ContextReading>, config: &SegmentationConfig) -> (r: (
    Vec<Segment>,
    Vec<Interruption>,
))
    requires
        readings_well_formed(readings@),
        readings_scores_wf(readings@),
        config.wf(),
        readings@.len() > 0,
        !(readings@.last().timestamp - readings@[0].timestamp
            < config.min_segment_duration_secs || spec_all_same_bundle(readings@)),
    ensures
        r.0@ == spec_segment_session(readings@, *config).0,
        r.1@ == spec_segment_session(readings@, *config).1,
        segments_cover(readings@, r.0@),
        forall|i: int| 0 <= i < r.0@.len() ==> segment_scores_bounded(#[trigger] r.0@[i]),
        forall|i: int|
            0 <= i < r.0@.len() ==> (#[trigger] r.0@[i]).duration_secs == r.0@[i].end_time
                - r.0@[i].start_time + CAPTURE_INTERVAL_SECS,
        crate::merge::spec_ints_linked(r.1@, r.0@),
        crate::merge::spec_ids_distinct(r.0@),
{
    let count = readings.len();
    let duplicate = clone_readings(readings);
    let groups = group_readings(duplicate);
    let init = initial_segments(&groups, readings);
    proof {
        assert(readings@.len() == count);
        lemma_general_path(readings@, *config);
    }
    let merge_result = sandwich_merge(init, config);
    let ghost init_view = spec_initial_segments(readings@);
    let ghost merged_view = spec_merge_all(init_view, *config).0;
    let ghost ext_view = spec_extend_ends(merged_view);
    proof {
        lemma_extend_ends(merged_view, merge_result.interruptions@);
    }
    let extended = extend_segment_ends(merge_result.segments);
    let final_segments = finalize_segments(extended, readings, config);
    proof {
        lemma_finalized_output(
            readings@,
            *config,
            ext_view,
            final_segments@,
            merge_result.interruptions@,
        );
        assert(final_segments@ =~= Seq::new(
            ext_view.len(),
            |i: int| spec_finalize(ext_view[i], readings@, *config),
        ));
        lemma_general_pin(readings@, *config, final_segments@, merge_result.interruptions@);
    }
    (final_segments, merge_result.interruptions)
}

/// The short or no-switch path as an executable step: builds the single
/// spanning segment and carries the path's facts.
#[verifier::rlimit(100)]
fn segment_single(readings: &Vec<ContextReading>, config: &SegmentationConfig) -> (r: Vec<
    Segment,
>)
    requires
        readings_well_formed(readings@),
        readings_scores_wf(readings@),
        config.wf(),
        readings@.len() > 0,
        readings@.last().timestamp - readings@[0].timestamp < config.min_segment_duration_secs
            || spec_all_same_bundle(readings@),
    ensures
        r@ == spec_segment_session(readings@, *config).0,
        spec_segment_session(readings@, *config).1 == Seq::<Interruption>::empty(),
        segments_cover(readings@, r@),
        forall|i: int| 0 <= i < r@.len() ==> segment_scores_bounded(#[trigger] r@[i]),
        forall|i: int|
            0 <= i < r@.len() ==> (#[trigger] r@[i]).duration_secs == r@[i].end_time
                - r@[i].start_time + CAPTURE_INTERVAL_SECS,
        crate::merge::spec_ids_distinct(r@),
{
    let seg = single_segment(readings, config);
    let ghost single = spec_single_segment(readings@, *config);
    let mut segs: Vec<Segment> = Vec::new();
    segs.push(seg);
    proof {
        lemma_single_path(readings@, *config);
        assert(segs@ =~= seq![single]);
    }
    segs
}

/// Transforms one session's ordered readings into scored, time-disjoint
/// segments plus the interruptions folded into them.
///
/// The result is pinned to `spec_segment_session`, so equal inputs give
/// equal outputs; for a non-empty session the segments reconstruct the
/// span from first to last reading with no gaps and no overlaps, every
/// score lies in 0..=1000, and every interruption references exactly one
/// returned segment, its timestamp inside that segment's interval.
#[verifier::rlimit(100)]
pub fn segment_session(readings: Vec<ContextReading>, config: &SegmentationConfig) -> (r: (
    Vec<Segment>,
    Vec<Interruption>,
))
    requires
        readings_well_formed(readings@),
        readings_scores_wf(readings@),
        config.wf(),
    ensures
        r.0@ == spec_segment_session(readings@, *config).0,
        r.1@ == spec_segment_session(readings@, *config).1,
        readings@.len() > 0 ==> segments_cover(readings@, r.0@),
        forall|i: int| 0 <= i < r.0@.len() ==> segment_scores_bounded(#[trigger] r.0@[i]),
        forall|i: int|
            0 <= i < r.0@.len() ==> (#[trigger] r.0@[i]).duration_secs == r.0@[i].end_time
                - r.0@[i].start_time + CAPTURE_INTERVAL_SECS,
        crate::merge::spec_ints_linked(r.1@, r.0@),
        crate::merge::spec_ids_distinct(r.0@),
{
    let n = readings.len();
    if n == 0 {
        return (Vec::new(), Vec::new());
    }
    proof {
        if n > 1 {
            assert(readings@[0].timestamp < readings@[n - 1].timestamp);
        }
        assert(readings@.last() == readings@[n - 1]);
    }
    let session_span = readings[n - 1].timestamp - readings[0].timestamp;
    let is_short = session_span < config.min_segment_duration_secs as i64;
    let no_switch = all_same_bundle(&readings);
    if is_short || no_switch {
        let segs = segment_single(&readings, config);
        return (segs, Vec::new());
    }
    segment_general(&readings, config)
}

} // verus!
