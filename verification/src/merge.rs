//! Sandwich merge: an A -> B -> A pattern whose middle run is brief is
//! folded into one host segment, with the middle run recorded as an
//! interruption.  Passes repeat until no triple qualifies, which folds
//! chains of rapid back-and-forth switching into one host with several
//! interruptions.

use crate::config::SegmentationConfig;
use crate::models::{Interruption, Segment, CAPTURE_INTERVAL_SECS, MAX_TIMESTAMP_SECS};
use vstd::prelude::*;

verus! {

/// Segments and the interruptions recorded while merging them.
pub struct SandwichMergeResult {
    pub segments: Vec<Segment>,
    pub interruptions: Vec<Interruption>,
}

/// Sum of the segments' reading counts.
pub open spec fn spec_total_reading_count(s: Seq<Segment>) -> int
    decreases s.len(),
{
    if s.len() == 0 {
        0
    } else {
        spec_total_reading_count(s.drop_last()) + s.last().reading_count
    }
}

/// Each interval lies within the timestamp range, ordered, and the list is
/// chronological and time-disjoint.
pub open spec fn segments_bounds_wf(s: Seq<Segment>) -> bool {
    &&& forall|i: int|
        0 <= i < s.len() ==> 0 <= (#[trigger] s[i]).start_time <= s[i].end_time
            <= MAX_TIMESTAMP_SECS
    &&& forall|i: int| 0 <= i < s.len() - 1 ==> (#[trigger] s[i]).end_time < s[i + 1].start_time
}

/// Segments fed to the merge: intervals in range and disjoint, ids
/// pairwise distinct, total reading count within `usize`.
pub open spec fn merge_input_wf(s: Seq<Segment>) -> bool {
    &&& segments_bounds_wf(s)
    &&& spec_ids_distinct(s)
    &&& spec_total_reading_count(s) <= usize::MAX
}

/// No two segments share an id.
pub open spec fn spec_ids_distinct(s: Seq<Segment>) -> bool {
    forall|i: int, j: int| 0 <= i < j < s.len() ==> (#[trigger] s[i]).id != (#[trigger] s[j]).id
}

/// Some segment of `s` carries this id.
pub open spec fn spec_has_segment_id(s: Seq<Segment>, id: u64) -> bool {
    exists|j: int| 0 <= j < s.len() && (#[trigger] s[j]).id == id
}

/// The interruption references one of the segments: its owner's id, with
/// its timestamp inside the owner's interval.
pub open spec fn spec_owned_by(i: Interruption, segs: Seq<Segment>) -> bool {
    exists|k: int|
        0 <= k < segs.len() && (#[trigger] segs[k]).id == i.segment_id && segs[k].start_time
            <= i.timestamp <= segs[k].end_time
}

/// Every interruption references one of the segments.
pub open spec fn spec_ints_linked(ints: Seq<Interruption>, segs: Seq<Segment>) -> bool {
    forall|j: int| 0 <= j < ints.len() ==> spec_owned_by(#[trigger] ints[j], segs)
}

/// Timestamp `t` falls inside one of the segments' intervals.
pub open spec fn spec_covered(s: Seq<Segment>, t: int) -> bool {
    exists|i: int| 0 <= i < s.len() && (#[trigger] s[i]).start_time <= t <= s[i].end_time
}

/// Each interval is properly ordered and the list is chronological and
/// time-disjoint.
pub open spec fn segments_ordered(s: Seq<Segment>) -> bool {
    &&& forall|i: int| 0 <= i < s.len() ==> (#[trigger] s[i]).start_time <= s[i].end_time
    &&& forall|i: int| 0 <= i < s.len() - 1 ==> (#[trigger] s[i]).end_time < s[i + 1].start_time
}

/// The A -> B -> A test: the outer segments share an app identity and the
/// middle one is short enough to fold.
pub open spec fn spec_sandwich_triple(
    a: Segment,
    b: Segment,
    c: Segment,
    config: SegmentationConfig,
) -> bool {
    a.bundle_id@ == c.bundle_id@ && b.duration_secs <= config.sandwich_max_duration_secs
}

/// The host segment: A extended to C's end, holding both runs' readings;
/// identity, title and id stay A's.
pub open spec fn spec_merged_segment(a: Segment, c: Segment) -> Segment {
    Segment {
        end_time: c.end_time,
        duration_secs: (c.end_time - a.start_time + CAPTURE_INTERVAL_SECS) as i64,
        reading_count: (a.reading_count + c.reading_count) as usize,
        ..a
    }
}

/// The interruption recorded for the folded middle run; ids are assigned
/// when the merge finishes.
pub open spec fn spec_interruption_of(b: Segment, host_id: u64) -> Interruption {
    Interruption {
        id: 0,
        segment_id: host_id,
        bundle_id: b.bundle_id,
        app_name: b.app_name,
        timestamp: b.start_time,
        duration_secs: b.duration_secs,
    }
}

/// Outcome of one left-to-right merge pass.
pub struct PassResult {
    pub segments: Seq<Segment>,
    pub merged: bool,
}

/// One left-to-right pass: the leftmost qualifying triple is folded, the
/// scan resumes after it.
pub open spec fn spec_pass(s: Seq<Segment>, config: SegmentationConfig) -> PassResult
    decreases s.len(),
{
    if s.len() >= 3 && spec_sandwich_triple(s[0], s[1], s[2], config) {
        let rest = spec_pass(s.skip(3), config);
        let m = spec_merged_segment(s[0], s[2]);
        PassResult { segments: seq![m] + rest.segments, merged: true }
    } else if s.len() >= 1 {
        let rest = spec_pass(s.skip(1), config);
        PassResult { segments: seq![s[0]] + rest.segments, merged: rest.merged }
    } else {
        PassResult { segments: Seq::empty(), merged: false }
    }
}

/// The accumulated interruptions with the two ids a fold absorbs re-pointed
/// to the surviving host, so no interruption is left referencing a dropped
/// segment.
pub open spec fn spec_reassign(
    acc: Seq<Interruption>,
    absorbed_mid: u64,
    absorbed_right: u64,
    host: u64,
) -> Seq<Interruption> {
    Seq::new(
        acc.len(),
        |k: int|
            if acc[k].segment_id == absorbed_mid || acc[k].segment_id == absorbed_right {
                Interruption {
                    id: acc[k].id,
                    segment_id: host,
                    bundle_id: acc[k].bundle_id,
                    app_name: acc[k].app_name,
                    timestamp: acc[k].timestamp,
                    duration_secs: acc[k].duration_secs,
                }
            } else {
                acc[k]
            },
    )
}

/// The interruption list after one pass over `s`, starting from the list
/// `acc` accumulated so far: each fold re-points the ids it absorbs to the
/// host and records the folded middle run.
pub open spec fn spec_pass_ints(
    s: Seq<Segment>,
    acc: Seq<Interruption>,
    config: SegmentationConfig,
) -> Seq<Interruption>
    decreases s.len(),
{
    if s.len() >= 3 && spec_sandwich_triple(s[0], s[1], s[2], config) {
        spec_pass_ints(
            s.skip(3),
            spec_reassign(acc, s[1].id, s[2].id, s[0].id).push(
                spec_interruption_of(s[1], s[0].id),
            ),
            config,
        )
    } else if s.len() >= 1 {
        spec_pass_ints(s.skip(1), acc, config)
    } else {
        acc
    }
}

/// The segment list after passes repeated until none folds a triple.
pub open spec fn spec_merge_segments(s: Seq<Segment>, config: SegmentationConfig) -> Seq<Segment>
    decreases s.len(),
{
    let p = spec_pass(s, config);
    if p.merged && p.segments.len() < s.len() {
        spec_merge_segments(p.segments, config)
    } else {
        s
    }
}

/// The interruption list after the same passes, in creation order, ids not
/// yet assigned; owners absorbed by later folds are re-pointed as the folds
/// happen.
pub open spec fn spec_merge_ints(
    s: Seq<Segment>,
    acc: Seq<Interruption>,
    config: SegmentationConfig,
) -> Seq<Interruption>
    decreases s.len(),
{
    let p = spec_pass(s, config);
    if p.merged && p.segments.len() < s.len() {
        spec_merge_ints(p.segments, spec_pass_ints(s, acc, config), config)
    } else {
        acc
    }
}

/// Passes repeated until none folds a triple: the final segments and the
/// interruptions recorded along the way, each still owned by a returned
/// segment.
pub open spec fn spec_merge_all(s: Seq<Segment>, config: SegmentationConfig) -> (
    Seq<Segment>,
    Seq<Interruption>,
) {
    (spec_merge_segments(s, config), spec_merge_ints(s, Seq::empty(), config))
}

/// Interruptions with their creation index as id.
pub open spec fn spec_with_ids(ints: Seq<Interruption>) -> Seq<Interruption> {
    Seq::new(
        ints.len(),
        |i: int|
            Interruption {
                id: i as u64,
                segment_id: ints[i].segment_id,
                bundle_id: ints[i].bundle_id,
                app_name: ints[i].app_name,
                timestamp: ints[i].timestamp,
                duration_secs: ints[i].duration_secs,
            },
    )
}

/// Every segment's reading count is bounded by the total.
proof fn lemma_total_single(s: Seq<Segment>, i: int)
    requires
        0 <= i < s.len(),
    ensures
        s[i].reading_count <= spec_total_reading_count(s),
        spec_total_reading_count(s) >= 0,
    decreases s.len(),
{
    if i == s.len() - 1 {
        lemma_total_nonneg(s.drop_last());
    } else {
        lemma_total_single(s.drop_last(), i);
        assert(s.drop_last()[i] == s[i]);
    }
}

/// The total reading count is never negative.
proof fn lemma_total_nonneg(s: Seq<Segment>)
    ensures
        spec_total_reading_count(s) >= 0,
    decreases s.len(),
{
    if s.len() > 0 {
        lemma_total_nonneg(s.drop_last());
    }
}

/// Two distinct segments' reading counts fit within the total.
proof fn lemma_total_pair(s: Seq<Segment>, i: int, j: int)
    requires
        0 <= i < j < s.len(),
    ensures
        s[i].reading_count + s[j].reading_count <= spec_total_reading_count(s),
    decreases s.len(),
{
    if j == s.len() - 1 {
        lemma_total_single(s.drop_last(), i);
        assert(s.drop_last()[i] == s[i]);
    } else {
        lemma_total_pair(s.drop_last(), i, j);
        assert(s.drop_last()[i] == s[i]);
        assert(s.drop_last()[j] == s[j]);
    }
}

/// Front decomposition of the total reading count.
proof fn lemma_total_front(s: Seq<Segment>)
    requires
        s.len() > 0,
    ensures
        spec_total_reading_count(s) == s[0].reading_count + spec_total_reading_count(s.skip(1)),
    decreases s.len(),
{
    if s.len() == 1 {
        assert(s.skip(1) =~= Seq::empty());
        assert(s.drop_last() =~= Seq::<Segment>::empty());
    } else {
        lemma_total_front(s.drop_last());
        assert(s.drop_last()[0] == s[0]);
        assert(s.skip(1).drop_last() =~= s.drop_last().skip(1));
    }
}

/// Structural facts of one pass: it never grows the list, shrinks it
/// exactly when it folded something, copies it exactly when it did not,
/// and keeps the first start and last end.
pub proof fn lemma_pass_basic(s: Seq<Segment>, config: SegmentationConfig)
    ensures
        spec_pass(s, config).segments.len() <= s.len(),
        !spec_pass(s, config).merged ==> spec_pass(s, config).segments == s,
        spec_pass(s, config).merged ==> spec_pass(s, config).segments.len() < s.len(),
        s.len() > 0 ==> spec_pass(s, config).segments.len() > 0 && spec_pass(
            s,
            config,
        ).segments[0].start_time == s[0].start_time && spec_pass(s, config).segments.last().end_time
            == s.last().end_time,
        s.len() == 0 ==> spec_pass(s, config).segments.len() == 0,
    decreases s.len(),
{
    if s.len() >= 3 && spec_sandwich_triple(s[0], s[1], s[2], config) {
        lemma_pass_basic(s.skip(3), config);
        if !spec_pass(s, config).merged {
            assert(false);
        }
        if s.len() == 3 {
            assert(s.skip(3) =~= Seq::empty());
        }
    } else if s.len() >= 1 {
        lemma_pass_basic(s.skip(1), config);
        let rest = spec_pass(s.skip(1), config);
        if !spec_pass(s, config).merged {
            assert(spec_pass(s, config).segments =~= s) by {
                assert(rest.segments == s.skip(1));
            }
        }
        if s.len() == 1 {
            assert(s.skip(1) =~= Seq::empty());
        }
    }
}

/// Prepending one interval that closes before the list opens keeps the
/// list well-formed.
proof fn lemma_bounds_wf_cons(x: Segment, rest: Seq<Segment>)
    requires
        0 <= x.start_time <= x.end_time <= MAX_TIMESTAMP_SECS,
        segments_bounds_wf(rest),
        rest.len() > 0 ==> x.end_time < rest[0].start_time,
    ensures
        segments_bounds_wf(seq![x] + rest),
{
    let out = seq![x] + rest;
    assert(out[0] == x);
    assert(forall|k: int| 0 <= k < rest.len() ==> #[trigger] out[k + 1] == rest[k]);
    assert forall|k: int|
        0 <= k < out.len() implies 0 <= (#[trigger] out[k]).start_time <= out[k].end_time
        <= MAX_TIMESTAMP_SECS by {
        if k > 0 {
            assert(out[k] == rest[k - 1]);
        }
    }
    assert forall|k: int|
        0 <= k < out.len() - 1 implies (#[trigger] out[k]).end_time < out[k + 1].start_time by {
        if k == 0 {
            assert(out[1] == rest[0]);
        } else {
            assert(out[k] == rest[k - 1]);
            assert(out[k + 1] == rest[k]);
        }
    }
}

/// One pass keeps the intervals in range, ordered and disjoint.
proof fn lemma_pass_intervals(s: Seq<Segment>, config: SegmentationConfig)
    requires
        segments_bounds_wf(s),
    ensures
        segments_bounds_wf(spec_pass(s, config).segments),
    decreases s.len(), 1int,
{
    if s.len() >= 3 && spec_sandwich_triple(s[0], s[1], s[2], config) {
        lemma_pass_intervals_fold(s, config);
    } else if s.len() >= 1 {
        lemma_pass_intervals_keep(s, config);
    }
}

/// The folding branch of `lemma_pass_intervals`.
#[verifier::rlimit(100)]
proof fn lemma_pass_intervals_fold(s: Seq<Segment>, config: SegmentationConfig)
    requires
        segments_bounds_wf(s),
        s.len() >= 3,
        spec_sandwich_triple(s[0], s[1], s[2], config),
    ensures
        segments_bounds_wf(spec_pass(s, config).segments),
    decreases s.len(), 0int,
{
    let tail = s.skip(3);
    assert(forall|k: int| 0 <= k < tail.len() ==> #[trigger] tail[k] == s[k + 3]);
    assert(segments_bounds_wf(tail));
    lemma_pass_intervals(tail, config);
    lemma_pass_basic(tail, config);
    let m = spec_merged_segment(s[0], s[2]);
    let rest = spec_pass(tail, config);
    assert(spec_pass(s, config).segments == seq![m] + rest.segments);
    assert(0 <= m.start_time <= m.end_time <= MAX_TIMESTAMP_SECS);
    if rest.segments.len() > 0 {
        assert(rest.segments[0].start_time == tail[0].start_time);
        assert(m.end_time == s[2].end_time < s[3].start_time == tail[0].start_time);
    }
    lemma_bounds_wf_cons(m, rest.segments);
}

/// The copying branch of `lemma_pass_intervals`.
#[verifier::rlimit(100)]
proof fn lemma_pass_intervals_keep(s: Seq<Segment>, config: SegmentationConfig)
    requires
        segments_bounds_wf(s),
        s.len() >= 1,
        !(s.len() >= 3 && spec_sandwich_triple(s[0], s[1], s[2], config)),
    ensures
        segments_bounds_wf(spec_pass(s, config).segments),
    decreases s.len(), 0int,
{
    let tail = s.skip(1);
    assert(forall|k: int| 0 <= k < tail.len() ==> #[trigger] tail[k] == s[k + 1]);
    assert(segments_bounds_wf(tail));
    lemma_pass_intervals(tail, config);
    lemma_pass_basic(tail, config);
    let rest = spec_pass(tail, config);
    assert(spec_pass(s, config).segments == seq![s[0]] + rest.segments);
    if rest.segments.len() > 0 {
        assert(rest.segments[0].start_time == tail[0].start_time);
        assert(s[0].end_time < tail[0].start_time);
    }
    lemma_bounds_wf_cons(s[0], rest.segments);
}

/// Front decomposition of the total over the first three segments.
proof fn lemma_pass_total_split(s: Seq<Segment>, config: SegmentationConfig)
    requires
        s.len() >= 3,
    ensures
        spec_total_reading_count(s) == s[0].reading_count + s[1].reading_count
            + s[2].reading_count + spec_total_reading_count(s.skip(3)),
{
    lemma_total_front(s);
    lemma_total_front(s.skip(1));
    lemma_total_front(s.skip(1).skip(1));
    assert(s.skip(1).skip(1) =~= s.skip(2));
    assert(s.skip(2).skip(1) =~= s.skip(3));
    assert(s.skip(1)[0] == s[1]);
    assert(s.skip(2)[0] == s[2]);
}

/// One pass never increases the total reading count.
#[verifier::rlimit(100)]
proof fn lemma_pass_total(s: Seq<Segment>, config: SegmentationConfig)
    requires
        spec_total_reading_count(s) <= usize::MAX,
    ensures
        0 <= spec_total_reading_count(spec_pass(s, config).segments) <= spec_total_reading_count(
            s,
        ),
    decreases s.len(),
{
    lemma_total_nonneg(s);
    if s.len() >= 3 && spec_sandwich_triple(s[0], s[1], s[2], config) {
        let tail = s.skip(3);
        lemma_pass_total_split(s, config);
        lemma_total_nonneg(tail);
        lemma_pass_total(tail, config);
        let m = spec_merged_segment(s[0], s[2]);
        let rest = spec_pass(tail, config);
        let out = spec_pass(s, config).segments;
        assert(m.reading_count == s[0].reading_count + s[2].reading_count) by {
            lemma_total_pair(s, 0, 2);
        }
        assert(spec_total_reading_count(out) == m.reading_count + spec_total_reading_count(
            rest.segments,
        )) by {
            lemma_total_front(out);
            assert(out.skip(1) =~= rest.segments);
        }
    } else if s.len() >= 1 {
        let tail = s.skip(1);
        lemma_total_front(s);
        lemma_total_nonneg(tail);
        lemma_pass_total(tail, config);
        let rest = spec_pass(tail, config);
        let out = spec_pass(s, config).segments;
        assert(spec_total_reading_count(out) == s[0].reading_count + spec_total_reading_count(
            rest.segments,
        )) by {
            lemma_total_front(out);
            assert(out.skip(1) =~= rest.segments);
        }
    }
}

/// One pass keeps the input well-formed.
pub proof fn lemma_pass_wf(s: Seq<Segment>, config: SegmentationConfig)
    requires
        merge_input_wf(s),
    ensures
        merge_input_wf(spec_pass(s, config).segments),
        spec_total_reading_count(spec_pass(s, config).segments) <= spec_total_reading_count(s),
    decreases s.len(),
{
    lemma_pass_total(s, config);
    lemma_pass_intervals(s, config);
    lemma_pass_ids(s, config);
}

/// A pass that folded nothing leaves the accumulated interruptions alone.
proof fn lemma_pass_ints_no_fold(s: Seq<Segment>, acc: Seq<Interruption>, config: SegmentationConfig)
    requires
        !spec_pass(s, config).merged,
    ensures
        spec_pass_ints(s, acc, config) == acc,
    decreases s.len(),
{
    if s.len() >= 3 && spec_sandwich_triple(s[0], s[1], s[2], config) {
        assert(false);
    } else if s.len() >= 1 {
        lemma_pass_ints_no_fold(s.skip(1), acc, config);
    }
}

/// A pass keeps segment ids pairwise distinct and introduces none.
#[verifier::rlimit(100)]
proof fn lemma_pass_ids(s: Seq<Segment>, config: SegmentationConfig)
    requires
        spec_ids_distinct(s),
    ensures
        spec_ids_distinct(spec_pass(s, config).segments),
        forall|k: int|
            0 <= k < spec_pass(s, config).segments.len() ==> spec_has_segment_id(
                s,
                (#[trigger] spec_pass(s, config).segments[k]).id,
            ),
    decreases s.len(),
{
    let out = spec_pass(s, config).segments;
    if s.len() >= 3 && spec_sandwich_triple(s[0], s[1], s[2], config) {
        let tail = s.skip(3);
        assert(forall|k: int| 0 <= k < tail.len() ==> #[trigger] tail[k] == s[k + 3]);
        assert(spec_ids_distinct(tail));
        lemma_pass_ids(tail, config);
        let rest = spec_pass(tail, config);
        let m = spec_merged_segment(s[0], s[2]);
        assert(out == seq![m] + rest.segments);
        assert(out[0] == m && m.id == s[0].id);
        assert(forall|k: int|
            0 <= k < rest.segments.len() ==> #[trigger] out[k + 1] == rest.segments[k]);
        assert forall|k: int| 0 <= k < out.len() implies spec_has_segment_id(
            s,
            (#[trigger] out[k]).id,
        ) by {
            if k == 0 {
                assert(s[0].id == out[0].id);
            } else {
                assert(out[k] == rest.segments[k - 1]);
                let j = choose|j: int|
                    0 <= j < tail.len() && (#[trigger] tail[j]).id == rest.segments[k - 1].id;
                assert(s[j + 3].id == out[k].id);
            }
        }
        assert forall|k1: int, k2: int|
            0 <= k1 < k2 < out.len() implies (#[trigger] out[k1]).id != (#[trigger] out[k2]).id by {
            if k1 == 0 {
                assert(out[k2] == rest.segments[k2 - 1]);
                let j = choose|j: int|
                    0 <= j < tail.len() && (#[trigger] tail[j]).id == rest.segments[k2 - 1].id;
                assert(out[k2].id == s[j + 3].id);
                assert(s[0].id != s[j + 3].id);
            } else {
                assert(out[k1] == rest.segments[k1 - 1]);
                assert(out[k2] == rest.segments[k2 - 1]);
            }
        }
    } else if s.len() >= 1 {
        let tail = s.skip(1);
        assert(forall|k: int| 0 <= k < tail.len() ==> #[trigger] tail[k] == s[k + 1]);
        assert(spec_ids_distinct(tail));
        lemma_pass_ids(tail, config);
        let rest = spec_pass(tail, config);
        assert(out == seq![s[0]] + rest.segments);
        assert(out[0] == s[0]);
        assert(forall|k: int|
            0 <= k < rest.segments.len() ==> #[trigger] out[k + 1] == rest.segments[k]);
        assert forall|k: int| 0 <= k < out.len() implies spec_has_segment_id(
            s,
            (#[trigger] out[k]).id,
        ) by {
            if k == 0 {
                assert(s[0].id == out[0].id);
            } else {
                assert(out[k] == rest.segments[k - 1]);
                let j = choose|j: int|
                    0 <= j < tail.len() && (#[trigger] tail[j]).id == rest.segments[k - 1].id;
                assert(s[j + 1].id == out[k].id);
            }
        }
        assert forall|k1: int, k2: int|
            0 <= k1 < k2 < out.len() implies (#[trigger] out[k1]).id != (#[trigger] out[k2]).id by {
            if k1 == 0 {
                assert(out[k2] == rest.segments[k2 - 1]);
                let j = choose|j: int|
                    0 <= j < tail.len() && (#[trigger] tail[j]).id == rest.segments[k2 - 1].id;
                assert(out[k2].id == s[j + 1].id);
                assert(s[0].id != s[j + 1].id);
            } else {
                assert(out[k1] == rest.segments[k1 - 1]);
                assert(out[k2] == rest.segments[k2 - 1]);
            }
        }
    }
}

/// One pass keeps every accumulated interruption owned: an owner that is
/// absorbed has its interruptions re-pointed to the host, whose interval
/// contains theirs.  `outside` carries the hosts already emitted to the
/// pass's left.
#[verifier::rlimit(100)]
proof fn lemma_pass_ints_linked(
    s: Seq<Segment>,
    acc: Seq<Interruption>,
    config: SegmentationConfig,
    outside: Seq<Segment>,
)
    requires
        segments_ordered(s),
        spec_ids_distinct(s),
        forall|i: int, j: int|
            0 <= i < s.len() && 0 <= j < outside.len() ==> (#[trigger] s[i]).id != (
            #[trigger] outside[j]).id,
        forall|j: int|
            0 <= j < acc.len() ==> spec_owned_by(#[trigger] acc[j], s) || spec_owned_by(
                acc[j],
                outside,
            ),
    ensures
        forall|j: int|
            0 <= j < spec_pass_ints(s, acc, config).len() ==> spec_owned_by(
                #[trigger] spec_pass_ints(s, acc, config)[j],
                spec_pass(s, config).segments,
            ) || spec_owned_by(spec_pass_ints(s, acc, config)[j], outside),
    decreases s.len(),
{
    if s.len() >= 3 && spec_sandwich_triple(s[0], s[1], s[2], config) {
        let tail = s.skip(3);
        assert(forall|k: int| 0 <= k < tail.len() ==> #[trigger] tail[k] == s[k + 3]);
        let m = spec_merged_segment(s[0], s[2]);
        let acc2 = spec_reassign(acc, s[1].id, s[2].id, s[0].id).push(
            spec_interruption_of(s[1], s[0].id),
        );
        let outside2 = outside.push(m);
        assert(outside2[outside.len() as int] == m);
        assert(forall|j: int| 0 <= j < outside.len() ==> #[trigger] outside2[j] == outside[j]);
        assert(m.id == s[0].id && m.start_time == s[0].start_time && m.end_time == s[2].end_time);
        assert(s[0].start_time <= s[0].end_time < s[1].start_time);
        assert(s[1].start_time <= s[1].end_time < s[2].start_time);
        assert(s[2].start_time <= s[2].end_time);
        assert forall|j: int| 0 <= j < acc2.len() implies spec_owned_by(#[trigger] acc2[j], tail)
            || spec_owned_by(acc2[j], outside2) by {
            if j < acc.len() {
                let old = acc[j];
                if spec_owned_by(old, s) {
                    let k = choose|k: int|
                        0 <= k < s.len() && (#[trigger] s[k]).id == old.segment_id && s[k].start_time
                            <= old.timestamp <= s[k].end_time;
                    if k == 0 {
                        assert(old.segment_id != s[1].id && old.segment_id != s[2].id);
                        assert(acc2[j] == old);
                        assert(spec_owned_by(old, outside2));
                    } else if k <= 2 {
                        assert(acc2[j].segment_id == m.id);
                        assert(acc2[j].timestamp == old.timestamp);
                        assert(m.start_time <= acc2[j].timestamp <= m.end_time);
                        assert(spec_owned_by(acc2[j], outside2));
                    } else {
                        assert(old.segment_id == s[k].id);
                        assert(old.segment_id != s[1].id && old.segment_id != s[2].id);
                        assert(acc2[j] == old);
                        assert(tail[k - 3] == s[k]);
                        assert(spec_owned_by(acc2[j], tail));
                    }
                } else {
                    let k = choose|k: int|
                        0 <= k < outside.len() && (#[trigger] outside[k]).id == old.segment_id
                            && outside[k].start_time <= old.timestamp <= outside[k].end_time;
                    assert(old.segment_id != s[1].id && old.segment_id != s[2].id);
                    assert(acc2[j] == old);
                    assert(outside2[k] == outside[k]);
                    assert(spec_owned_by(acc2[j], outside2));
                }
            } else {
                assert(acc2[j] == spec_interruption_of(s[1], s[0].id));
                assert(acc2[j].segment_id == m.id);
                assert(m.start_time <= acc2[j].timestamp <= m.end_time);
                assert(spec_owned_by(acc2[j], outside2));
            }
        }
        assert(segments_ordered(tail));
        assert(spec_ids_distinct(tail));
        assert forall|i: int, j: int|
            0 <= i < tail.len() && 0 <= j < outside2.len() implies (#[trigger] tail[i]).id != (
        #[trigger] outside2[j]).id by {
            assert(tail[i] == s[i + 3]);
            if j < outside.len() {
                assert(outside2[j] == outside[j]);
            } else {
                assert(outside2[j] == m);
                assert(s[i + 3].id != s[0].id);
            }
        }
        lemma_pass_ints_linked(tail, acc2, config, outside2);
        let rest = spec_pass(tail, config);
        let out = spec_pass(s, config).segments;
        assert(out == seq![m] + rest.segments);
        assert(out[0] == m);
        assert(forall|k: int|
            0 <= k < rest.segments.len() ==> #[trigger] out[k + 1] == rest.segments[k]);
        let final_ints = spec_pass_ints(s, acc, config);
        assert(final_ints == spec_pass_ints(tail, acc2, config));
        assert forall|j: int| 0 <= j < final_ints.len() implies spec_owned_by(
            #[trigger] final_ints[j],
            out,
        ) || spec_owned_by(final_ints[j], outside) by {
            if spec_owned_by(final_ints[j], rest.segments) {
                let k = choose|k: int|
                    0 <= k < rest.segments.len() && (#[trigger] rest.segments[k]).id
                        == final_ints[j].segment_id && rest.segments[k].start_time
                        <= final_ints[j].timestamp <= rest.segments[k].end_time;
                assert(out[k + 1] == rest.segments[k]);
                assert(spec_owned_by(final_ints[j], out));
            } else {
                assert(spec_owned_by(final_ints[j], outside2));
                let k = choose|k: int|
                    0 <= k < outside2.len() && (#[trigger] outside2[k]).id
                        == final_ints[j].segment_id && outside2[k].start_time
                        <= final_ints[j].timestamp <= outside2[k].end_time;
                if k < outside.len() {
                    assert(outside2[k] == outside[k]);
                    assert(spec_owned_by(final_ints[j], outside));
                } else {
                    assert(outside2[k] == m && out[0] == m);
                    assert(spec_owned_by(final_ints[j], out));
                }
            }
        }
    } else if s.len() >= 1 {
        let tail = s.skip(1);
        assert(forall|k: int| 0 <= k < tail.len() ==> #[trigger] tail[k] == s[k + 1]);
        let outside2 = outside.push(s[0]);
        assert(outside2[outside.len() as int] == s[0]);
        assert(forall|j: int| 0 <= j < outside.len() ==> #[trigger] outside2[j] == outside[j]);
        assert forall|j: int| 0 <= j < acc.len() implies spec_owned_by(#[trigger] acc[j], tail)
            || spec_owned_by(acc[j], outside2) by {
            if spec_owned_by(acc[j], s) {
                let k = choose|k: int|
                    0 <= k < s.len() && (#[trigger] s[k]).id == acc[j].segment_id && s[k].start_time
                        <= acc[j].timestamp <= s[k].end_time;
                if k == 0 {
                    assert(spec_owned_by(acc[j], outside2));
                } else {
                    assert(tail[k - 1] == s[k]);
                    assert(spec_owned_by(acc[j], tail));
                }
            } else {
                let k = choose|k: int|
                    0 <= k < outside.len() && (#[trigger] outside[k]).id == acc[j].segment_id
                        && outside[k].start_time <= acc[j].timestamp <= outside[k].end_time;
                assert(outside2[k] == outside[k]);
                assert(spec_owned_by(acc[j], outside2));
            }
        }
        assert(segments_ordered(tail));
        assert(spec_ids_distinct(tail));
        assert forall|i: int, j: int|
            0 <= i < tail.len() && 0 <= j < outside2.len() implies (#[trigger] tail[i]).id != (
        #[trigger] outside2[j]).id by {
            assert(tail[i] == s[i + 1]);
            if j < outside.len() {
                assert(outside2[j] == outside[j]);
            } else {
                assert(outside2[j] == s[0]);
                assert(s[i + 1].id != s[0].id);
            }
        }
        lemma_pass_ints_linked(tail, acc, config, outside2);
        let rest = spec_pass(tail, config);
        let out = spec_pass(s, config).segments;
        assert(out == seq![s[0]] + rest.segments);
        assert(out[0] == s[0]);
        assert(forall|k: int|
            0 <= k < rest.segments.len() ==> #[trigger] out[k + 1] == rest.segments[k]);
        let final_ints = spec_pass_ints(s, acc, config);
        assert(final_ints == spec_pass_ints(tail, acc, config));
        assert forall|j: int| 0 <= j < final_ints.len() implies spec_owned_by(
            #[trigger] final_ints[j],
            out,
        ) || spec_owned_by(final_ints[j], outside) by {
            if spec_owned_by(final_ints[j], rest.segments) {
                let k = choose|k: int|
                    0 <= k < rest.segments.len() && (#[trigger] rest.segments[k]).id
                        == final_ints[j].segment_id && rest.segments[k].start_time
                        <= final_ints[j].timestamp <= rest.segments[k].end_time;
                assert(out[k + 1] == rest.segments[k]);
            } else {
                assert(spec_owned_by(final_ints[j], outside2));
                let k = choose|k: int|
                    0 <= k < outside2.len() && (#[trigger] outside2[k]).id
                        == final_ints[j].segment_id && outside2[k].start_time
                        <= final_ints[j].timestamp <= outside2[k].end_time;
                if k < outside.len() {
                    assert(outside2[k] == outside[k]);
                    assert(spec_owned_by(final_ints[j], outside));
                } else {
                    assert(outside2[k] == s[0] && out[0] == s[0]);
                    assert(spec_owned_by(final_ints[j], out));
                }
            }
        }
    }
}

/// Through the whole merge, every recorded interruption stays owned by a
/// surviving segment: matching id, timestamp inside its interval.
#[verifier::rlimit(100)]
pub proof fn lemma_merge_ints_linked(
    s: Seq<Segment>,
    acc: Seq<Interruption>,
    config: SegmentationConfig,
)
    requires
        merge_input_wf(s),
        spec_ints_linked(acc, s),
    ensures
        spec_ints_linked(
            spec_merge_ints(s, acc, config),
            spec_merge_segments(s, config),
        ),
    decreases s.len(),
{
    let p = spec_pass(s, config);
    lemma_pass_basic(s, config);
    lemma_pass_wf(s, config);
    if p.merged && p.segments.len() < s.len() {
        lemma_pass_ints_linked(s, acc, config, Seq::empty());
        let acc2 = spec_pass_ints(s, acc, config);
        assert(spec_ints_linked(acc2, p.segments)) by {
            assert(forall|j: int|
                0 <= j < acc2.len() ==> !spec_owned_by(#[trigger] acc2[j], Seq::empty()));
        }
        lemma_merge_ints_linked(p.segments, acc2, config);
    }
}

/// A timestamp covered before a pass is covered after it.
#[verifier::rlimit(100)]
pub proof fn lemma_pass_covers(s: Seq<Segment>, config: SegmentationConfig, t: int)
    requires
        segments_ordered(s),
        spec_covered(s, t),
    ensures
        spec_covered(spec_pass(s, config).segments, t),
    decreases s.len(),
{
    let out = spec_pass(s, config).segments;
    let w = choose|i: int| 0 <= i < s.len() && (#[trigger] s[i]).start_time <= t <= s[i].end_time;
    if s.len() >= 3 && spec_sandwich_triple(s[0], s[1], s[2], config) {
        let tail = s.skip(3);
        assert(forall|k: int| 0 <= k < tail.len() ==> #[trigger] tail[k] == s[k + 3]);
        let m = spec_merged_segment(s[0], s[2]);
        let rest = spec_pass(tail, config);
        assert(out == seq![m] + rest.segments);
        assert(out[0] == m);
        assert(forall|k: int|
            0 <= k < rest.segments.len() ==> #[trigger] out[k + 1] == rest.segments[k]);
        if w <= 2 {
            assert(s[0].start_time <= t <= s[2].end_time);
            assert(out[0].start_time <= t <= out[0].end_time);
        } else {
            assert(tail[w - 3].start_time <= t <= tail[w - 3].end_time);
            assert(segments_ordered(tail));
            assert(spec_covered(tail, t));
            lemma_pass_covers(tail, config, t);
            let k = choose|k: int|
                0 <= k < rest.segments.len() && (#[trigger] rest.segments[k]).start_time <= t
                    <= rest.segments[k].end_time;
            assert(out[k + 1].start_time <= t <= out[k + 1].end_time);
        }
    } else if s.len() >= 1 {
        let tail = s.skip(1);
        assert(forall|k: int| 0 <= k < tail.len() ==> #[trigger] tail[k] == s[k + 1]);
        let rest = spec_pass(tail, config);
        assert(out == seq![s[0]] + rest.segments);
        assert(out[0] == s[0]);
        assert(forall|k: int|
            0 <= k < rest.segments.len() ==> #[trigger] out[k + 1] == rest.segments[k]);
        if w == 0 {
            assert(out[0].start_time <= t <= out[0].end_time);
        } else {
            assert(tail[w - 1].start_time <= t <= tail[w - 1].end_time);
            assert(segments_ordered(tail));
            assert(spec_covered(tail, t));
            lemma_pass_covers(tail, config, t);
            let k = choose|k: int|
                0 <= k < rest.segments.len() && (#[trigger] rest.segments[k]).start_time <= t
                    <= rest.segments[k].end_time;
            assert(out[k + 1].start_time <= t <= out[k + 1].end_time);
        }
    }
}

/// Every segment's duration is its span plus one capture interval.
pub open spec fn segments_durations_wf(s: Seq<Segment>) -> bool {
    forall|i: int|
        0 <= i < s.len() ==> (#[trigger] s[i]).duration_secs == s[i].end_time - s[i].start_time
            + CAPTURE_INTERVAL_SECS
}

/// One pass keeps every duration equal to its span plus one interval.
#[verifier::rlimit(100)]
proof fn lemma_pass_durations(s: Seq<Segment>, config: SegmentationConfig)
    requires
        segments_bounds_wf(s),
        segments_durations_wf(s),
    ensures
        segments_durations_wf(spec_pass(s, config).segments),
    decreases s.len(),
{
    if s.len() >= 3 && spec_sandwich_triple(s[0], s[1], s[2], config) {
        let tail = s.skip(3);
        assert(forall|k: int| 0 <= k < tail.len() ==> #[trigger] tail[k] == s[k + 3]);
        assert(segments_bounds_wf(tail));
        assert(segments_durations_wf(tail));
        lemma_pass_durations(tail, config);
        let m = spec_merged_segment(s[0], s[2]);
        let rest = spec_pass(tail, config);
        let out = spec_pass(s, config).segments;
        assert(out == seq![m] + rest.segments);
        assert(out[0] == m);
        assert(forall|k: int|
            0 <= k < rest.segments.len() ==> #[trigger] out[k + 1] == rest.segments[k]);
        assert(0 <= s[0].start_time <= s[2].end_time <= MAX_TIMESTAMP_SECS);
        assert(m.duration_secs == m.end_time - m.start_time + CAPTURE_INTERVAL_SECS);
        assert forall|k: int|
            0 <= k < out.len() implies (#[trigger] out[k]).duration_secs == out[k].end_time
            - out[k].start_time + CAPTURE_INTERVAL_SECS by {
            if k > 0 {
                assert(out[k] == rest.segments[k - 1]);
            }
        }
    } else if s.len() >= 1 {
        let tail = s.skip(1);
        assert(forall|k: int| 0 <= k < tail.len() ==> #[trigger] tail[k] == s[k + 1]);
        assert(segments_bounds_wf(tail));
        assert(segments_durations_wf(tail));
        lemma_pass_durations(tail, config);
        let rest = spec_pass(tail, config);
        let out = spec_pass(s, config).segments;
        assert(out == seq![s[0]] + rest.segments);
        assert(out[0] == s[0]);
        assert(forall|k: int|
            0 <= k < rest.segments.len() ==> #[trigger] out[k + 1] == rest.segments[k]);
        assert forall|k: int|
            0 <= k < out.len() implies (#[trigger] out[k]).duration_secs == out[k].end_time
            - out[k].start_time + CAPTURE_INTERVAL_SECS by {
            if k > 0 {
                assert(out[k] == rest.segments[k - 1]);
            }
        }
    }
}

/// The repeated merge keeps every duration equal to its span plus one
/// interval.
pub proof fn lemma_merge_all_durations(s: Seq<Segment>, config: SegmentationConfig)
    requires
        merge_input_wf(s),
        segments_durations_wf(s),
    ensures
        segments_durations_wf(spec_merge_segments(s, config)),
    decreases s.len(),
{
    let p = spec_pass(s, config);
    lemma_pass_basic(s, config);
    lemma_pass_wf(s, config);
    lemma_pass_durations(s, config);
    if p.merged && p.segments.len() < s.len() {
        lemma_merge_all_durations(p.segments, config);
    }
}

/// The merged list is well-formed, no longer than the input, keeps the
/// first start and last end, and no further pass folds anything in it.
#[verifier::rlimit(100)]
pub proof fn lemma_merge_all_props(s: Seq<Segment>, config: SegmentationConfig)
    requires
        merge_input_wf(s),
    ensures
        merge_input_wf(spec_merge_segments(s, config)),
        spec_merge_segments(s, config).len() <= s.len(),
        s.len() > 0 ==> spec_merge_segments(s, config).len() > 0 && spec_merge_segments(s, config)[0].start_time == s[0].start_time && spec_merge_segments(s, config).last().end_time
            == s.last().end_time,
        s.len() == 0 ==> spec_merge_segments(s, config).len() == 0,
        !spec_pass(spec_merge_segments(s, config), config).merged,
    decreases s.len(),
{
    let p = spec_pass(s, config);
    lemma_pass_basic(s, config);
    lemma_pass_wf(s, config);
    if p.merged && p.segments.len() < s.len() {
        lemma_merge_all_props(p.segments, config);
    }
}

/// A timestamp covered by the input segments is covered by the merged ones.
#[verifier::rlimit(100)]
pub proof fn lemma_merge_all_covers(s: Seq<Segment>, config: SegmentationConfig, t: int)
    requires
        merge_input_wf(s),
        spec_covered(s, t),
    ensures
        spec_covered(spec_merge_segments(s, config), t),
    decreases s.len(),
{
    let p = spec_pass(s, config);
    lemma_pass_basic(s, config);
    lemma_pass_wf(s, config);
    if p.merged && p.segments.len() < s.len() {
        lemma_pass_covers(s, config, t);
        lemma_merge_all_covers(p.segments, config, t);
    }
}

/// Re-running the merge on its own output changes nothing: the segments
/// come back as they are and no further interruption is recorded.
pub proof fn lemma_sandwich_merge_idempotent(s: Seq<Segment>, config: SegmentationConfig)
    requires
        merge_input_wf(s),
    ensures
        spec_merge_all(spec_merge_all(s, config).0, config).0 == spec_merge_all(s, config).0,
        spec_merge_all(spec_merge_all(s, config).0, config).1 == Seq::<Interruption>::empty(),
{
    lemma_merge_all_props(s, config);
    let r = spec_merge_segments(s, config);
    lemma_pass_basic(r, config);
    assert(spec_merge_all(s, config).0 == r);
    assert(spec_merge_segments(r, config) == r);
    assert(spec_merge_ints(r, Seq::<Interruption>::empty(), config)
        == Seq::<Interruption>::empty());
}

/// Rebuilds the interruption list with the two absorbed ids re-pointed to
/// the host.
fn reassign_interruptions(
    ints: &Vec<Interruption>,
    absorbed_mid: u64,
    absorbed_right: u64,
    host: u64,
) -> (r: Vec<Interruption>)
    ensures
        r@ == spec_reassign(ints@, absorbed_mid, absorbed_right, host),
{
    let len = ints.len();
    let mut out: Vec<Interruption> = Vec::new();
    let mut k: usize = 0;
    while k < len
        invariant
            k <= len,
            len == ints@.len(),
            out@ =~= spec_reassign(ints@, absorbed_mid, absorbed_right, host).take(k as int),
        decreases len - k,
    {
        let item = &ints[k];
        let next = if item.segment_id == absorbed_mid || item.segment_id == absorbed_right {
            Interruption {
                id: item.id,
                segment_id: host,
                bundle_id: item.bundle_id.clone(),
                app_name: match &item.app_name {
                    Some(n) => Some(n.clone()),
                    None => None,
                },
                timestamp: item.timestamp,
                duration_secs: item.duration_secs,
            }
        } else {
            Interruption {
                id: item.id,
                segment_id: item.segment_id,
                bundle_id: item.bundle_id.clone(),
                app_name: match &item.app_name {
                    Some(n) => Some(n.clone()),
                    None => None,
                },
                timestamp: item.timestamp,
                duration_secs: item.duration_secs,
            }
        };
        out.push(next);
        proof {
            assert(out@ =~= spec_reassign(ints@, absorbed_mid, absorbed_right, host).take(
                k + 1,
            ));
        }
        k += 1;
    }
    proof {
        assert(spec_reassign(ints@, absorbed_mid, absorbed_right, host).take(len as int)
            =~= spec_reassign(ints@, absorbed_mid, absorbed_right, host));
    }
    out
}

/// One merge pass over the segments, folding each leftmost qualifying
/// triple and threading the accumulated interruption list through the
/// folds.
#[verifier::rlimit(100)]
fn sandwich_pass(segments: &Vec<Segment>, ints: Vec<Interruption>, config: &SegmentationConfig) -> (r: (
    Vec<Segment>,
    Vec<Interruption>,
    bool,
))
    requires
        config.wf(),
        merge_input_wf(segments@),
    ensures
        r.0@ == spec_pass(segments@, *config).segments,
        r.1@ == spec_pass_ints(segments@, ints@, *config),
        r.2 == spec_pass(segments@, *config).merged,
{
    let ghost orig_ints = ints@;
    let mut ints = ints;
    let len = segments.len();
    let mut out: Vec<Segment> = Vec::new();
    let mut merged = false;
    let mut i: usize = 0;
    proof {
        assert(segments@.skip(0) =~= segments@);
    }
    while i < len
        invariant
            i <= len,
            len == segments@.len(),
            config.wf(),
            merge_input_wf(segments@),
            spec_pass(segments@, *config).segments == out@ + spec_pass(
                segments@.skip(i as int),
                *config,
            ).segments,
            spec_pass_ints(segments@, orig_ints, *config) == spec_pass_ints(
                segments@.skip(i as int),
                ints@,
                *config,
            ),
            spec_pass(segments@, *config).merged == (merged || spec_pass(
                segments@.skip(i as int),
                *config,
            ).merged),
        decreases len - i,
    {
        let ghost tail = segments@.skip(i as int);
        proof {
            assert(forall|k: int| 0 <= k < tail.len() ==> #[trigger] tail[k] == segments@[k + i]);
        }
        let mut fold = false;
        if len - i > 2 {
            if segments[i].bundle_id == segments[i + 2].bundle_id {
                if segments[i + 1].duration_secs <= config.sandwich_max_duration_secs as i64 {
                    fold = true;
                }
            }
        }
        proof {
            if len - i > 2 {
                assert(tail[0] == segments@[i as int]);
                assert(tail[1] == segments@[i + 1]);
                assert(tail[2] == segments@[i + 2]);
                assert(fold == (tail.len() >= 3 && spec_sandwich_triple(
                    tail[0],
                    tail[1],
                    tail[2],
                    *config,
                )));
            } else {
                assert(tail.len() < 3);
                assert(!fold);
            }
        }
        if fold {
            let a = &segments[i];
            let c = &segments[i + 2];
            proof {
                lemma_total_pair(segments@, i as int, i + 2);
                lemma_total_nonneg(segments@);
            }
            let host = Segment {
                id: a.id,
                session_id: a.session_id.clone(),
                start_time: a.start_time,
                end_time: c.end_time,
                duration_secs: c.end_time - a.start_time + CAPTURE_INTERVAL_SECS,
                bundle_id: a.bundle_id.clone(),
                app_name: match &a.app_name {
                    Some(n) => Some(n.clone()),
                    None => None,
                },
                window_title: match &a.window_title {
                    Some(t) => Some(t.clone()),
                    None => None,
                },
                confidence: a.confidence,
                duration_score: a.duration_score,
                stability_score: a.stability_score,
                visual_clarity_score: a.visual_clarity_score,
                ocr_quality_score: a.ocr_quality_score,
                reading_count: a.reading_count + c.reading_count,
                unique_phash_count: a.unique_phash_count,
            };
            let b = &segments[i + 1];
            let excursion = Interruption {
                id: 0,
                segment_id: host.id,
                bundle_id: b.bundle_id.clone(),
                app_name: match &b.app_name {
                    Some(n) => Some(n.clone()),
                    None => None,
                },
                timestamp: b.start_time,
                duration_secs: b.duration_secs,
            };
            proof {
                assert(host == spec_merged_segment(tail[0], tail[2]));
                assert(excursion == spec_interruption_of(tail[1], tail[0].id));
            }
            let ghost out_prev = out@;
            let ghost ints_prev = ints@;
            let absorbed_mid = b.id;
            let absorbed_right = c.id;
            let host_id = host.id;
            out.push(host);
            let reassigned = reassign_interruptions(&ints, absorbed_mid, absorbed_right, host_id);
            ints = reassigned;
            ints.push(excursion);
            merged = true;
            proof {
                assert(tail.skip(3) =~= segments@.skip(i + 3));
                let rest = spec_pass(segments@.skip(i + 3), *config);
                assert(spec_pass(tail, *config).segments == seq![
                    spec_merged_segment(tail[0], tail[2]),
                ] + rest.segments);
                assert(out@ =~= out_prev.push(spec_merged_segment(tail[0], tail[2])));
                assert(out@ + rest.segments =~= out_prev + spec_pass(tail, *config).segments);
                assert(ints@ =~= spec_reassign(ints_prev, tail[1].id, tail[2].id, tail[0].id).push(
                    spec_interruption_of(tail[1], tail[0].id),
                ));
                assert(spec_pass_ints(tail, ints_prev, *config) == spec_pass_ints(
                    segments@.skip(i + 3),
                    ints@,
                    *config,
                ));
            }
            i += 3;
        } else {
            let ghost out_prev = out@;
            let keep = segments[i].duplicate();
            out.push(keep);
            proof {
                assert(tail.skip(1) =~= segments@.skip(i + 1));
                let rest = spec_pass(segments@.skip(i + 1), *config);
                assert(spec_pass(tail, *config).segments == seq![tail[0]] + rest.segments);
                assert(spec_pass(tail, *config).merged == rest.merged);
                assert(spec_pass_ints(tail, ints@, *config) == spec_pass_ints(
                    segments@.skip(i + 1),
                    ints@,
                    *config,
                ));
                assert(out@ =~= out_prev.push(tail[0]));
                assert(out@ + rest.segments =~= out_prev + spec_pass(tail, *config).segments);
            }
            i += 1;
        }
    }
    proof {
        assert(segments@.skip(len as int) =~= Seq::<Segment>::empty());
        assert(out@ + Seq::<Segment>::empty() =~= out@);
    }
    (out, ints, merged)
}

/// Folds sandwiched excursions until no triple qualifies, re-pointing the
/// interruptions of absorbed hosts to the surviving ones, then numbers the
/// interruptions in creation order.  Every returned interruption references
/// exactly one returned segment, and its timestamp lies in that segment's
/// interval.
pub fn sandwich_merge(segments: Vec<Segment>, config: &SegmentationConfig) -> (r:
    SandwichMergeResult)
    requires
        config.wf(),
        merge_input_wf(segments@),
    ensures
        r.segments@ == spec_merge_all(segments@, *config).0,
        r.interruptions@ == spec_with_ids(spec_merge_all(segments@, *config).1),
        spec_ints_linked(r.interruptions@, r.segments@),
        spec_ids_distinct(r.segments@),
{
    let ghost orig = segments@;
    let mut segs = segments;
    let mut raw: Vec<Interruption> = Vec::new();
    loop
        invariant
            config.wf(),
            merge_input_wf(segs@),
            spec_merge_segments(orig, *config) == spec_merge_segments(segs@, *config),
            spec_merge_ints(orig, Seq::empty(), *config) == spec_merge_ints(
                segs@,
                raw@,
                *config,
            ),
            spec_ints_linked(raw@, segs@),
        ensures
            config.wf(),
            merge_input_wf(segs@),
            spec_merge_segments(orig, *config) == segs@,
            spec_merge_ints(orig, Seq::empty(), *config) == raw@,
            spec_ints_linked(raw@, segs@),
        decreases segs@.len(),
    {
        let ghost segs_before = segs@;
        let ghost raw_before = raw@;
        let (new_segs, new_ints, pass_merged) = sandwich_pass(&segs, raw, config);
        proof {
            lemma_pass_basic(segs_before, *config);
            lemma_pass_wf(segs_before, *config);
        }
        if !pass_merged {
            proof {
                lemma_pass_ints_no_fold(segs_before, raw_before, *config);
            }
            raw = new_ints;
            break ;
        }
        proof {
            let p = spec_pass(segs_before, *config);
            assert(p.merged && p.segments.len() < segs_before.len());
            assert(spec_merge_segments(segs_before, *config) == spec_merge_segments(
                p.segments,
                *config,
            ));
            assert(spec_merge_ints(segs_before, raw_before, *config) == spec_merge_ints(
                p.segments,
                spec_pass_ints(segs_before, raw_before, *config),
                *config,
            ));
            lemma_pass_ints_linked(segs_before, raw_before, *config, Seq::empty());
            assert(spec_ints_linked(new_ints@, p.segments)) by {
                assert(forall|j: int|
                    0 <= j < new_ints@.len() ==> !spec_owned_by(
                        #[trigger] new_ints@[j],
                        Seq::<Segment>::empty(),
                    ));
            }
        }
        segs = new_segs;
        raw = new_ints;
    }
    let total = raw.len();
    let mut numbered: Vec<Interruption> = Vec::new();
    let mut idx: usize = 0;
    while idx < total
        invariant
            idx <= total,
            total == raw@.len(),
            numbered@ =~= spec_with_ids(raw@).take(idx as int),
        decreases total - idx,
    {
        let item = &raw[idx];
        let renumbered = Interruption {
            id: idx as u64,
            segment_id: item.segment_id,
            bundle_id: item.bundle_id.clone(),
            app_name: match &item.app_name {
                Some(n) => Some(n.clone()),
                None => None,
            },
            timestamp: item.timestamp,
            duration_secs: item.duration_secs,
        };
        numbered.push(renumbered);
        proof {
            assert(numbered@ =~= spec_with_ids(raw@).take(idx + 1));
        }
        idx += 1;
    }
    proof {
        assert(spec_with_ids(raw@).take(total as int) =~= spec_with_ids(raw@));
        assert forall|j: int| 0 <= j < numbered@.len() implies spec_owned_by(
            #[trigger] numbered@[j],
            segs@,
        ) by {
            assert(numbered@[j].segment_id == raw@[j].segment_id);
            assert(numbered@[j].timestamp == raw@[j].timestamp);
            let k = choose|k: int|
                0 <= k < segs@.len() && (#[trigger] segs@[k]).id == raw@[j].segment_id
                    && segs@[k].start_time <= raw@[j].timestamp <= segs@[k].end_time;
            assert(segs@[k].id == numbered@[j].segment_id && segs@[k].start_time
                <= numbered@[j].timestamp <= segs@[k].end_time);
        }
    }
    SandwichMergeResult { segments: segs, interruptions: numbered }
}

} // verus!
