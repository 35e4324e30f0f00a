//! Confidence scoring: four sub-scores combined by a weighted sum.
//!
//! All scores are thousandths; every sub-score and the overall confidence
//! lies in 0..=1000 for any input.

use crate::config::SegmentationConfig;
use crate::models::{readings_scores_wf, ContextReading, Segment};
use vstd::prelude::*;

verus! {

/// Upper bound on a segment duration fed to the duration score; anything a
/// well-formed reading list can produce stays far below it.
pub const MAX_SEGMENT_DURATION_SECS: i64 = 200_000_000_000;

/// Number of readings in `s` whose app identity is `bundle`.
pub open spec fn spec_count_matching(s: Seq<ContextReading>, bundle: Seq<char>) -> nat
    decreases s.len(),
{
    if s.len() == 0 {
        0
    } else {
        spec_count_matching(s.drop_last(), bundle) + (if s.last().window_metadata.bundle_id@
            == bundle {
            1nat
        } else {
            0nat
        })
    }
}

/// Sum of the recognition confidences present in `s`.
pub open spec fn spec_ocr_sum(s: Seq<ContextReading>) -> int
    decreases s.len(),
{
    if s.len() == 0 {
        0
    } else {
        spec_ocr_sum(s.drop_last()) + (match s.last().ocr_confidence {
            Some(c) => c as int,
            None => 0,
        })
    }
}

/// Number of readings in `s` that carry a recognition confidence.
pub open spec fn spec_ocr_count(s: Seq<ContextReading>) -> nat
    decreases s.len(),
{
    if s.len() == 0 {
        0
    } else {
        spec_ocr_count(s.drop_last()) + (if s.last().ocr_confidence is Some {
            1nat
        } else {
            0nat
        })
    }
}

/// Whether some reading in `s` carries exactly the fingerprint `p`.
pub open spec fn spec_contains_phash(s: Seq<ContextReading>, p: Seq<char>) -> bool {
    exists|j: int| 0 <= j < s.len() && (#[trigger] s[j].phash matches Some(q) && q@ == p)
}

/// Number of distinct fingerprint values present in `s`.
pub open spec fn spec_unique_phash_count(s: Seq<ContextReading>) -> nat
    decreases s.len(),
{
    if s.len() == 0 {
        0
    } else {
        spec_unique_phash_count(s.drop_last()) + (match s.last().phash {
            Some(p) => if spec_contains_phash(s.drop_last(), p@) {
                0nat
            } else {
                1nat
            },
            None => 0nat,
        })
    }
}

/// Duration sub-score: a piecewise-linear logistic-shaped curve through
/// 30 s -> 300, 60 s -> 500, 120 s -> 700, 300 s -> 900, rising slowly to a
/// 980 cap beyond that — sustained segments score higher.
pub open spec fn spec_score_duration(d: int) -> int {
    if d < 30 {
        100 + d * 200 / 30
    } else if d < 60 {
        300 + (d - 30) * 200 / 30
    } else if d < 120 {
        500 + (d - 60) * 200 / 60
    } else if d < 300 {
        700 + (d - 120) * 200 / 180
    } else if 900 + (d - 300) / 30 < 980 {
        900 + (d - 300) / 30
    } else {
        980
    }
}

/// Stability sub-score: the fraction of the segment's readings whose app
/// identity matches the segment's, in thousandths; 500 without readings.
pub open spec fn spec_score_stability(bundle: Seq<char>, readings: Seq<ContextReading>) -> int {
    if readings.len() == 0 {
        500
    } else {
        (spec_count_matching(readings, bundle) as int) * 1000 / (readings.len() as int)
    }
}

/// Visual-clarity sub-score: 1000 minus the capped ratio of distinct
/// fingerprints to readings — many distinct screen states signal unclear
/// focus; 500 without readings.
pub open spec fn spec_score_visual(unique_count: nat, reading_count: nat) -> int {
    if reading_count == 0 {
        500
    } else if (unique_count as int) * 1000 / (reading_count as int) > 1000 {
        0
    } else {
        1000 - (unique_count as int) * 1000 / (reading_count as int)
    }
}

/// Recognition-quality sub-score: mean recognition confidence over the
/// readings that carry one; 500 when none do.
pub open spec fn spec_score_ocr(readings: Seq<ContextReading>) -> int {
    if spec_ocr_count(readings) == 0 {
        500
    } else {
        spec_ocr_sum(readings) / spec_ocr_count(readings) as int
    }
}

/// Overall confidence: the weighted sum of the four sub-scores, in
/// thousandths.
pub open spec fn spec_confidence(
    config: SegmentationConfig,
    duration_score: int,
    stability_score: int,
    visual_score: int,
    ocr_score: int,
) -> int {
    (config.weight_duration * duration_score + config.weight_stability * stability_score
        + config.weight_visual * visual_score + config.weight_ocr * ocr_score) / 1000
}

/// Tight bounds of the duration curve on each of its pieces.
proof fn lemma_score_duration_piece_bounds(d: int)
    requires
        0 <= d,
    ensures
        d < 30 ==> 100 <= spec_score_duration(d) <= 293,
        30 <= d < 60 ==> 300 <= spec_score_duration(d) <= 493,
        60 <= d < 120 ==> 500 <= spec_score_duration(d) <= 696,
        120 <= d < 300 ==> 700 <= spec_score_duration(d) <= 898,
        300 <= d ==> 900 <= spec_score_duration(d) <= 980,
{
    if d < 30 {
        assert(0 <= d * 200 / 30 <= 193) by (nonlinear_arith)
            requires
                0 <= d < 30,
        ;
    } else if d < 60 {
        assert(0 <= (d - 30) * 200 / 30 <= 193) by (nonlinear_arith)
            requires
                30 <= d < 60,
        ;
    } else if d < 120 {
        assert(0 <= (d - 60) * 200 / 60 <= 196) by (nonlinear_arith)
            requires
                60 <= d < 120,
        ;
    } else if d < 300 {
        assert(0 <= (d - 120) * 200 / 180 <= 198) by (nonlinear_arith)
            requires
                120 <= d < 300,
        ;
    } else {
        assert((d - 300) / 30 >= 0);
    }
}

/// Sustained segments never score lower: the duration curve is
/// non-decreasing (it plateaus at its 980 cap, so strict increase does not
/// hold).
pub proof fn lemma_score_duration_monotone(d1: int, d2: int)
    requires
        0 <= d1 <= d2,
    ensures
        spec_score_duration(d1) <= spec_score_duration(d2),
{
    lemma_score_duration_piece_bounds(d1);
    lemma_score_duration_piece_bounds(d2);
    if d2 < 30 {
        assert(d1 * 200 / 30 <= d2 * 200 / 30) by (nonlinear_arith)
            requires
                0 <= d1 <= d2,
        ;
    } else if 30 <= d1 && d2 < 60 {
        assert((d1 - 30) * 200 / 30 <= (d2 - 30) * 200 / 30) by (nonlinear_arith)
            requires
                30 <= d1 <= d2,
        ;
    } else if 60 <= d1 && d2 < 120 {
        assert((d1 - 60) * 200 / 60 <= (d2 - 60) * 200 / 60) by (nonlinear_arith)
            requires
                60 <= d1 <= d2,
        ;
    } else if 120 <= d1 && d2 < 300 {
        assert((d1 - 120) * 200 / 180 <= (d2 - 120) * 200 / 180) by (nonlinear_arith)
            requires
                120 <= d1 <= d2,
        ;
    } else if 300 <= d1 {
        assert((d1 - 300) / 30 <= (d2 - 300) / 30) by (nonlinear_arith)
            requires
                300 <= d1 <= d2,
        ;
    }
}

/// The duration sub-score lies in 0..=1000.
pub proof fn lemma_score_duration_bounds(d: int)
    requires
        0 <= d,
    ensures
        0 <= spec_score_duration(d) <= 1000,
{
    if d < 30 {
        assert(d * 200 / 30 <= 200) by (nonlinear_arith)
            requires
                0 <= d < 30,
        ;
        assert(d * 200 / 30 >= 0) by (nonlinear_arith)
            requires
                0 <= d,
        ;
    } else if d < 60 {
        assert((d - 30) * 200 / 30 <= 200 && (d - 30) * 200 / 30 >= 0) by (nonlinear_arith)
            requires
                30 <= d < 60,
        ;
    } else if d < 120 {
        assert((d - 60) * 200 / 60 <= 200 && (d - 60) * 200 / 60 >= 0) by (nonlinear_arith)
            requires
                60 <= d < 120,
        ;
    } else if d < 300 {
        assert((d - 120) * 200 / 180 <= 200 && (d - 120) * 200 / 180 >= 0) by (nonlinear_arith)
            requires
                120 <= d < 300,
        ;
    } else {
        assert((d - 300) / 30 >= 0);
    }
}

/// Every sub-score in 0..=1000 keeps the weighted confidence in 0..=1000.
pub proof fn lemma_confidence_bounds(
    config: SegmentationConfig,
    duration_score: int,
    stability_score: int,
    visual_score: int,
    ocr_score: int,
)
    requires
        config.wf(),
        0 <= duration_score <= 1000,
        0 <= stability_score <= 1000,
        0 <= visual_score <= 1000,
        0 <= ocr_score <= 1000,
    ensures
        0 <= spec_confidence(config, duration_score, stability_score, visual_score, ocr_score)
            <= 1000,
{
    let total = config.weight_duration * duration_score + config.weight_stability
        * stability_score + config.weight_visual * visual_score + config.weight_ocr * ocr_score;
    assert(config.weight_duration * duration_score <= config.weight_duration * 1000)
        by (nonlinear_arith)
        requires
            0 <= duration_score <= 1000,
    ;
    assert(config.weight_stability * stability_score <= config.weight_stability * 1000)
        by (nonlinear_arith)
        requires
            0 <= stability_score <= 1000,
    ;
    assert(config.weight_visual * visual_score <= config.weight_visual * 1000)
        by (nonlinear_arith)
        requires
            0 <= visual_score <= 1000,
    ;
    assert(config.weight_ocr * ocr_score <= config.weight_ocr * 1000) by (nonlinear_arith)
        requires
            0 <= ocr_score <= 1000,
    ;
    assert(config.weight_duration * duration_score >= 0) by (nonlinear_arith)
        requires
            duration_score >= 0,
    ;
    assert(config.weight_stability * stability_score >= 0) by (nonlinear_arith)
        requires
            stability_score >= 0,
    ;
    assert(config.weight_visual * visual_score >= 0) by (nonlinear_arith)
        requires
            visual_score >= 0,
    ;
    assert(config.weight_ocr * ocr_score >= 0) by (nonlinear_arith)
        requires
            ocr_score >= 0,
    ;
    assert(total <= 1_000_000);
    assert(total / 1000 <= 1000);
    assert(total / 1000 >= 0);
}

/// Computes the duration sub-score.
pub fn score_duration(duration_secs: i64) -> (r: u32)
    requires
        0 <= duration_secs <= MAX_SEGMENT_DURATION_SECS,
    ensures
        r == spec_score_duration(duration_secs as int),
        r <= 1000,
{
    proof {
        lemma_score_duration_bounds(duration_secs as int);
    }
    let d = duration_secs;
    if d < 30 {
        (100 + d * 200 / 30) as u32
    } else if d < 60 {
        (300 + (d - 30) * 200 / 30) as u32
    } else if d < 120 {
        (500 + (d - 60) * 200 / 60) as u32
    } else if d < 300 {
        (700 + (d - 120) * 200 / 180) as u32
    } else {
        let slow = 900 + (d - 300) / 30;
        if slow < 980 {
            slow as u32
        } else {
            980
        }
    }
}

/// Computes the stability sub-score of a segment over its readings.
pub fn score_stability(bundle_id: &str, readings: &Vec<ContextReading>) -> (r: u32)
    ensures
        r == spec_score_stability(bundle_id@, readings@),
        r <= 1000,
{
    let len = readings.len();
    if len == 0 {
        return 500;
    }
    let mut matching: usize = 0;
    let mut i: usize = 0;
    while i < len
        invariant
            i <= len,
            len == readings@.len(),
            matching == spec_count_matching(readings@.take(i as int), bundle_id@),
            matching <= i,
        decreases len - i,
    {
        proof {
            assert(readings@.take(i + 1).drop_last() =~= readings@.take(i as int));
            assert(readings@.take(i + 1).last() == readings@[i as int]);
        }
        if crate::text::str_eq(readings[i].window_metadata.bundle_id.as_str(), bundle_id) {
            matching += 1;
        }
        i += 1;
    }
    proof {
        assert(readings@.take(len as int) =~= readings@);
    }
    let ratio: u128 = (matching as u128) * 1000 / (len as u128);
    proof {
        assert(matching * 1000 / (len as int) <= 1000) by (nonlinear_arith)
            requires
                0 <= matching <= len,
                0 < len,
        ;
    }
    ratio as u32
}

/// Computes the visual-clarity sub-score from a segment's aggregate counts.
pub fn score_visual_clarity(unique_count: usize, reading_count: usize) -> (r: u32)
    ensures
        r == spec_score_visual(unique_count as nat, reading_count as nat),
        r <= 1000,
{
    if reading_count == 0 {
        return 500;
    }
    let ratio: u128 = (unique_count as u128) * 1000 / (reading_count as u128);
    if ratio > 1000 {
        0
    } else {
        1000 - ratio as u32
    }
}

/// Computes the recognition-quality sub-score over a segment's readings.
pub fn score_ocr_quality(readings: &Vec<ContextReading>) -> (r: u32)
    requires
        readings_scores_wf(readings@),
    ensures
        r == spec_score_ocr(readings@),
        r <= 1000,
{
    let len = readings.len();
    let mut total: u128 = 0;
    let mut counted: usize = 0;
    let mut i: usize = 0;
    while i < len
        invariant
            i <= len,
            len == readings@.len(),
            readings_scores_wf(readings@),
            total == spec_ocr_sum(readings@.take(i as int)),
            counted == spec_ocr_count(readings@.take(i as int)),
            counted <= i,
            total <= 1000 * (counted as int),
        decreases len - i,
    {
        proof {
            assert(readings@.take(i + 1).drop_last() =~= readings@.take(i as int));
            assert(readings@.take(i + 1).last() == readings@[i as int]);
            assert(readings@[i as int].ocr_confidence matches Some(cc) ==> cc <= 1000);
        }
        match readings[i].ocr_confidence {
            Some(c) => {
                total += c as u128;
                counted += 1;
            },
            None => {},
        }
        i += 1;
    }
    proof {
        assert(readings@.take(len as int) =~= readings@);
    }
    if counted == 0 {
        500
    } else {
        let avg: u128 = total / (counted as u128);
        proof {
            assert((total as int) / (counted as int) <= 1000) by (nonlinear_arith)
                requires
                    0 < counted,
                    total <= 1000 * (counted as int),
            ;
        }
        avg as u32
    }
}

/// Counts the distinct fingerprint values among the given readings.
pub fn compute_unique_phash_count(readings: &Vec<ContextReading>) -> (r: usize)
    ensures
        r == spec_unique_phash_count(readings@),
{
    let len = readings.len();
    let mut seen: Vec<String> = Vec::new();
    let mut i: usize = 0;
    while i < len
        invariant
            i <= len,
            len == readings@.len(),
            seen@.len() == spec_unique_phash_count(readings@.take(i as int)),
            forall|k: int|
                0 <= k < seen@.len() ==> spec_contains_phash(
                    readings@.take(i as int),
                    #[trigger] seen@[k]@,
                ),
            forall|j: int|
                0 <= j < i ==> (#[trigger] readings@[j].phash matches Some(q) ==> exists|k: int|
                    0 <= k < seen@.len() && #[trigger] seen@[k]@ == q@),
        decreases len - i,
    {
        let ghost prefix = readings@.take(i as int);
        proof {
            assert(readings@.take(i + 1).drop_last() =~= prefix);
            assert(readings@.take(i + 1).last() == readings@[i as int]);
        }
        match &readings[i].phash {
            Some(p) => {
                let mut found = false;
                let mut k: usize = 0;
                let seen_len = seen.len();
                while k < seen_len
                    invariant
                        k <= seen_len,
                        seen_len == seen@.len(),
                        found <==> exists|j: int| 0 <= j < k && #[trigger] seen@[j]@ == p@,
                    decreases seen_len - k,
                {
                    if crate::text::str_eq(seen[k].as_str(), p.as_str()) {
                        found = true;
                    }
                    k += 1;
                }
                proof {
                    if found {
                        let w = choose|j: int| 0 <= j < seen@.len() && #[trigger] seen@[j]@ == p@;
                        assert(spec_contains_phash(prefix, seen@[w]@));
                        assert(spec_contains_phash(prefix, p@));
                    } else {
                        if spec_contains_phash(prefix, p@) {
                            let j = choose|j: int|
                                0 <= j < prefix.len() && (#[trigger] prefix[j].phash matches Some(
                                    q,
                                ) && q@ == p@);
                            assert(readings@[j].phash matches Some(q) && q@ == p@);
                            assert(false);
                        }
                    }
                }
                if !found {
                    let ghost old_seen = seen@;
                    seen.push(p.clone());
                    proof {
                        assert(seen@.last()@ == p@);
                        assert(forall|k: int| 0 <= k < old_seen.len() ==> seen@[k] == old_seen[k]);
                        assert(spec_contains_phash(readings@.take(i + 1), p@)) by {
                            assert(readings@.take(i + 1)[i as int].phash matches Some(q) && q@
                                == p@);
                        }
                        assert(forall|k: int|
                            0 <= k < seen@.len() ==> spec_contains_phash(
                                readings@.take(i + 1),
                                #[trigger] seen@[k]@,
                            )) by {
                            assert(forall|q: Seq<char>|
                                spec_contains_phash(prefix, q) ==> spec_contains_phash(
                                    readings@.take(i + 1),
                                    q,
                                ));
                        }
                    }
                } else {
                    proof {
                        assert(forall|q: Seq<char>|
                            spec_contains_phash(prefix, q) ==> spec_contains_phash(
                                readings@.take(i + 1),
                                q,
                            ));
                    }
                }
            },
            None => {
                proof {
                    assert(forall|q: Seq<char>|
                        spec_contains_phash(prefix, q) ==> spec_contains_phash(
                            readings@.take(i + 1),
                            q,
                        ));
                }
            },
        }
        i += 1;
    }
    proof {
        assert(readings@.take(len as int) =~= readings@);
    }
    seen.len()
}

/// Computes the overall confidence of a segment and its four sub-scores,
/// in the order duration, stability, visual clarity, recognition quality.
/// Every returned score lies in 0..=1000.
pub fn compute_confidence(
    segment: &Segment,
    readings: &Vec<ContextReading>,
    config: &SegmentationConfig,
) -> (r: (u32, u32, u32, u32, u32))
    requires
        config.wf(),
        0 <= segment.duration_secs <= MAX_SEGMENT_DURATION_SECS,
        readings_scores_wf(readings@),
    ensures
        r.1 == spec_score_duration(segment.duration_secs as int),
        r.2 == spec_score_stability(segment.bundle_id@, readings@),
        r.3 == spec_score_visual(
            match segment.unique_phash_count {
                Some(u) => u as nat,
                None => 0,
            },
            segment.reading_count as nat,
        ),
        r.4 == spec_score_ocr(readings@),
        r.0 == spec_confidence(*config, r.1 as int, r.2 as int, r.3 as int, r.4 as int),
        r.0 <= 1000 && r.1 <= 1000 && r.2 <= 1000 && r.3 <= 1000 && r.4 <= 1000,
{
    let duration_score = score_duration(segment.duration_secs);
    let stability_score = score_stability(segment.bundle_id.as_str(), readings);
    let unique = match segment.unique_phash_count {
        Some(u) => u,
        None => 0,
    };
    let visual_score = score_visual_clarity(unique, segment.reading_count);
    let ocr_score = score_ocr_quality(readings);
    proof {
        lemma_confidence_bounds(
            *config,
            duration_score as int,
            stability_score as int,
            visual_score as int,
            ocr_score as int,
        );
    }
    let weighted: u64 = (config.weight_duration as u64) * (duration_score as u64)
        + (config.weight_stability as u64) * (stability_score as u64) + (config.weight_visual
        as u64) * (visual_score as u64) + (config.weight_ocr as u64) * (ocr_score as u64);
    proof {
        assert((config.weight_duration as u64) * (duration_score as u64)
            == config.weight_duration * duration_score) by (nonlinear_arith);
        assert((config.weight_stability as u64) * (stability_score as u64)
            == config.weight_stability * stability_score) by (nonlinear_arith);
        assert((config.weight_visual as u64) * (visual_score as u64) == config.weight_visual
            * visual_score) by (nonlinear_arith);
        assert((config.weight_ocr as u64) * (ocr_score as u64) == config.weight_ocr * ocr_score)
            by (nonlinear_arith);
    }
    let confidence = (weighted / 1000) as u32;
    (confidence, duration_score, stability_score, visual_score, ocr_score)
}

} // verus!
