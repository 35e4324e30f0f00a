use lefocus::algorithm::{most_common_window_title, segment_session};
use lefocus::config::SegmentationConfig;
use lefocus::grouping::group_readings;
use lefocus::merge::sandwich_merge;
use lefocus::models::{ContextReading, Segment, WindowBounds, WindowMetadata};
use lefocus::scoring::{compute_confidence, compute_unique_phash_count, score_duration};

fn meta(bundle: &str, title: &str) -> WindowMetadata {
    WindowMetadata {
        window_id: 1,
        bundle_id: bundle.to_string(),
        title: title.to_string(),
        owner_name: format!("{} owner", bundle),
        bounds: WindowBounds { x: 0, y: 0, width: 800, height: 600 },
    }
}

fn reading(ts: i64, bundle: &str, title: &str) -> ContextReading {
    ContextReading {
        id: None,
        session_id: "session-1".to_string(),
        timestamp: ts,
        window_metadata: meta(bundle, title),
        phash: None,
        ocr_text: None,
        ocr_confidence: None,
        ocr_word_count: None,
        segment_id: None,
    }
}

fn reading_with_phash(ts: i64, bundle: &str, phash: &str) -> ContextReading {
    let mut r = reading(ts, bundle, "win");
    r.phash = Some(phash.to_string());
    r
}

fn sandwich_scenario() -> Vec<ContextReading> {
    let mut rs = Vec::new();
    for k in 0..6 {
        rs.push(reading(k * 5, "com.app.a", "editor"));
    }
    rs.push(reading(30, "com.app.b", "chat"));
    for k in 7..14 {
        rs.push(reading(k * 5, "com.app.a", "editor"));
    }
    rs
}

#[test]
fn sandwich_scenario_gives_one_segment_and_one_interruption() {
    let config = SegmentationConfig::default();
    let (segments, interruptions) = segment_session(sandwich_scenario(), &config);
    assert_eq!(segments.len(), 1);
    assert_eq!(interruptions.len(), 1);
    let seg = &segments[0];
    assert_eq!(seg.start_time, 0);
    assert_eq!(seg.end_time, 65);
    assert_eq!(seg.duration_secs, 70);
    assert_eq!(seg.bundle_id, "com.app.a");
    assert_eq!(seg.reading_count, 14);
    let cut = &interruptions[0];
    assert_eq!(cut.bundle_id, "com.app.b");
    assert_eq!(cut.timestamp, 30);
    assert_eq!(cut.duration_secs, 5);
    assert_eq!(cut.segment_id, seg.id);
}

#[test]
fn ten_readings_one_app_give_one_confident_segment() {
    let config = SegmentationConfig::default();
    let mut rs = Vec::new();
    for k in 0..10 {
        rs.push(reading(k * 5, "com.app.a", "editor"));
    }
    let (segments, interruptions) = segment_session(rs, &config);
    assert_eq!(segments.len(), 1);
    assert!(interruptions.is_empty());
    assert!(segments[0].confidence >= 900);
    assert_eq!(segments[0].start_time, 0);
    assert_eq!(segments[0].end_time, 45);
    assert_eq!(segments[0].reading_count, 10);
}

#[test]
fn empty_readings_give_empty_output() {
    let config = SegmentationConfig::default();
    let (segments, interruptions) = segment_session(Vec::new(), &config);
    assert!(segments.is_empty());
    assert!(interruptions.is_empty());
}

#[test]
fn short_session_collapses_to_single_segment() {
    let config = SegmentationConfig::default();
    let rs = vec![
        reading(0, "com.app.a", "editor"),
        reading(5, "com.app.b", "chat"),
        reading(10, "com.app.a", "editor"),
    ];
    let (segments, interruptions) = segment_session(rs, &config);
    assert_eq!(segments.len(), 1);
    assert!(interruptions.is_empty());
    assert_eq!(segments[0].start_time, 0);
    assert_eq!(segments[0].end_time, 10);
    assert_eq!(segments[0].confidence, 950);
}

#[test]
fn segmentation_is_deterministic() {
    let config = SegmentationConfig::default();
    let first = segment_session(sandwich_scenario(), &config);
    let second = segment_session(sandwich_scenario(), &config);
    assert_eq!(first.0, second.0);
    assert_eq!(first.1, second.1);
}

#[test]
fn segments_union_is_exactly_the_session_span() {
    let config = SegmentationConfig::default();
    let mut rs = Vec::new();
    // long alternating blocks that survive the merge threshold
    for k in 0..8 {
        rs.push(reading(k * 5, "com.app.a", "editor"));
    }
    for k in 8..16 {
        rs.push(reading(k * 5, "com.app.b", "chat"));
    }
    for k in 16..24 {
        rs.push(reading(k * 5, "com.app.c", "mail"));
    }
    let (segments, _) = segment_session(rs.clone(), &config);
    assert!(segments.len() > 1);
    assert_eq!(segments[0].start_time, rs[0].timestamp);
    assert_eq!(segments[segments.len() - 1].end_time, rs[rs.len() - 1].timestamp);
    // consecutive segments abut: no gaps and no overlaps
    for w in segments.windows(2) {
        assert_eq!(w[0].end_time + 1, w[1].start_time);
    }
    // the interval union reconstructs [first, last] exactly
    let first = rs[0].timestamp;
    let last = rs[rs.len() - 1].timestamp;
    for t in first..=last {
        assert_eq!(
            segments
                .iter()
                .filter(|s| s.start_time <= t && t <= s.end_time)
                .count(),
            1
        );
    }
    // a run's interval extends to just before the next run: the first
    // block's readings end at 35, the next block starts at 40
    assert_eq!(segments[0].end_time, 39);
    for s in &segments {
        assert_eq!(s.duration_secs, s.end_time - s.start_time + 5);
    }
    for r in &rs {
        assert!(
            segments
                .iter()
                .any(|s| s.start_time <= r.timestamp && r.timestamp <= s.end_time)
        );
    }
}

fn plain_segment(id: u64, start: i64, end: i64, bundle: &str, count: usize) -> Segment {
    Segment {
        id,
        session_id: "session-1".to_string(),
        start_time: start,
        end_time: end,
        duration_secs: end - start + 5,
        bundle_id: bundle.to_string(),
        app_name: None,
        window_title: None,
        confidence: 0,
        duration_score: None,
        stability_score: None,
        visual_clarity_score: None,
        ocr_quality_score: None,
        reading_count: count,
        unique_phash_count: None,
    }
}

#[test]
fn sandwich_merge_folds_a_b_a() {
    let config = SegmentationConfig::default();
    let segs = vec![
        plain_segment(0, 0, 25, "com.app.a", 6),
        plain_segment(1, 30, 30, "com.app.b", 1),
        plain_segment(2, 35, 65, "com.app.a", 7),
    ];
    let result = sandwich_merge(segs, &config);
    assert_eq!(result.segments.len(), 1);
    assert_eq!(result.segments[0].id, 0);
    assert_eq!(result.segments[0].start_time, 0);
    assert_eq!(result.segments[0].end_time, 65);
    assert_eq!(result.segments[0].duration_secs, 70);
    assert_eq!(result.segments[0].reading_count, 13);
    assert_eq!(result.interruptions.len(), 1);
    assert_eq!(result.interruptions[0].id, 0);
    assert_eq!(result.interruptions[0].segment_id, 0);
    assert_eq!(result.interruptions[0].bundle_id, "com.app.b");
}

#[test]
fn sandwich_merge_folds_rapid_switching_chain() {
    // A b A b A collapses into one host with two interruptions
    let config = SegmentationConfig::default();
    let segs = vec![
        plain_segment(0, 0, 20, "com.app.a", 5),
        plain_segment(1, 25, 25, "com.app.b", 1),
        plain_segment(2, 30, 50, "com.app.a", 5),
        plain_segment(3, 55, 55, "com.app.b", 1),
        plain_segment(4, 60, 80, "com.app.a", 5),
    ];
    let result = sandwich_merge(segs, &config);
    assert_eq!(result.segments.len(), 1);
    assert_eq!(result.segments[0].start_time, 0);
    assert_eq!(result.segments[0].end_time, 80);
    assert_eq!(result.interruptions.len(), 2);
    assert_eq!(result.interruptions[0].id, 0);
    assert_eq!(result.interruptions[1].id, 1);
}

#[test]
fn sandwich_merge_is_idempotent_on_its_output() {
    let config = SegmentationConfig::default();
    let segs = vec![
        plain_segment(0, 0, 25, "com.app.a", 6),
        plain_segment(1, 30, 30, "com.app.b", 1),
        plain_segment(2, 35, 65, "com.app.a", 7),
        plain_segment(3, 100, 200, "com.app.c", 21),
    ];
    let once = sandwich_merge(segs, &config);
    let again = sandwich_merge(once.segments.clone(), &config);
    assert_eq!(once.segments, again.segments);
    assert!(again.interruptions.is_empty());
}

#[test]
fn interruptions_follow_their_host_through_later_folds() {
    // two hosts fold in the first pass, then merge with each other in the
    // second; the interruption recorded against the absorbed host must be
    // re-pointed to the survivor
    let config = SegmentationConfig::default();
    let segs = vec![
        plain_segment(0, 0, 20, "com.app.a", 5),
        plain_segment(1, 25, 25, "com.app.b", 1),
        plain_segment(2, 30, 50, "com.app.a", 5),
        plain_segment(3, 55, 55, "com.app.b", 1),
        plain_segment(4, 60, 80, "com.app.a", 5),
        plain_segment(5, 85, 85, "com.app.b", 1),
        plain_segment(6, 90, 110, "com.app.a", 5),
    ];
    let result = sandwich_merge(segs, &config);
    assert_eq!(result.segments.len(), 1);
    let host = &result.segments[0];
    assert_eq!(host.id, 0);
    assert_eq!(host.start_time, 0);
    assert_eq!(host.end_time, 110);
    assert_eq!(result.interruptions.len(), 3);
    for cut in &result.interruptions {
        assert_eq!(cut.segment_id, host.id);
        assert!(host.start_time <= cut.timestamp && cut.timestamp <= host.end_time);
    }
}

#[test]
fn segment_session_interruptions_reference_returned_segments() {
    // readings for the same two-host chain: A runs with brief b excursions
    let config = SegmentationConfig::default();
    let mut rs = Vec::new();
    for k in 0..5 {
        rs.push(reading(k * 5, "com.app.a", "editor"));
    }
    rs.push(reading(25, "com.app.b", "chat"));
    for k in 6..11 {
        rs.push(reading(k * 5, "com.app.a", "editor"));
    }
    rs.push(reading(55, "com.app.b", "chat"));
    for k in 12..17 {
        rs.push(reading(k * 5, "com.app.a", "editor"));
    }
    let (segments, interruptions) = segment_session(rs, &config);
    assert!(!interruptions.is_empty());
    for cut in &interruptions {
        let owners: Vec<&Segment> =
            segments.iter().filter(|s| s.id == cut.segment_id).collect();
        assert_eq!(owners.len(), 1);
        let owner = owners[0];
        assert!(owner.start_time <= cut.timestamp && cut.timestamp <= owner.end_time);
    }
}

#[test]
fn duration_score_is_non_decreasing() {
    let mut previous = 0;
    for d in [0i64, 1, 29, 30, 59, 60, 119, 120, 299, 300, 301, 3000, 30_000] {
        let score = score_duration(d);
        assert!(score >= previous);
        previous = score;
    }
}

#[test]
fn long_excursion_is_not_folded() {
    let config = SegmentationConfig::default();
    let segs = vec![
        plain_segment(0, 0, 25, "com.app.a", 6),
        plain_segment(1, 30, 45, "com.app.b", 4),
        plain_segment(2, 50, 80, "com.app.a", 7),
    ];
    let result = sandwich_merge(segs, &config);
    assert_eq!(result.segments.len(), 3);
    assert!(result.interruptions.is_empty());
}

#[test]
fn duration_score_hits_the_curve_anchors() {
    assert_eq!(score_duration(30), 300);
    assert_eq!(score_duration(60), 500);
    assert_eq!(score_duration(120), 700);
    assert_eq!(score_duration(300), 900);
}

#[test]
fn confidence_is_the_weighted_sum() {
    let config = SegmentationConfig::default();
    let mut seg = plain_segment(0, 0, 115, "com.app.a", 2);
    assert_eq!(seg.duration_secs, 120);
    seg.unique_phash_count = Some(0);
    let rs = vec![reading(0, "com.app.a", "editor"), reading(115, "com.app.a", "editor")];
    let (confidence, d, s, v, o) = compute_confidence(&seg, &rs, &config);
    assert_eq!(d, 700);
    assert_eq!(s, 1000);
    assert_eq!(v, 1000);
    assert_eq!(o, 500);
    // 0.30 * 700 + 0.40 * 1000 + 0.15 * 1000 + 0.15 * 500, in thousandths
    assert_eq!(confidence, 835);
}

#[test]
fn all_scores_stay_within_bounds() {
    let config = SegmentationConfig::default();
    let mut rs = sandwich_scenario();
    rs[2].ocr_confidence = Some(730);
    rs[3].phash = Some("QUJD".to_string());
    let (segments, _) = segment_session(rs, &config);
    for seg in &segments {
        assert!(seg.confidence <= 1000);
        assert!(seg.duration_score.unwrap() <= 1000);
        assert!(seg.stability_score.unwrap() <= 1000);
        assert!(seg.visual_clarity_score.unwrap() <= 1000);
        assert!(seg.ocr_quality_score.unwrap() <= 1000);
    }
}

#[test]
fn grouping_splits_on_identity_change() {
    let rs = vec![
        reading(0, "com.app.a", "editor"),
        reading(5, "com.app.a", "editor"),
        reading(10, "com.app.b", "chat"),
        reading(15, "com.app.a", "editor"),
    ];
    let groups = group_readings(rs);
    assert_eq!(groups.len(), 3);
    assert_eq!(groups[0].bundle_id, "com.app.a");
    assert_eq!(groups[0].readings.len(), 2);
    assert_eq!(groups[0].start_time, 0);
    assert_eq!(groups[0].end_time, 5);
    assert_eq!(groups[1].bundle_id, "com.app.b");
    assert_eq!(groups[2].start_time, 15);
}

#[test]
fn most_common_title_prefers_majority_then_earliest() {
    let rs = vec![
        reading(0, "com.app.a", "one"),
        reading(5, "com.app.a", "two"),
        reading(10, "com.app.a", "two"),
    ];
    assert_eq!(most_common_window_title(&rs), Some("two".to_string()));
    let tie = vec![
        reading(0, "com.app.a", "first"),
        reading(5, "com.app.a", "second"),
    ];
    assert_eq!(most_common_window_title(&tie), Some("first".to_string()));
    assert_eq!(most_common_window_title(&Vec::new()), None);
}

#[test]
fn unique_phash_count_ignores_duplicates_and_absent() {
    let rs = vec![
        reading_with_phash(0, "com.app.a", "AAAA"),
        reading_with_phash(5, "com.app.a", "BBBB"),
        reading_with_phash(10, "com.app.a", "AAAA"),
        reading(15, "com.app.a", "editor"),
    ];
    assert_eq!(compute_unique_phash_count(&rs), 2);
    assert_eq!(compute_unique_phash_count(&Vec::new()), 0);
}

#[test]
fn reading_group_reports_span_plus_interval() {
    let rs = vec![
        reading(100, "com.app.a", "editor"),
        reading(105, "com.app.a", "editor"),
        reading(110, "com.app.a", "editor"),
    ];
    let groups = group_readings(rs);
    assert_eq!(groups.len(), 1);
    assert_eq!(groups[0].duration_secs(), 15);
    assert_eq!(groups[0].reading_count(), 3);
}

#[test]
fn session_at_exactly_the_minimum_span_is_not_short() {
    // span exactly 30 s with two apps: the general pipeline runs and the
    // 5 s excursion is folded
    let config = SegmentationConfig::default();
    let rs = vec![
        reading(0, "com.app.a", "editor"),
        reading(5, "com.app.a", "editor"),
        reading(10, "com.app.b", "chat"),
        reading(15, "com.app.a", "editor"),
        reading(20, "com.app.a", "editor"),
        reading(25, "com.app.a", "editor"),
        reading(30, "com.app.a", "editor"),
    ];
    let (segments, interruptions) = segment_session(rs, &config);
    assert_eq!(segments.len(), 1);
    assert_eq!(interruptions.len(), 1);
    // the general path computes the weighted confidence, not the prior
    assert_ne!(segments[0].confidence, 950);
}

#[test]
fn ocr_quality_averages_present_confidences() {
    let config = SegmentationConfig::default();
    let mut rs = vec![reading(0, "com.app.a", "editor"), reading(115, "com.app.a", "editor")];
    rs[0].ocr_confidence = Some(600);
    rs[1].ocr_confidence = Some(800);
    let mut seg = plain_segment(0, 0, 115, "com.app.a", 2);
    seg.unique_phash_count = Some(0);
    let (_, _, _, _, o) = compute_confidence(&seg, &rs, &config);
    assert_eq!(o, 700);
}

#[test]
fn visual_clarity_degrades_with_distinct_fingerprints() {
    let config = SegmentationConfig::default();
    let rs = vec![
        reading_with_phash(0, "com.app.a", "AAAA"),
        reading_with_phash(5, "com.app.a", "BBBB"),
        reading_with_phash(10, "com.app.a", "CCCC"),
        reading_with_phash(15, "com.app.a", "CCCC"),
    ];
    let mut seg = plain_segment(0, 0, 15, "com.app.a", 4);
    seg.unique_phash_count = Some(3);
    let (_, _, _, v, _) = compute_confidence(&seg, &rs, &config);
    // 1 - 3/4, in thousandths
    assert_eq!(v, 250);
}
