//! Tunable thresholds and weights of the segmentation engine.

use vstd::prelude::*;

verus! {

/// Upper bound accepted for the two duration thresholds; keeps every
/// comparison against an `i64` duration overflow-free.
pub const MAX_THRESHOLD_SECS: u64 = 1_000_000_000;

/// Configuration of the segmentation engine.  Weights hold thousandths and
/// sum to exactly 1000.
#[derive(Debug, Clone, PartialEq, Eq, Structural)]
pub struct SegmentationConfig {
    /// Sessions shorter than this collapse to a single segment.
    pub min_segment_duration_secs: u64,
    /// A foreign-app excursion at most this long, sandwiched between two
    /// runs of one app, is folded into the host segment.
    pub sandwich_max_duration_secs: u64,
    /// Weight of the duration sub-score, thousandths.
    pub weight_duration: u32,
    /// Weight of the stability sub-score, thousandths.
    pub weight_stability: u32,
    /// Weight of the visual-clarity sub-score, thousandths.
    pub weight_visual: u32,
    /// Weight of the recognition-quality sub-score, thousandths.
    pub weight_ocr: u32,
}

impl SegmentationConfig {
    /// Weights form a convex combination and thresholds stay within the
    /// range the duration arithmetic supports.
    pub open spec fn wf(self) -> bool {
        &&& self.weight_duration + self.weight_stability + self.weight_visual + self.weight_ocr
            == 1000
        &&& self.min_segment_duration_secs <= MAX_THRESHOLD_SECS
        &&& self.sandwich_max_duration_secs <= MAX_THRESHOLD_SECS
    }
}

impl Default for SegmentationConfig {
    /// The stock configuration: 30 s minimum session span, 12 s sandwich
    /// threshold, weights 0.30 / 0.40 / 0.15 / 0.15.
    fn default() -> (r: SegmentationConfig)
        ensures
            r.min_segment_duration_secs == 30,
            r.sandwich_max_duration_secs == 12,
            r.weight_duration == 300,
            r.weight_stability == 400,
            r.weight_visual == 150,
            r.weight_ocr == 150,
            r.wf(),
    {
        SegmentationConfig {
            min_segment_duration_secs: 30,
            sandwich_max_duration_secs: 12,
            weight_duration: 300,
            weight_stability: 400,
            weight_visual: 150,
            weight_ocr: 150,
        }
    }
}

} // verus!
