//! Data carried through the capture → reading → segment pipeline.
//!
//! Wall-clock instants on readings and segments are Unix seconds; a reading
//! covers the capture interval that follows it.  Output segments follow one
//! end-time convention: each extends to just before the next segment's
//! start (the last ends at the last reading), so their union is exactly the
//! session span, and a segment's duration is its interval plus one capture
//! interval.

use vstd::prelude::*;

verus! {

/// Seconds between two capture ticks.
pub const CAPTURE_INTERVAL_SECS: i64 = 5;

/// Latest reading timestamp the pipeline accepts (Unix seconds); keeps all
/// duration arithmetic inside `i64`.
pub const MAX_TIMESTAMP_SECS: i64 = 100_000_000_000;

/// Screen position of the sampled window, in whole pixels.
#[derive(Debug, Clone, Copy, PartialEq, Eq, Structural)]
pub struct WindowBounds {
    pub x: i64,
    pub y: i64,
    pub width: i64,
    pub height: i64,
}

/// Identity of the foreground window at one capture tick.
#[derive(Debug, Clone, PartialEq)]
pub struct WindowMetadata {
    pub window_id: u32,
    pub bundle_id: String,
    pub title: String,
    pub owner_name: String,
    pub bounds: WindowBounds,
}

impl WindowMetadata {
    /// A field-wise copy, visible to the verifier.
    pub fn duplicate(&self) -> (r: WindowMetadata)
        ensures
            r == *self,
    {
        WindowMetadata {
            window_id: self.window_id,
            bundle_id: self.bundle_id.clone(),
            title: self.title.clone(),
            owner_name: self.owner_name.clone(),
            bounds: self.bounds,
        }
    }
}

/// One point-in-time observation of the foreground window and its derived
/// signals.  `ocr_confidence` holds thousandths (0..=1000).
#[derive(Debug, Clone, PartialEq)]
pub struct ContextReading {
    pub id: Option<i64>,
    pub session_id: String,
    pub timestamp: i64,
    pub window_metadata: WindowMetadata,
    pub phash: Option<String>,
    pub ocr_text: Option<String>,
    pub ocr_confidence: Option<u32>,
    pub ocr_word_count: Option<u64>,
    pub segment_id: Option<u64>,
}

impl ContextReading {
    /// A field-wise copy, visible to the verifier.
    pub fn duplicate(&self) -> (r: ContextReading)
        ensures
            r == *self,
    {
        ContextReading {
            id: self.id,
            session_id: self.session_id.clone(),
            timestamp: self.timestamp,
            window_metadata: self.window_metadata.duplicate(),
            phash: match &self.phash {
                Some(p) => Some(p.clone()),
                None => None,
            },
            ocr_text: match &self.ocr_text {
                Some(t) => Some(t.clone()),
                None => None,
            },
            ocr_confidence: self.ocr_confidence,
            ocr_word_count: self.ocr_word_count,
            segment_id: self.segment_id,
        }
    }
}

/// A maximal time range classified as one continuous focus target.  Score
/// fields hold thousandths (0..=1000).
#[derive(Debug, Clone, PartialEq)]
pub struct Segment {
    pub id: u64,
    pub session_id: String,
    pub start_time: i64,
    pub end_time: i64,
    pub duration_secs: i64,
    pub bundle_id: String,
    pub app_name: Option<String>,
    pub window_title: Option<String>,
    pub confidence: u32,
    pub duration_score: Option<u32>,
    pub stability_score: Option<u32>,
    pub visual_clarity_score: Option<u32>,
    pub ocr_quality_score: Option<u32>,
    pub reading_count: usize,
    pub unique_phash_count: Option<usize>,
}

impl Segment {
    /// A field-wise copy, visible to the verifier.
    pub fn duplicate(&self) -> (r: Segment)
        ensures
            r == *self,
    {
        Segment {
            id: self.id,
            session_id: self.session_id.clone(),
            start_time: self.start_time,
            end_time: self.end_time,
            duration_secs: self.duration_secs,
            bundle_id: self.bundle_id.clone(),
            app_name: match &self.app_name {
                Some(a) => Some(a.clone()),
                None => None,
            },
            window_title: match &self.window_title {
                Some(t) => Some(t.clone()),
                None => None,
            },
            confidence: self.confidence,
            duration_score: self.duration_score,
            stability_score: self.stability_score,
            visual_clarity_score: self.visual_clarity_score,
            ocr_quality_score: self.ocr_quality_score,
            reading_count: self.reading_count,
            unique_phash_count: self.unique_phash_count,
        }
    }
}

/// A brief foreign-app excursion folded into its hosting segment.
#[derive(Debug, Clone, PartialEq)]
pub struct Interruption {
    pub id: u64,
    pub segment_id: u64,
    pub bundle_id: String,
    pub app_name: Option<String>,
    pub timestamp: i64,
    pub duration_secs: i64,
}

/// Every recognition confidence a reading carries lies in 0..=1000.
pub open spec fn readings_scores_wf(s: Seq<ContextReading>) -> bool {
    forall|i: int|
        0 <= i < s.len() ==> (#[trigger] s[i].ocr_confidence matches Some(c) ==> c <= 1000)
}

/// Readings fed to segmentation: non-empty order is strict by timestamp,
/// every timestamp within range, and all rows owned by one session.
pub open spec fn readings_well_formed(s: Seq<ContextReading>) -> bool {
    &&& forall|i: int, j: int|
        0 <= i < j < s.len() ==> #[trigger] s[i].timestamp < #[trigger] s[j].timestamp
    &&& forall|i: int| 0 <= i < s.len() ==> 0 <= #[trigger] s[i].timestamp <= MAX_TIMESTAMP_SECS
    &&& forall|i: int| 0 <= i < s.len() ==> #[trigger] s[i].session_id == s[0].session_id
}

} // verus!
