//! Per-tick decisions of the capture loop.
//!
//! The loop itself — scheduling, the native window/screenshot/recognition
//! calls and persistence — lives outside the library; each tick hands the
//! sampled values in and these functions decide what the tick records and
//! whether the expensive recognition step runs.

use crate::models::{ContextReading, WindowMetadata};
use crate::phash::{compute_hamming_distance, spec_phash_dist, spec_phash_enc};
use vstd::prelude::*;

verus! {

/// Seconds allowed for one whole tick; an exceeded timeout abandons the tick.
pub const CAPTURE_TIMEOUT_SECS: u64 = 10;

/// Minimum milliseconds between two recognition runs.
pub const OCR_COOLDOWN_MS: u64 = 20_000;

/// Fingerprint distance from the last-recognized screenshot at or above
/// which the view counts as visually distinct.
pub const PHASH_CHANGE_THRESHOLD: u32 = 8;

/// A screenshot smaller than this is evidence of a hidden or minimized
/// window; the tick is skipped.
pub const MIN_SCREENSHOT_BYTES: usize = 1000;

/// Why a tick skipped the recognition step.
#[derive(Debug, Clone, Copy, PartialEq, Eq, Structural)]
pub enum OcrSkipReason {
    /// Too soon after the last recognition run.
    Cooldown,
    /// The view has not changed enough since the last recognition run.
    NoChange,
}

/// Result of one recognition run; `confidence` holds thousandths (0..=1000).
#[derive(Debug, Clone, PartialEq)]
pub struct OCRResult {
    pub text: String,
    pub confidence: u32,
    pub word_count: u64,
}

/// Adaptive-throttling state carried between ticks.  The instant is
/// monotonic milliseconds.
#[derive(Debug, Clone, PartialEq)]
pub struct CaptureState {
    pub last_sampled_phash: Option<String>,
    pub last_ocr_phash: Option<String>,
    pub last_ocr_mono_ms: Option<u64>,
}

impl CaptureState {
    /// The recorded recognition instant does not lie in the future of `now`.
    pub open spec fn wf_at(self, now_mono_ms: u64) -> bool {
        self.last_ocr_mono_ms matches Some(t) ==> t <= now_mono_ms
    }

    /// State before the first tick: nothing sampled, nothing recognized.
    pub fn new() -> (r: CaptureState)
        ensures
            r.last_sampled_phash is None,
            r.last_ocr_phash is None,
            r.last_ocr_mono_ms is None,
    {
        CaptureState { last_sampled_phash: None, last_ocr_phash: None, last_ocr_mono_ms: None }
    }

    /// Records that recognition ran on `phash` at `now_mono_ms`.
    pub fn record_ocr_run(&mut self, phash: &str, now_mono_ms: u64)
        ensures
            final (self).last_ocr_phash matches Some(p) && p@ == phash@,
            final (self).last_ocr_mono_ms == Some(now_mono_ms),
            final (self).last_sampled_phash == old(self).last_sampled_phash,
    {
        self.last_ocr_phash = Some(phash.to_owned());
        self.last_ocr_mono_ms = Some(now_mono_ms);
    }

    /// Records the fingerprint sampled by the current tick.
    pub fn record_sample(&mut self, phash: &str)
        ensures
            final (self).last_sampled_phash matches Some(p) && p@ == phash@,
            final (self).last_ocr_phash == old(self).last_ocr_phash,
            final (self).last_ocr_mono_ms == old(self).last_ocr_mono_ms,
    {
        self.last_sampled_phash = Some(phash.to_owned());
    }
}

/// The minimum cooldown has elapsed since the last recognition run (always
/// true before the first run).
pub open spec fn spec_cooldown_elapsed(state: CaptureState, now_mono_ms: u64) -> bool {
    match state.last_ocr_mono_ms {
        None => true,
        Some(t) => t + OCR_COOLDOWN_MS <= now_mono_ms,
    }
}

/// Whether the current tick runs recognition: always on the very first
/// fingerprint; afterwards only when the cooldown has elapsed and the view
/// is visually distinct from the last-recognized one.
pub open spec fn spec_should_ocr(
    state: CaptureState,
    current_phash: Seq<char>,
    now_mono_ms: u64,
) -> bool {
    match state.last_ocr_phash {
        None => true,
        Some(prev) => spec_cooldown_elapsed(state, now_mono_ms) && spec_phash_dist(
            current_phash,
            prev@,
        ) >= PHASH_CHANGE_THRESHOLD,
    }
}

/// Decides `spec_cooldown_elapsed` on concrete values.
pub fn cooldown_elapsed(state: &CaptureState, now_mono_ms: u64) -> (r: bool)
    requires
        state.wf_at(now_mono_ms),
    ensures
        r == spec_cooldown_elapsed(*state, now_mono_ms),
{
    match state.last_ocr_mono_ms {
        None => true,
        Some(t) => now_mono_ms - t >= OCR_COOLDOWN_MS,
    }
}

/// The recognition gate of one tick, with the reason when it skips.
///
/// A tick whose fingerprint equals the last-recognized one never runs
/// recognition: either the cooldown has not elapsed, or the distance between
/// equal fingerprints is zero, under the change threshold.
pub fn should_perform_ocr_with_reason(
    current_phash: &str,
    state: &CaptureState,
    now_mono_ms: u64,
) -> (r: (bool, Option<OcrSkipReason>))
    requires
        state.wf_at(now_mono_ms),
    ensures
        r.0 == spec_should_ocr(*state, current_phash@, now_mono_ms),
        state.last_ocr_phash is None ==> r.1 is None,
        state.last_ocr_phash is Some && !spec_cooldown_elapsed(*state, now_mono_ms) ==> r.1
            == Some(OcrSkipReason::Cooldown),
        state.last_ocr_phash is Some && spec_cooldown_elapsed(*state, now_mono_ms) ==> r.1 == (
        if r.0 {
            None::<OcrSkipReason>
        } else {
            Some(OcrSkipReason::NoChange)
        }),
        (state.last_ocr_phash matches Some(prev) && prev@ == current_phash@ && spec_phash_enc(
            current_phash@,
        )) ==> r.0 == false,
{
    let prev = match &state.last_ocr_phash {
        None => {
            return (true, None);
        },
        Some(prev) => prev,
    };
    if !cooldown_elapsed(state, now_mono_ms) {
        return (false, Some(OcrSkipReason::Cooldown));
    }
    let distance = compute_hamming_distance(current_phash, prev.as_str());
    if distance >= PHASH_CHANGE_THRESHOLD {
        (true, None)
    } else {
        (false, Some(OcrSkipReason::NoChange))
    }
}

/// True for a foreground surface with no application identity (menu bar,
/// dock and other system-level surfaces).
pub fn is_system_window(meta: &WindowMetadata) -> (r: bool)
    ensures
        r == (meta.bundle_id@ == Seq::<char>::empty()),
{
    let len = meta.bundle_id.as_str().unicode_len();
    if len == 0 {
        assert(meta.bundle_id@ =~= Seq::<char>::empty());
        true
    } else {
        false
    }
}

/// The metadata-only reading recorded for a system-level surface, under a
/// sentinel identity; this keeps the timeline continuous instead of leaving
/// a gap.
pub fn system_window_reading(session_id: &str, timestamp: i64, meta: &WindowMetadata) -> (r:
    ContextReading)
    ensures
        r.session_id@ == session_id@,
        r.timestamp == timestamp,
        r.window_metadata.window_id == meta.window_id,
        r.window_metadata.bundle_id@ == "com.apple.system"@,
        r.window_metadata.owner_name@ == "System UI"@,
        r.window_metadata.title == meta.title,
        r.window_metadata.bounds == meta.bounds,
        r.phash is None,
        r.ocr_text is None,
        r.ocr_confidence is None,
        r.ocr_word_count is None,
        r.id is None,
        r.segment_id is None,
{
    ContextReading {
        id: None,
        session_id: session_id.to_owned(),
        timestamp,
        window_metadata: WindowMetadata {
            window_id: meta.window_id,
            bundle_id: "com.apple.system".to_owned(),
            title: meta.title.clone(),
            owner_name: "System UI".to_owned(),
            bounds: meta.bounds,
        },
        phash: None,
        ocr_text: None,
        ocr_confidence: None,
        ocr_word_count: None,
        segment_id: None,
    }
}

/// A screenshot below the size floor means the window is hidden or
/// minimized; the tick is skipped.
pub fn screenshot_usable(byte_len: usize) -> (r: bool)
    ensures
        r == (byte_len >= MIN_SCREENSHOT_BYTES),
{
    byte_len >= MIN_SCREENSHOT_BYTES
}

/// The reading recorded for an ordinary application window, carrying
/// whichever of fingerprint and recognition output the tick computed.
pub fn application_reading(
    session_id: &str,
    timestamp: i64,
    meta: &WindowMetadata,
    phash: &str,
    ocr: Option<OCRResult>,
) -> (r: ContextReading)
    requires
        ocr matches Some(o) ==> o.confidence <= 1000,
    ensures
        r.session_id@ == session_id@,
        r.timestamp == timestamp,
        r.window_metadata == *meta,
        r.phash matches Some(p) && p@ == phash@,
        ocr is None ==> r.ocr_text is None && r.ocr_confidence is None && r.ocr_word_count is None,
        ocr matches Some(o) ==> r.ocr_text == Some(o.text) && r.ocr_confidence == Some(o.confidence)
            && r.ocr_word_count == Some(o.word_count),
        r.ocr_confidence matches Some(c) ==> c <= 1000,
        r.id is None,
        r.segment_id is None,
{
    let (ocr_text, ocr_confidence, ocr_word_count) = match ocr {
        Some(o) => (Some(o.text), Some(o.confidence), Some(o.word_count)),
        None => (None, None, None),
    };
    ContextReading {
        id: None,
        session_id: session_id.to_owned(),
        timestamp,
        window_metadata: meta.duplicate(),
        phash: Some(phash.to_owned()),
        ocr_text,
        ocr_confidence,
        ocr_word_count,
        segment_id: None,
    }
}

} // verus!
