use lefocus::capture::{
    application_reading, is_system_window, screenshot_usable, should_perform_ocr_with_reason,
    system_window_reading, CaptureState, OCRResult, OcrSkipReason,
};
use lefocus::models::{WindowBounds, WindowMetadata};
use lefocus::phash::compute_phash;
use lefocus::session::SessionStatus;
use lefocus::timer::{
    TickOutcome, TimerController, TimerError, TimerMode, TimerState, TimerStatus,
};
use std::io::Cursor;

fn window(bundle: &str) -> WindowMetadata {
    WindowMetadata {
        window_id: 7,
        bundle_id: bundle.to_string(),
        title: "a window".to_string(),
        owner_name: "An App".to_string(),
        bounds: WindowBounds { x: 10, y: 20, width: 640, height: 480 },
    }
}

#[test]
fn deadline_session_auto_completes_at_exact_target() {
    let mut controller = TimerController::new(10);
    let started = controller
        .start_timer(60_000, TimerMode::Countdown, 0, 1_700_000_000_000)
        .unwrap();
    assert!(started.start_capture);
    let session = started.session.unwrap();
    assert_eq!(session.status, SessionStatus::Running);
    assert_eq!(session.target_ms, 60_000);

    let mut completed = None;
    for second in 1..=60u64 {
        match controller.on_tick(second * 1000) {
            TickOutcome::Completed { session_id, active_ms } => {
                completed = Some((second, session_id, active_ms));
                break;
            }
            TickOutcome::Progress { active_ms, remaining_ms, .. } => {
                assert_eq!(active_ms, second * 1000);
                assert_eq!(remaining_ms, 60_000 - (second as i64) * 1000);
            }
            TickOutcome::NotRunning => panic!("timer stopped early"),
        }
    }
    let (when, session_id, active_ms) = completed.expect("timer never completed");
    assert_eq!(when, 60);
    assert_eq!(active_ms, 60_000);
    assert_eq!(session_id, Some(session.id));
    assert_eq!(controller.state.status, TimerStatus::Stopped);
    assert_eq!(controller.state.active_ms, 60_000);
}

#[test]
fn start_while_running_is_rejected_without_side_effects() {
    let mut controller = TimerController::new(10);
    controller
        .start_timer(60_000, TimerMode::Countdown, 0, 0)
        .unwrap();
    let before = controller.state.clone();
    let result = controller.start_timer(30_000, TimerMode::Countdown, 5_000, 5_000);
    assert_eq!(result, Err(TimerError::TimerAlreadyActive));
    assert_eq!(controller.state, before);
}

#[test]
fn zero_target_countdown_is_rejected() {
    let mut controller = TimerController::new(10);
    let result = controller.start_timer(0, TimerMode::Countdown, 0, 0);
    assert_eq!(result, Err(TimerError::ZeroTarget));
    assert_eq!(controller.state, TimerState::new());
}

#[test]
fn end_and_cancel_from_idle_are_rejected() {
    let mut controller = TimerController::new(10);
    assert_eq!(controller.end_timer(0, 0), Err(TimerError::NoActiveSession));
    assert_eq!(controller.cancel_timer(0), Err(TimerError::NoActiveSession));
}

#[test]
fn end_timer_clamps_and_completes_the_session() {
    let mut controller = TimerController::new(10);
    let started = controller.start_timer(10_000, TimerMode::Countdown, 0, 500).unwrap();
    let id = started.session.unwrap().id;
    // end after 4 simulated seconds
    let out = controller.end_timer(4_000, 4_500).unwrap();
    let session = out.session.unwrap();
    assert_eq!(session.id, id);
    assert_eq!(session.status, SessionStatus::Completed);
    assert_eq!(session.active_ms, 4_000);
    assert_eq!(session.stopped_at, Some(4_500));
    assert_eq!(controller.state.status, TimerStatus::Idle);

    // ending far past the target clamps to the target
    let started = controller.start_timer(10_000, TimerMode::Countdown, 10_000, 0).unwrap();
    assert!(started.session.is_some());
    let out = controller.end_timer(100_000, 0).unwrap();
    assert_eq!(out.session.unwrap().active_ms, 10_000);
}

#[test]
fn cancel_reports_elapsed_and_resets() {
    let mut controller = TimerController::new(10);
    let started = controller.start_timer(60_000, TimerMode::Countdown, 0, 0).unwrap();
    let id = started.session.unwrap().id;
    let out = controller.cancel_timer(7_000).unwrap();
    assert_eq!(out.session_id, Some(id));
    assert_eq!(out.active_ms, 7_000);
    assert_eq!(controller.state.status, TimerStatus::Idle);
}

#[test]
fn break_mode_persists_nothing_and_starts_no_capture() {
    let mut controller = TimerController::new(10);
    let started = controller.start_timer(5_000, TimerMode::Break, 0, 0).unwrap();
    assert!(started.session.is_none());
    assert!(!started.start_capture);
    assert_eq!(controller.state.status, TimerStatus::Running);
    // breaks still auto-complete
    match controller.on_tick(5_000) {
        TickOutcome::Completed { session_id, active_ms } => {
            assert_eq!(session_id, None);
            assert_eq!(active_ms, 5_000);
        }
        other => panic!("expected completion, got {:?}", other),
    }
}

#[test]
fn stopwatch_counts_up_and_never_auto_stops() {
    let mut controller = TimerController::new(10);
    controller.start_timer(0, TimerMode::Stopwatch, 0, 0).unwrap();
    match controller.on_tick(90_000) {
        TickOutcome::Progress { active_ms, remaining_ms, .. } => {
            assert_eq!(active_ms, 90_000);
            assert_eq!(remaining_ms, 90_000);
        }
        other => panic!("expected progress, got {:?}", other),
    }
}

#[test]
fn heartbeat_fires_every_nth_tick() {
    let mut controller = TimerController::new(3);
    controller.start_timer(0, TimerMode::Stopwatch, 0, 0).unwrap();
    let mut beats = Vec::new();
    for second in 1..=6u64 {
        match controller.on_tick(second * 1000) {
            TickOutcome::Progress { heartbeat, .. } => beats.push(heartbeat),
            other => panic!("expected progress, got {:?}", other),
        }
    }
    assert_eq!(beats, vec![false, false, true, false, false, true]);
}

#[test]
fn snapshot_rederives_active_time_from_the_anchor() {
    let mut controller = TimerController::new(10);
    controller.start_timer(60_000, TimerMode::Countdown, 1_000, 0).unwrap();
    let snap = controller.get_snapshot(13_000);
    assert_eq!(snap.state.active_ms, 12_000);
    assert_eq!(snap.remaining_ms, 48_000);
    // the stored state itself was not advanced by taking a snapshot
    assert_eq!(controller.state.active_ms, 0);
}

fn png_bytes(side: u32, stripe: u32) -> Vec<u8> {
    let img = image::RgbaImage::from_fn(side, side, |x, _| {
        if (x / stripe) % 2 == 0 {
            image::Rgba([255, 255, 255, 255])
        } else {
            image::Rgba([0, 0, 0, 255])
        }
    });
    let mut buf = Vec::new();
    image::DynamicImage::ImageRgba8(img)
        .write_to(&mut Cursor::new(&mut buf), image::ImageFormat::Png)
        .unwrap();
    buf
}

#[test]
fn phash_accepts_png_and_rejects_garbage() {
    let png = png_bytes(64, 8);
    let hash = compute_phash(&png).expect("valid png must hash");
    assert!(!hash.is_empty());
    // the fingerprint is a function of the bytes alone
    assert_eq!(compute_phash(&png), Some(hash.clone()));
    assert_eq!(compute_phash(&[0u8, 1, 2, 3]), None);
    // large images go through the downscale path
    let big = png_bytes(300, 50);
    assert!(compute_phash(&big).is_some());
}

#[test]
fn first_fingerprint_always_triggers_recognition() {
    let state = CaptureState::new();
    let (run, reason) = should_perform_ocr_with_reason("QUJD", &state, 0);
    assert!(run);
    assert_eq!(reason, None);
}

#[test]
fn tick_soon_after_recognition_is_gated_by_cooldown() {
    let png = png_bytes(64, 8);
    let hash = compute_phash(&png).unwrap();
    let mut state = CaptureState::new();
    state.record_ocr_run(&hash, 0);
    // one second later: cooldown not yet elapsed, recognition must not run
    let (run, reason) = should_perform_ocr_with_reason(&hash, &state, 1_000);
    assert!(!run);
    assert_eq!(reason, Some(OcrSkipReason::Cooldown));
}

#[test]
fn identical_fingerprint_after_cooldown_is_gated_as_unchanged() {
    let png = png_bytes(64, 8);
    let hash = compute_phash(&png).unwrap();
    let mut state = CaptureState::new();
    state.record_ocr_run(&hash, 0);
    let (run, reason) = should_perform_ocr_with_reason(&hash, &state, 25_000);
    assert!(!run);
    assert_eq!(reason, Some(OcrSkipReason::NoChange));
}

#[test]
fn system_surface_gets_a_sentinel_reading() {
    let meta = window("");
    assert!(is_system_window(&meta));
    assert!(!is_system_window(&window("com.app.a")));
    let r = system_window_reading("session-1", 42, &meta);
    assert_eq!(r.session_id, "session-1");
    assert_eq!(r.timestamp, 42);
    assert_eq!(r.window_metadata.bundle_id, "com.apple.system");
    assert_eq!(r.window_metadata.owner_name, "System UI");
    assert!(r.phash.is_none());
    assert!(r.ocr_text.is_none());
}

#[test]
fn tiny_screenshots_are_skipped() {
    assert!(!screenshot_usable(0));
    assert!(!screenshot_usable(999));
    assert!(screenshot_usable(1000));
}

#[test]
fn application_reading_carries_computed_signals() {
    let meta = window("com.app.a");
    let ocr = OCRResult { text: "hello".to_string(), confidence: 800, word_count: 1 };
    let r = application_reading("session-1", 50, &meta, "QUJD", Some(ocr));
    assert_eq!(r.window_metadata, meta);
    assert_eq!(r.phash.as_deref(), Some("QUJD"));
    assert_eq!(r.ocr_text.as_deref(), Some("hello"));
    assert_eq!(r.ocr_confidence, Some(800));
    assert_eq!(r.ocr_word_count, Some(1));
    let bare = application_reading("session-1", 55, &meta, "QUJD", None);
    assert!(bare.ocr_text.is_none());
    assert!(bare.ocr_confidence.is_none());
}

#[test]
fn timer_state_sync_and_stop_materialize_elapsed_time() {
    let mut state = TimerState::new();
    state.begin_session(Some("s-1".to_string()), 60_000, TimerMode::Countdown, 0, 2_000);
    assert_eq!(state.current_active_ms(9_000), 7_000);
    // the stored field lags until a sync; reads re-derive from the anchor
    assert_eq!(state.active_ms, 0);
    state.sync_active_from_anchor(9_000);
    assert_eq!(state.active_ms, 7_000);
    state.stop(12_000);
    assert_eq!(state.status, TimerStatus::Stopped);
    assert_eq!(state.active_ms, 10_000);
    assert_eq!(state.running_anchor, None);
    state.cancel();
    assert_eq!(state, TimerState::new());
}

#[test]
fn remaining_time_is_zero_when_not_running() {
    let state = TimerState::new();
    assert_eq!(state.remaining_ms(5_000), 0);
}
