use lefocus::app_config::{
    validate_color, validate_logo_data, validate_path_data, validate_stroke_width,
    validate_view_box, LogoData, SvgPath, ValidationError,
};
use lefocus::monitor::{classify_session_state, SessionState};
use lefocus::session::{
    parse_status, recover_interrupted, to_i64, to_u64, ConversionError, Session, SessionInfo,
    SessionStatus,
};
use lefocus::settings::IslandSoundSettings;
use lefocus::text::str_eq;

#[test]
fn colors_must_be_hex_with_hash() {
    assert!(validate_color("#AABBCC").is_ok());
    assert!(validate_color("#aabbcc00").is_ok());
    assert_eq!(validate_color("AABBCC"), Err(ValidationError::InvalidColor));
    assert_eq!(validate_color("#AABBC"), Err(ValidationError::InvalidColor));
    assert_eq!(validate_color("#GGBBCC"), Err(ValidationError::InvalidColor));
    assert_eq!(validate_color(""), Err(ValidationError::InvalidColor));
}

#[test]
fn stroke_width_is_bounded() {
    assert!(validate_stroke_width(1000).is_ok());
    assert!(validate_stroke_width(64_000).is_ok());
    assert_eq!(validate_stroke_width(999), Err(ValidationError::StrokeWidthOutOfRange));
    assert_eq!(validate_stroke_width(64_001), Err(ValidationError::StrokeWidthOutOfRange));
}

#[test]
fn path_data_needs_a_command_and_a_length_bound() {
    assert!(validate_path_data("M0 0 L10 10 Z").is_ok());
    assert_eq!(validate_path_data("0 0 10 10"), Err(ValidationError::InvalidPathData));
    let long = "M".repeat(10_001);
    assert_eq!(validate_path_data(&long), Err(ValidationError::InvalidPathData));
    let exactly = format!("M{}", "0".repeat(9_999));
    assert!(validate_path_data(&exactly).is_ok());
}

#[test]
fn view_box_needs_four_tokens_and_sane_dimensions() {
    assert!(validate_view_box("0 0 512 512").is_ok());
    assert!(validate_view_box("0 0 100.5 24").is_ok());
    assert!(validate_view_box("-10 -10 0.5 512.000").is_ok());
    assert_eq!(validate_view_box("0 0 512"), Err(ValidationError::InvalidViewBox));
    assert_eq!(validate_view_box("0 0 512 512 9"), Err(ValidationError::InvalidViewBox));
    assert_eq!(validate_view_box("0 0 0 512"), Err(ValidationError::InvalidViewBox));
    assert_eq!(validate_view_box("0 0 512.5 512"), Err(ValidationError::InvalidViewBox));
    assert_eq!(validate_view_box("0 0 513 512"), Err(ValidationError::InvalidViewBox));
    assert_eq!(validate_view_box("0 0 9999 10"), Err(ValidationError::InvalidViewBox));
    assert_eq!(validate_view_box("0 0 12a 10"), Err(ValidationError::InvalidViewBox));
    assert_eq!(validate_view_box(""), Err(ValidationError::InvalidViewBox));
    assert_eq!(validate_view_box("   "), Err(ValidationError::InvalidViewBox));
}

#[test]
fn view_box_dimensions_allow_leading_or_trailing_dots() {
    assert!(validate_view_box("0 0 .5 512.").is_ok());
    assert!(validate_view_box("0 0 512.000 .125").is_ok());
    assert_eq!(validate_view_box("0 0 0. 10"), Err(ValidationError::InvalidViewBox));
    assert_eq!(validate_view_box("0 0 .0 10"), Err(ValidationError::InvalidViewBox));
    assert_eq!(validate_view_box("0 0 . 10"), Err(ValidationError::InvalidViewBox));
    assert_eq!(validate_view_box("0 0 1..5 10"), Err(ValidationError::InvalidViewBox));
    // exponent and signed forms are outside the accepted grammar
    assert_eq!(validate_view_box("0 0 1e2 10"), Err(ValidationError::InvalidViewBox));
    assert_eq!(validate_view_box("0 0 +5 10"), Err(ValidationError::InvalidViewBox));
}

#[test]
fn view_box_separators_are_whitespace_runs() {
    assert!(validate_view_box("0  0 512 512").is_ok());
    assert!(validate_view_box("  0 0\t512\n512  ").is_ok());
    assert!(validate_view_box("0\r\n0 12 24").is_ok());
    assert_eq!(validate_view_box(" 0 0 512 "), Err(ValidationError::InvalidViewBox));
}

fn stroke(d: &str, color: &str, width: u32) -> SvgPath {
    SvgPath { d: d.to_string(), stroke: color.to_string(), stroke_width: width, fill: None }
}

#[test]
fn logo_validation_checks_every_rule() {
    let good = LogoData {
        view_box: "0 0 24 24".to_string(),
        paths: vec![stroke("M0 0 L10 10", "#112233", 2000)],
    };
    assert!(validate_logo_data(&good, 500).is_ok());
    assert_eq!(validate_logo_data(&good, 100_001), Err(ValidationError::LogoTooLarge));

    let bad_box = LogoData { view_box: "nope".to_string(), paths: Vec::new() };
    assert_eq!(validate_logo_data(&bad_box, 10), Err(ValidationError::InvalidViewBox));

    let bad_fill = LogoData {
        view_box: "0 0 24 24".to_string(),
        paths: vec![SvgPath {
            d: "M0 0".to_string(),
            stroke: "#112233".to_string(),
            stroke_width: 2000,
            fill: Some("red".to_string()),
        }],
    };
    assert_eq!(validate_logo_data(&bad_fill, 10), Err(ValidationError::InvalidColor));

    let mut crowded = LogoData { view_box: "0 0 24 24".to_string(), paths: Vec::new() };
    for _ in 0..1001 {
        crowded.paths.push(stroke("M0 0", "#112233", 2000));
    }
    assert_eq!(validate_logo_data(&crowded, 10), Err(ValidationError::TooManyPaths));
}

#[test]
fn integer_conversions_reject_out_of_range_values() {
    assert_eq!(to_i64(7), Ok(7));
    assert_eq!(to_i64(i64::MAX as u64), Ok(i64::MAX));
    assert_eq!(to_i64(i64::MAX as u64 + 1), Err(ConversionError::TooLarge));
    assert_eq!(to_u64(7), Ok(7));
    assert_eq!(to_u64(0), Ok(0));
    assert_eq!(to_u64(-1), Err(ConversionError::Negative));
}

#[test]
fn status_text_round_trips() {
    for status in [
        SessionStatus::Running,
        SessionStatus::Completed,
        SessionStatus::Cancelled,
        SessionStatus::Interrupted,
    ] {
        assert_eq!(parse_status(status.as_str()), Ok(status));
    }
    assert_eq!(parse_status("Paused"), Err(ConversionError::UnknownStatus));
    assert_eq!(parse_status(""), Err(ConversionError::UnknownStatus));
}

fn running_session() -> Session {
    Session {
        id: "s-1".to_string(),
        started_at: 1_000,
        stopped_at: None,
        status: SessionStatus::Running,
        target_ms: 60_000,
        active_ms: 12_000,
        created_at: 1_000,
        updated_at: 2_000,
    }
}

#[test]
fn crash_recovery_marks_running_sessions_interrupted() {
    let recovered = recover_interrupted(&running_session(), 9_000);
    assert_eq!(recovered.status, SessionStatus::Interrupted);
    assert_eq!(recovered.stopped_at, Some(9_000));
    assert_eq!(recovered.updated_at, 9_000);
    assert_eq!(recovered.id, "s-1");
    assert_eq!(recovered.active_ms, 12_000);
}

#[test]
fn session_info_projects_the_session() {
    let info = SessionInfo::of_session(&running_session());
    assert_eq!(info.id, "s-1");
    assert_eq!(info.status, SessionStatus::Running);
    assert_eq!(info.target_ms, 60_000);
    assert_eq!(info.active_ms, 12_000);
}

#[test]
fn agent_state_classification_follows_the_rules() {
    assert_eq!(classify_session_state(true, true, 500), SessionState::Done);
    assert_eq!(classify_session_state(false, true, 0), SessionState::Executing);
    assert_eq!(classify_session_state(false, false, 21), SessionState::Thinking);
    assert_eq!(classify_session_state(false, false, 20), SessionState::Waiting);
}

#[test]
fn island_sound_defaults_to_enabled_stock_chime() {
    let settings = IslandSoundSettings::default();
    assert!(settings.enabled);
    assert_eq!(settings.sound_id, "island_default");
}

#[test]
fn char_wise_string_equality() {
    assert!(str_eq("abc", "abc"));
    assert!(!str_eq("abc", "abd"));
    assert!(!str_eq("abc", "abcd"));
    assert!(str_eq("", ""));
}
