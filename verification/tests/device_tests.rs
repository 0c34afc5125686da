//! Tests for device-flow codes, polling decisions, and time formatting.

use tunnl::device::{
    evaluate_poll_response, format_timestamp, generate_activation_code, truncate_user_id,
    CheckCodeResponse, DeviceFlowConfig, PollStep, VerifiedUser,
};

#[test]
fn test_activation_code_format() {
    let code = generate_activation_code();
    assert_eq!(code.len(), 9);
    let bytes = code.as_bytes();
    assert_eq!(bytes[4], b'-');
    for &b in bytes[..4].iter().chain(bytes[5..].iter()) {
        assert!(b.is_ascii_digit() || (b'A'..=b'F').contains(&b));
    }
}

#[test]
fn test_activation_codes_differ() {
    // two draws from the generator almost surely differ
    let a = generate_activation_code();
    let b = generate_activation_code();
    let c = generate_activation_code();
    assert!(a != b || b != c);
}

#[test]
fn test_format_timestamp_epoch() {
    assert_eq!(format_timestamp(0), "1970-01-01T00:00:00Z");
}

#[test]
fn test_format_timestamp_known_instant() {
    assert_eq!(format_timestamp(1_700_000_000), "2023-11-14T22:13:20Z");
}

#[test]
fn test_format_timestamp_leap_day() {
    // 2024-02-29 12:00:00 UTC
    assert_eq!(format_timestamp(1_709_208_000), "2024-02-29T12:00:00Z");
}

#[test]
fn test_poll_decision_verified() {
    let resp = CheckCodeResponse {
        status: "verified".to_string(),
        user_id: Some("alice".to_string()),
        error: None,
    };
    match evaluate_poll_response(&resp) {
        PollStep::Verified { user_id } => assert_eq!(user_id, "alice"),
        other => panic!("expected verified, got {:?}", other),
    }
}

#[test]
fn test_poll_decision_verified_without_user_keeps_polling() {
    let resp = CheckCodeResponse { status: "verified".to_string(), user_id: None, error: None };
    assert_eq!(evaluate_poll_response(&resp), PollStep::Continue);
}

#[test]
fn test_poll_decision_expired() {
    let resp = CheckCodeResponse { status: "expired".to_string(), user_id: None, error: None };
    assert_eq!(evaluate_poll_response(&resp), PollStep::Expired);
}

#[test]
fn test_poll_decision_not_found() {
    let resp = CheckCodeResponse { status: "not_found".to_string(), user_id: None, error: None };
    assert_eq!(evaluate_poll_response(&resp), PollStep::CodeNotFound);
}

#[test]
fn test_poll_decision_pending_and_unknown_continue() {
    let pending = CheckCodeResponse { status: "pending".to_string(), user_id: None, error: None };
    assert_eq!(evaluate_poll_response(&pending), PollStep::Continue);
    let odd = CheckCodeResponse { status: "enhance".to_string(), user_id: None, error: None };
    assert_eq!(evaluate_poll_response(&odd), PollStep::Continue);
}

#[test]
fn test_truncate_user_id() {
    assert_eq!(truncate_user_id("short"), "short");
    assert_eq!(truncate_user_id("12345678"), "12345678");
    assert_eq!(truncate_user_id("123456789abc"), "12345678...");
}

#[test]
fn test_verified_user_display_name() {
    let with_name = VerifiedUser {
        user_id: "user-1234567890".to_string(),
        display_name: Some("Alice".to_string()),
    };
    assert_eq!(with_name.display_name_or_id(), "Alice");
    let without = VerifiedUser { user_id: "user-1234567890".to_string(), display_name: None };
    assert_eq!(without.display_name_or_id(), "user-123...");
}

#[test]
fn test_activation_url() {
    let config = DeviceFlowConfig {
        api_base_url: "http://localhost:3000".to_string(),
        internal_secret: "SECRET-REDACTED".to_string(),
        code_expiry_secs: 300,
        poll_interval_secs: 2,
        max_poll_attempts: 150,
    };
    assert_eq!(
        config.get_activation_url("AF3D-1234"),
        "http://localhost:3000/activate?code=AF3D-1234"
    );
}

#[test]
fn test_config_validation() {
    let short = tunnl::config::Config {
        tunnel_url: "example.test".to_string(),
        api_base_url: "http://localhost:3000".to_string(),
        internal_api_secret: "too-short".to_string(),
    };
    assert!(!short.validate());
    let long = tunnl::config::Config {
        tunnel_url: "example.test".to_string(),
        api_base_url: "http://localhost:3000".to_string(),
        internal_api_secret: "x".repeat(32),
    };
    assert!(long.validate());
}

#[test]
fn test_get_tunnel_url() {
    assert_eq!(tunnl::config::get_tunnel_url("api", "example.test"), "api.example.test");
}

#[test]
fn test_now_plus_secs_shape() {
    let t = tunnl::device::now_plus_secs(300);
    assert_eq!(t.len(), 20);
    assert!(t.ends_with('Z'));
    assert_eq!(&t[4..5], "-");
    assert_eq!(&t[10..11], "T");
    // the year is in the right era
    assert!(t.starts_with("20"));
}
