//! Tests for the subdomain grammar, session state, and identifier
//! generation.

use tunnl::types::{
    generate_secure_subdomain_id, generate_session_id, is_valid_subdomain, validate_subdomain,
    PendingTunnel, SharedHandlerState, SubdomainValidation, VerificationStatus,
};

#[test]
fn types_test_generate_session_id_format() {
    let session_id = generate_session_id();
    assert!(session_id.starts_with("ssh-"));
    assert!(session_id.len() > 4);
}

#[test]
fn types_test_generate_secure_subdomain_id_length() {
    let subdomain = generate_secure_subdomain_id();
    // 8 bytes = 16 hex characters
    assert_eq!(subdomain.len(), 16);
}

#[test]
fn types_test_generate_secure_subdomain_id_is_hex() {
    let subdomain = generate_secure_subdomain_id();
    assert!(subdomain.chars().all(|c| c.is_ascii_hexdigit()));
}

#[test]
fn types_test_generate_secure_subdomain_id_unique() {
    let id1 = generate_secure_subdomain_id();
    let id2 = generate_secure_subdomain_id();
    assert_ne!(id1, id2);
}

#[test]
fn types_test_shared_handler_state_default() {
    let state = SharedHandlerState::new();
    assert!(matches!(state.verification_status, VerificationStatus::NotStarted));
    assert!(state.pending_tunnels.is_empty());
    assert!(state.registered_subdomains.is_empty());
    assert_eq!(state.subdomain_counter, 0);
}

#[test]
fn types_test_verification_status_equality() {
    let status1 = VerificationStatus::Verified {
        user_id: "user1".to_string(),
        display_name: "User 1".to_string(),
    };
    let status2 = VerificationStatus::Verified {
        user_id: "user1".to_string(),
        display_name: "User 1".to_string(),
    };
    let status3 = VerificationStatus::Verified {
        user_id: "user2".to_string(),
        display_name: "User 2".to_string(),
    };

    assert_eq!(status1, status2);
    assert_ne!(status1, status3);
}

#[test]
fn types_test_pending_tunnel_clone() {
    let tunnel = PendingTunnel { address: "localhost".to_string(), port: 3000 };
    let cloned = tunnel.clone();
    assert_eq!(tunnel.address, cloned.address);
    assert_eq!(tunnel.port, cloned.port);
}

#[test]
fn test_validate_subdomain_valid() {
    assert_eq!(validate_subdomain("myapp"), SubdomainValidation::Valid);
    assert_eq!(validate_subdomain("my-app"), SubdomainValidation::Valid);
    assert_eq!(validate_subdomain("app123"), SubdomainValidation::Valid);
    assert_eq!(validate_subdomain("a"), SubdomainValidation::Valid);
    assert_eq!(validate_subdomain("a1b2c3"), SubdomainValidation::Valid);
}

#[test]
fn test_validate_subdomain_too_long() {
    let long_subdomain = "a".repeat(64);
    assert_eq!(validate_subdomain(&long_subdomain), SubdomainValidation::TooLong);

    // 63 chars should be valid
    let max_subdomain = "a".repeat(63);
    assert_eq!(validate_subdomain(&max_subdomain), SubdomainValidation::Valid);
}

#[test]
fn test_validate_subdomain_too_short() {
    assert_eq!(validate_subdomain(""), SubdomainValidation::TooShort);
}

#[test]
fn test_validate_subdomain_invalid_characters() {
    assert_eq!(validate_subdomain("my_app"), SubdomainValidation::InvalidCharacters);
    assert_eq!(validate_subdomain("my.app"), SubdomainValidation::InvalidCharacters);
    assert_eq!(validate_subdomain("my@app"), SubdomainValidation::InvalidCharacters);
    assert_eq!(validate_subdomain("MY-APP"), SubdomainValidation::InvalidCharacters); // uppercase not allowed
    assert_eq!(validate_subdomain("app!"), SubdomainValidation::InvalidCharacters);
}

#[test]
fn test_validate_subdomain_hyphen_position() {
    assert_eq!(validate_subdomain("-myapp"), SubdomainValidation::StartsWithHyphen);
    assert_eq!(validate_subdomain("myapp-"), SubdomainValidation::EndsWithHyphen);
    assert_eq!(validate_subdomain("-"), SubdomainValidation::StartsWithHyphen);
}

#[test]
fn test_is_valid_subdomain() {
    assert!(is_valid_subdomain("myapp"));
    assert!(is_valid_subdomain("my-app-123"));
    assert!(!is_valid_subdomain(""));
    assert!(!is_valid_subdomain("-app"));
    assert!(!is_valid_subdomain("app-"));
    assert!(!is_valid_subdomain("MY_APP"));
}
