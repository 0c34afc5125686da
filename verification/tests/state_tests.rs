//! Tests for the registry: tunnels, verified keys, and rate limits.

use tunnl::state::{AppState, RateLimitEntry, TunnelInfo, VerifiedKey};
use tunnl::error::TunnelError;

fn create_test_state() -> AppState {
    AppState::new()
}

fn tunnel(sub: &str, now_ms: u64) -> TunnelInfo {
    TunnelInfo {
        subdomain: sub.to_string(),
        handle_id: 1,
        requested_address: "localhost".to_string(),
        requested_port: 3000,
        server_port: 80,
        created_at: now_ms,
        username: "alice".to_string(),
        client_ip: "198.51.100.7".to_string(),
        is_connected: true,
        disconnected_at: None,
    }
}

#[test]
fn test_verified_key_expiration() {
    let key = VerifiedKey::new("user123".to_string(), None);
    assert!(!key.is_expired());
}

#[test]
fn test_rate_limit_entry_new() {
    let entry = RateLimitEntry::new();
    assert_eq!(entry.attempts, 1);
}

#[test]
fn test_rate_limit_entry_is_rate_limited_on_first_request() {
    let entry = RateLimitEntry::new();
    // Should be rate limited because last_request is just now (< 10s ago)
    assert!(entry.is_rate_limited());
}

#[test]
fn test_rate_limit_entry_max_attempts() {
    let mut entry = RateLimitEntry::new();
    // Record more attempts to exceed limit
    for _ in 0..5 {
        entry.record_attempt();
    }
    assert!(entry.is_rate_limited());
}

#[test]
fn test_device_flow_rate_limiting() {
    let mut state = create_test_state();
    let ip = "192.168.1.1";
    let t0: u64 = 1_000_000;

    // First request from an IP is accepted (and recorded)
    assert!(!state.check_and_record_device_flow(ip, t0));

    // A second request right away is rejected
    assert!(state.check_and_record_device_flow(ip, t0 + 1));
}

#[test]
fn test_verified_key_save_and_get() {
    let mut state = create_test_state();
    let fingerprint = "SHA256:abc123";
    let user_id = "user1";
    let now: u64 = 5_000_000;

    state.save_verified_key(fingerprint, user_id, Some("User One"), 8000, "test-subdomain", now);

    let key = state.get_verified_key(fingerprint, now + 1);
    assert!(key.is_some());
    let key = key.unwrap();
    assert_eq!(key.user_id, user_id);
    assert_eq!(key.display_name, Some("User One".to_string()));
    assert_eq!(key.subdomain_for_port(8000), Some("test-subdomain".to_string()));
}

#[test]
fn test_verified_key_not_found() {
    let state = create_test_state();
    let key = state.get_verified_key("nonexistent", 0);
    assert!(key.is_none());
}

#[test]
fn test_update_verified_key_subdomain() {
    let mut state = create_test_state();
    let fingerprint = "SHA256:xyz789";
    let now: u64 = 5_000_000;

    state.save_verified_key(fingerprint, "user", None, 3000, "old-subdomain", now);
    state.update_verified_key_subdomain(fingerprint, 3000, "new-subdomain");

    let key = state.get_verified_key(fingerprint, now).unwrap();
    assert_eq!(key.subdomain_for_port(3000), Some("new-subdomain".to_string()));
}

#[test]
fn test_verified_key_multiple_ports() {
    let mut state = create_test_state();
    let fingerprint = "SHA256:multiport";
    let now: u64 = 5_000_000;

    state.save_verified_key(fingerprint, "user", Some("Test User"), 8000, "subdomain-8000", now);
    state.save_verified_key(fingerprint, "user", Some("Test User"), 3000, "subdomain-3000", now);

    let key = state.get_verified_key(fingerprint, now).unwrap();
    assert_eq!(key.subdomains.len(), 2);
    assert_eq!(key.subdomain_for_port(8000), Some("subdomain-8000".to_string()));
    assert_eq!(key.subdomain_for_port(3000), Some("subdomain-3000".to_string()));
}

#[test]
fn test_verified_key_expires_after_ttl() {
    let mut state = create_test_state();
    let now: u64 = 5_000_000;
    state.save_verified_key("SHA256:ttl", "user", None, 3000, "sub", now);
    // still there just before the 30-minute mark
    assert!(state.get_verified_key("SHA256:ttl", now + 1_799_999).is_some());
    // gone at the mark
    assert!(state.get_verified_key("SHA256:ttl", now + 1_800_000).is_none());
}

#[test]
fn test_cleanup_rate_limits() {
    let mut state = create_test_state();
    let ip = "10.0.0.1";
    let now: u64 = 9_000_000;

    assert!(!state.check_and_record_device_flow(ip, now));
    assert_eq!(state.rate_limits.len(), 1);

    // Cleanup does not remove recent entries
    state.cleanup_rate_limits(now + 10_000);
    assert_eq!(state.rate_limits.len(), 1);

    // Two full windows later the entry is swept
    state.cleanup_rate_limits(now + 120_000);
    assert_eq!(state.rate_limits.len(), 0);
}

#[test]
fn test_register_and_remove_restores_registry() {
    let mut state = create_test_state();
    assert!(state.register_tunnel(tunnel("api", 1)).is_ok());
    assert_eq!(state.tunnels.len(), 1);
    let removed = state.remove_tunnel("api").unwrap();
    assert_eq!(removed.subdomain, "api");
    assert_eq!(state.tunnels.len(), 0);
}

#[test]
fn test_register_duplicate_is_rejected_without_mutating() {
    let mut state = create_test_state();
    assert!(state.register_tunnel(tunnel("api", 1)).is_ok());
    match state.register_tunnel(tunnel("api", 2)) {
        Err(TunnelError::SubdomainTaken(s)) => assert_eq!(s, "api"),
        other => panic!("expected a subdomain conflict, got {:?}", other),
    }
    assert_eq!(state.tunnels.len(), 1);
    assert_eq!(state.get_tunnel("api").unwrap().created_at, 1);
}

#[test]
fn test_remove_missing_tunnel_reports_not_found() {
    let mut state = create_test_state();
    match state.remove_tunnel("ghost") {
        Err(TunnelError::TunnelNotFound(s)) => {
            assert_eq!(s, "ghost");
            let msg = TunnelError::TunnelNotFound(s).message();
            assert_eq!(msg, "Tunnel not found for subdomain 'ghost'");
        }
        other => panic!("expected not-found, got {:?}", other),
    }
}

#[test]
fn test_is_subdomain_taken_ignores_disconnected() {
    let mut state = create_test_state();
    assert!(state.register_tunnel(tunnel("api", 1)).is_ok());
    assert!(state.is_subdomain_taken("api"));
    state.mark_tunnel_disconnected("api", 50);
    assert!(!state.is_subdomain_taken("api"));
    // the entry is still present and routable
    assert!(state.get_tunnel("api").is_some());
}

#[test]
fn test_disconnected_tunnel_swept_after_thirty_minutes() {
    let mut state = create_test_state();
    let t0: u64 = 1_000_000;
    assert!(state.register_tunnel(tunnel("api", t0)).is_ok());
    state.mark_tunnel_disconnected("api", t0);
    let entry = state.get_tunnel("api").unwrap();
    assert!(!entry.is_connected);
    assert_eq!(entry.disconnected_at, Some(t0));

    // kept inside the window
    state.cleanup_expired_tunnels(t0 + 1_799_999);
    assert!(state.get_tunnel("api").is_some());

    // swept at thirty minutes
    state.cleanup_expired_tunnels(t0 + 1_800_000);
    assert!(state.get_tunnel("api").is_none());
}

#[test]
fn test_rate_limit_window_of_five() {
    // Six starts inside one minute: spaced tries pass until the window
    // count strikes, a close repeat is always rejected.
    let mut state = create_test_state();
    let ip = "198.51.100.1";
    let t0: u64 = 0;
    assert!(!state.check_and_record_device_flow(ip, t0)); // 1st recorded
    assert!(state.check_and_record_device_flow(ip, t0 + 1_000)); // within 10 s: rejected
    assert!(!state.check_and_record_device_flow(ip, t0 + 10_000)); // 2nd recorded
    assert!(!state.check_and_record_device_flow(ip, t0 + 20_000)); // 3rd
    assert!(!state.check_and_record_device_flow(ip, t0 + 30_000)); // 4th
    assert!(!state.check_and_record_device_flow(ip, t0 + 40_000)); // 5th
    // five attempts now stand in the window: rejected regardless of spacing
    assert!(state.check_and_record_device_flow(ip, t0 + 55_000));
}
