//! End-to-end scenarios over the library's decision functions, with the
//! base domain `example.test`.

use tunnl::management::kick_tunnel;
use tunnl::proxy::{decide_route, RouteDecision};
use tunnl::session::{
    apply_cached_key, check_flow_rate, decide_tcpip_forward, interpret_username,
    note_auth_succeeded, on_cancel_forward, on_esc, cleanup_session, EscAction, ForwardDecision,
};
use tunnl::state::AppState;
use tunnl::tunnel::create_tunnel;
use tunnl::types::{is_valid_subdomain, PendingTunnel, SharedHandlerState, VerificationStatus};
use tunnl::verification::{begin_verification_success, create_pending_tunnel};

const NOW: u64 = 1_700_000_000_000;

/// Happy path: username `.`, new key, device flow returns `alice`, one
/// forward on port 3000; the registry ends with one connected entry under
/// a generated subdomain, and the proxy routes it.
#[test]
fn test_happy_path_creates_and_routes_tunnel() {
    let mut registry = AppState::new();
    let mut state = SharedHandlerState::new();
    interpret_username(&mut state, ".");
    note_auth_succeeded(&mut state, 42);

    // not verified yet: the forward is queued and device flow starts
    match decide_tcpip_forward(&mut state, "localhost", 3000) {
        ForwardDecision::Queued { start_flow } => assert!(start_flow),
        other => panic!("expected the request to queue, got {:?}", other),
    }
    assert!(!check_flow_rate(&mut state, &mut registry, Some("203.0.113.5"), NOW));

    // verification resolves for alice; the queued request is drained
    let drained = begin_verification_success(&mut state, "alice", "Alice");
    assert_eq!(drained.len(), 1);
    let created = create_pending_tunnel(
        &drained[0],
        Some(42),
        &mut state,
        &mut registry,
        "203.0.113.5",
        Some("."),
        Some("SHA256:newkey"),
        NOW,
    );
    let (subdomain, port) = created.expect("tunnel should be created");
    assert_eq!(port, 3000);
    assert!(subdomain.starts_with("tunnel-"));
    assert!(subdomain.ends_with("-1"));
    assert!(is_valid_subdomain(&subdomain));

    let entry = registry.get_tunnel(&subdomain).expect("registered");
    assert_eq!(entry.username, "alice");
    assert!(entry.is_connected);
    assert_eq!(entry.server_port, 80);
    assert_eq!(entry.handle_id, 42);

    // the proxy routes a request for that subdomain
    let peek = format!("GET / HTTP/1.1\r\nHost: {}.example.test\r\n\r\n", subdomain);
    match decide_route(peek.as_bytes(), "example.test", &registry) {
        RouteDecision::Forward { tunnel } => assert_eq!(tunnel.subdomain, subdomain),
        other => panic!("expected a forward, got {:?}", other),
    }
}

/// Reconnect with the same key and port: the auth cache seeds the port
/// memory, and the new session reclaims the same subdomain, replacing the
/// stale entry.
#[test]
fn test_reconnect_reuses_subdomain() {
    let mut registry = AppState::new();

    // first session
    let mut s1 = SharedHandlerState::new();
    interpret_username(&mut s1, ".");
    s1.verification_status = VerificationStatus::Verified {
        user_id: "alice".to_string(),
        display_name: "Alice".to_string(),
    };
    let r1 = create_tunnel(
        "localhost",
        3000,
        Some(1),
        &mut s1,
        &mut registry,
        "203.0.113.5",
        Some("."),
        Some("SHA256:key"),
        NOW,
    )
    .unwrap();
    assert!(r1.success);
    let first = s1.registered_subdomains.last().unwrap().clone();

    // the session dies; the entry stays, disconnected
    cleanup_session(&mut s1, &mut registry, NOW + 1_000);
    assert!(!registry.get_tunnel(&first).unwrap().is_connected);

    // second session, same fingerprint: the cache seeds the port memory
    let mut s2 = SharedHandlerState::new();
    interpret_username(&mut s2, ".");
    let key = registry.get_verified_key("SHA256:key", NOW + 2_000).expect("cached");
    apply_cached_key(&mut s2, &key);
    let r2 = create_tunnel(
        "localhost",
        3000,
        Some(2),
        &mut s2,
        &mut registry,
        "203.0.113.6",
        Some("."),
        Some("SHA256:key"),
        NOW + 3_000,
    )
    .unwrap();
    assert!(r2.success);
    assert_eq!(s2.registered_subdomains.last().unwrap(), &first);

    // the old entry was replaced atomically: one connected entry remains
    let entry = registry.get_tunnel(&first).unwrap();
    assert!(entry.is_connected);
    assert_eq!(entry.handle_id, 2);
    assert_eq!(registry.tunnels.len(), 1);
}

/// Explicit subdomain conflict: session A holds `api`; session B asks for
/// `api` by username and is told to disconnect; the registry stands.
#[test]
fn test_explicit_subdomain_conflict() {
    let mut registry = AppState::new();

    let mut sa = SharedHandlerState::new();
    interpret_username(&mut sa, "api");
    sa.verification_status = VerificationStatus::Verified {
        user_id: "alice".to_string(),
        display_name: "Alice".to_string(),
    };
    assert!(create_tunnel(
        "localhost",
        3000,
        Some(1),
        &mut sa,
        &mut registry,
        "203.0.113.5",
        Some("api"),
        None,
        NOW,
    )
    .unwrap()
    .success);

    let mut sb = SharedHandlerState::new();
    interpret_username(&mut sb, "api");
    sb.verification_status = VerificationStatus::Verified {
        user_id: "bob".to_string(),
        display_name: "Bob".to_string(),
    };
    let rb = create_tunnel(
        "localhost",
        3000,
        Some(2),
        &mut sb,
        &mut registry,
        "203.0.113.6",
        Some("api"),
        None,
        NOW + 1,
    )
    .unwrap();
    assert!(!rb.success);
    assert!(rb.is_explicit_conflict);
    assert_eq!(rb.conflicting_subdomain, Some("api".to_string()));

    // registry unchanged: still owned by session A
    let entry = registry.get_tunnel("api").unwrap();
    assert_eq!(entry.handle_id, 1);
    assert_eq!(registry.tunnels.len(), 1);
}

/// Device-flow rate limit: six starts from one IP in sixty seconds.
#[test]
fn test_device_flow_rate_limit_scenario() {
    let mut registry = AppState::new();
    let ip = Some("203.0.113.77");
    let t0: u64 = 1_000_000;

    let mut s = SharedHandlerState::new();
    assert!(!check_flow_rate(&mut s, &mut registry, ip, t0)); // attempt 1 passes
    let mut s2 = SharedHandlerState::new();
    assert!(check_flow_rate(&mut s2, &mut registry, ip, t0 + 2_000)); // within 10 s: rejected
    assert!(matches!(s2.verification_status, VerificationStatus::Failed { .. }));
    let mut s3 = SharedHandlerState::new();
    assert!(!check_flow_rate(&mut s3, &mut registry, ip, t0 + 12_000)); // spaced: passes
    let mut s4 = SharedHandlerState::new();
    assert!(!check_flow_rate(&mut s4, &mut registry, ip, t0 + 24_000));
    let mut s5 = SharedHandlerState::new();
    assert!(!check_flow_rate(&mut s5, &mut registry, ip, t0 + 36_000));
    let mut s6 = SharedHandlerState::new();
    assert!(!check_flow_rate(&mut s6, &mut registry, ip, t0 + 48_000));
    // five attempts in the window: the sixth is rejected despite spacing
    let mut s7 = SharedHandlerState::new();
    assert!(check_flow_rate(&mut s7, &mut registry, ip, t0 + 59_000));
}

/// Management disconnect: DELETE on a present subdomain answers success,
/// hands back the owning handle, and the listing no longer shows it.
#[test]
fn test_management_kick() {
    let mut registry = AppState::new();
    let mut s = SharedHandlerState::new();
    interpret_username(&mut s, "abc");
    s.verification_status = VerificationStatus::Verified {
        user_id: "alice".to_string(),
        display_name: "Alice".to_string(),
    };
    assert!(create_tunnel(
        "localhost",
        3000,
        Some(9),
        &mut s,
        &mut registry,
        "203.0.113.5",
        Some("abc"),
        None,
        NOW,
    )
    .unwrap()
    .success);

    let (resp, handle_id) = kick_tunnel(&mut registry, "abc").expect("present");
    assert!(resp.success);
    assert_eq!(resp.message, "Tunnel 'abc' disconnected");
    assert_eq!(handle_id, 9);
    assert!(tunnl::management::list_tunnels(&registry).tunnels.is_empty());

    let err = kick_tunnel(&mut registry, "abc").unwrap_err();
    assert_eq!(err.error, "Tunnel not found: abc");
}

/// Double ESC within two seconds disconnects; a late second press only
/// rearms the hint.
#[test]
fn test_double_esc() {
    let mut s = SharedHandlerState::new();
    assert_eq!(on_esc(&mut s, 1_000), EscAction::ShowHint);
    assert_eq!(on_esc(&mut s, 2_500), EscAction::Disconnect);

    let mut slow = SharedHandlerState::new();
    assert_eq!(on_esc(&mut slow, 1_000), EscAction::ShowHint);
    assert_eq!(on_esc(&mut slow, 4_000), EscAction::ShowHint);
    assert_eq!(on_esc(&mut slow, 4_100), EscAction::Disconnect);
}

/// An invalid explicitly requested subdomain fails the tunnel request
/// without touching the registry.
#[test]
fn test_invalid_requested_subdomain_fails() {
    let mut registry = AppState::new();
    let mut s = SharedHandlerState::new();
    interpret_username(&mut s, "Bad_Name");
    s.verification_status = VerificationStatus::Verified {
        user_id: "alice".to_string(),
        display_name: "Alice".to_string(),
    };
    let r = create_tunnel(
        "localhost",
        3000,
        Some(1),
        &mut s,
        &mut registry,
        "203.0.113.5",
        Some("Bad_Name"),
        None,
        NOW,
    )
    .unwrap();
    assert!(!r.success);
    assert_eq!(r.conflicting_subdomain, Some("Bad_Name".to_string()));
    assert!(registry.tunnels.is_empty());
}

/// A queued pending tunnel keeps its address and port for the worker.
#[test]
fn test_pending_tunnel_queue() {
    let mut s = SharedHandlerState::new();
    let d = decide_tcpip_forward(&mut s, "localhost", 8000);
    assert!(matches!(d, ForwardDecision::Queued { start_flow: true }));
    assert_eq!(s.pending_tunnels.len(), 1);
    let p: &PendingTunnel = &s.pending_tunnels[0];
    assert_eq!(p.address, "localhost");
    assert_eq!(p.port, 8000);
}

/// Cancelling a forward removes exactly the owned tunnels that match the
/// cancelled address and port; the rest stay owned and registered.
#[test]
fn test_cancel_forward_removes_matching() {
    let mut registry = AppState::new();
    let mut s = SharedHandlerState::new();
    s.verification_status = VerificationStatus::Verified {
        user_id: "alice".to_string(),
        display_name: "Alice".to_string(),
    };
    interpret_username(&mut s, "first");
    assert!(create_tunnel(
        "localhost", 3000, Some(1), &mut s, &mut registry, "203.0.113.5", Some("first"), None, NOW,
    )
    .unwrap()
    .success);
    interpret_username(&mut s, "second");
    assert!(create_tunnel(
        "localhost", 8000, Some(1), &mut s, &mut registry, "203.0.113.5", Some("second"), None, NOW,
    )
    .unwrap()
    .success);
    assert_eq!(s.registered_subdomains.len(), 2);

    let removed = on_cancel_forward(&mut s, &mut registry, "localhost", 3000);
    assert_eq!(removed, vec!["first".to_string()]);
    assert_eq!(s.registered_subdomains, vec!["second".to_string()]);
    assert!(registry.get_tunnel("first").is_none());
    assert!(registry.get_tunnel("second").is_some());
}
