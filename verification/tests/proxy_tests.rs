//! Tests for host-header parsing, subdomain extraction, and routing.

use tunnl::proxy::{
    decide_route, error_response, extract_host_from_raw, extract_subdomain_with_base,
    RouteDecision,
};
use tunnl::state::{AppState, TunnelInfo};

#[test]
fn test_extract_subdomain_with_localhost() {
    // With base_domain = "localhost"
    assert_eq!(
        extract_subdomain_with_base("test.localhost:8080", "localhost"),
        Some("test".to_string())
    );
    assert_eq!(
        extract_subdomain_with_base("tunnel-abc123.localhost:8080", "localhost"),
        Some("tunnel-abc123".to_string())
    );
    assert_eq!(
        extract_subdomain_with_base("myapp.localhost", "localhost"),
        Some("myapp".to_string())
    );
    // No subdomain
    assert_eq!(extract_subdomain_with_base("localhost:8080", "localhost"), None);
    assert_eq!(extract_subdomain_with_base("localhost", "localhost"), None);
}

#[test]
fn test_extract_subdomain_with_domain() {
    // With base_domain = "example.com"
    assert_eq!(
        extract_subdomain_with_base("test.example.com", "example.com"),
        Some("test".to_string())
    );
    assert_eq!(
        extract_subdomain_with_base("tunnel-xyz.example.com:8080", "example.com"),
        Some("tunnel-xyz".to_string())
    );
    // No subdomain
    assert_eq!(extract_subdomain_with_base("example.com", "example.com"), None);
    assert_eq!(extract_subdomain_with_base("example.com:8080", "example.com"), None);
    // Different domain should not match
    assert_eq!(extract_subdomain_with_base("test.other.com", "example.com"), None);
}

#[test]
fn test_extract_subdomain_rejects_nested() {
    // Should reject nested subdomains (e.g., "a.b.localhost")
    assert_eq!(extract_subdomain_with_base("a.b.localhost", "localhost"), None);
    assert_eq!(extract_subdomain_with_base("sub.test.example.com", "example.com"), None);
}

#[test]
fn test_extract_subdomain_with_base_domain_containing_port() {
    // When the configured base is "localhost:8080", the base_domain passed
    // should be "localhost"; this exercises the port-stripping on the host.

    // Host with same port as the configured base
    assert_eq!(
        extract_subdomain_with_base("myapp.localhost:8080", "localhost"),
        Some("myapp".to_string())
    );

    // Host with different port (should still work, only the domain counts)
    assert_eq!(
        extract_subdomain_with_base("myapp.localhost:9000", "localhost"),
        Some("myapp".to_string())
    );

    // Host without port
    assert_eq!(
        extract_subdomain_with_base("myapp.localhost", "localhost"),
        Some("myapp".to_string())
    );

    // Base domain itself (no subdomain)
    assert_eq!(extract_subdomain_with_base("localhost:8080", "localhost"), None);

    // Multi-level base domain like "tunnel.example.com"
    assert_eq!(
        extract_subdomain_with_base("myapp.tunnel.example.com:8080", "tunnel.example.com"),
        Some("myapp".to_string())
    );
    assert_eq!(
        extract_subdomain_with_base("tunnel.example.com:8080", "tunnel.example.com"),
        None
    );
}

#[test]
fn test_extract_host_from_raw() {
    let request = b"GET / HTTP/1.1\r\nHost: tunnel-abc.localhost:8080\r\nUser-Agent: curl\r\n\r\n";
    assert_eq!(
        extract_host_from_raw(request),
        Some("tunnel-abc.localhost:8080".to_string())
    );

    let request_lower = b"GET / HTTP/1.1\r\nhost: tunnel-xyz.example.com\r\n\r\n";
    assert_eq!(
        extract_host_from_raw(request_lower),
        Some("tunnel-xyz.example.com".to_string())
    );

    let no_host = b"GET / HTTP/1.1\r\nUser-Agent: curl\r\n\r\n";
    assert_eq!(extract_host_from_raw(no_host), None);
}

#[test]
fn test_extract_subdomain_lowercases_label() {
    assert_eq!(
        extract_subdomain_with_base("MyApp.localhost", "localhost"),
        Some("myapp".to_string())
    );
}

fn tunnel(sub: &str, connected: bool) -> TunnelInfo {
    TunnelInfo {
        subdomain: sub.to_string(),
        handle_id: 7,
        requested_address: "localhost".to_string(),
        requested_port: 3000,
        server_port: 80,
        created_at: 1_700_000_000_000,
        username: "alice".to_string(),
        client_ip: "203.0.113.9".to_string(),
        is_connected: connected,
        disconnected_at: if connected { None } else { Some(1_700_000_100_000) },
    }
}

#[test]
fn test_decide_route_empty_peek_closes_silently() {
    let registry = AppState::new();
    let decision = decide_route(b"", "example.test", &registry);
    assert!(matches!(decision, RouteDecision::CloseSilently));
}

#[test]
fn test_decide_route_base_host_yields_tunnel_list() {
    // `Host: <base>` alone must give the 400 tunnel-list page, not a 404.
    let mut registry = AppState::new();
    registry.register_tunnel(tunnel("api", true)).unwrap();
    let peek = b"GET / HTTP/1.1\r\nHost: example.test\r\n\r\n";
    match decide_route(peek, "example.test", &registry) {
        RouteDecision::TunnelList { response } => {
            let text = String::from_utf8(response).unwrap();
            assert!(text.starts_with("HTTP/1.1 400 Bad Request"));
            assert!(text.contains("api.example.test"));
        }
        other => panic!("expected the tunnel list, got {:?}", other),
    }
}

#[test]
fn test_decide_route_nested_host_yields_tunnel_list() {
    // `Host: a.b.<base>` (nested) must give 400, not be routed.
    let mut registry = AppState::new();
    registry.register_tunnel(tunnel("b", true)).unwrap();
    let peek = b"GET / HTTP/1.1\r\nHost: a.b.example.test\r\n\r\n";
    match decide_route(peek, "example.test", &registry) {
        RouteDecision::TunnelList { response } => {
            let text = String::from_utf8(response).unwrap();
            assert!(text.starts_with("HTTP/1.1 400 Bad Request"));
        }
        other => panic!("expected the tunnel list, got {:?}", other),
    }
}

#[test]
fn test_decide_route_unknown_subdomain_yields_404() {
    let registry = AppState::new();
    let peek = b"GET / HTTP/1.1\r\nHost: ghost.example.test\r\n\r\n";
    match decide_route(peek, "example.test", &registry) {
        RouteDecision::NotFound { subdomain, response } => {
            assert_eq!(subdomain, "ghost");
            let text = String::from_utf8(response).unwrap();
            assert!(text.starts_with("HTTP/1.1 404 Not Found"));
            assert!(text.contains("Tunnel 'ghost' not found"));
        }
        other => panic!("expected a 404, got {:?}", other),
    }
}

#[test]
fn test_decide_route_known_subdomain_forwards() {
    let mut registry = AppState::new();
    registry.register_tunnel(tunnel("api", true)).unwrap();
    let peek = b"GET / HTTP/1.1\r\nHost: api.example.test\r\n\r\n";
    match decide_route(peek, "example.test", &registry) {
        RouteDecision::Forward { tunnel } => {
            assert_eq!(tunnel.subdomain, "api");
            assert_eq!(tunnel.handle_id, 7);
            assert_eq!(tunnel.requested_port, 3000);
        }
        other => panic!("expected a forward, got {:?}", other),
    }
}

#[test]
fn test_error_response_bad_gateway_carries_text() {
    // A failed forwarded-channel open turns into a 502 carrying the error.
    let response = error_response(502, "Failed to connect to tunnel: ChannelOpenFailure");
    let text = String::from_utf8(response).unwrap();
    assert!(text.starts_with("HTTP/1.1 502 Bad Gateway"));
    assert!(text.contains("Failed to connect to tunnel: ChannelOpenFailure"));
    assert!(text.contains("Content-Length: 47"));
}
