//! Tests for the terminal boxes and status lines.

use console::measure_text_width;
use tunnl::terminal_ui::{
    bottom_border, create_activation_box, create_error_box, create_esc_hint,
    create_port_error_box, create_spinner_update, create_success_box, clear_esc_hint,
    middle_border, spinner_frame, top_border,
};

#[test]
fn test_spinner_frame() {
    assert_eq!(spinner_frame(0), "⠋");
    assert_eq!(spinner_frame(10), "⠋"); // wraps around
}

#[test]
fn test_activation_box_contains_code() {
    let box_output = create_activation_box("ABC123", "http://example.com/activate");
    assert!(box_output.contains("ABC123"));
    assert!(box_output.contains("example.com"));
}

#[test]
fn test_box_width_consistency() {
    // All border lines should have the same length
    let top = top_border();
    let mid = middle_border();
    let bot = bottom_border();

    // Remove \r\n for comparison
    let top_len = measure_text_width(top.trim());
    let mid_len = measure_text_width(mid.trim());
    let bot_len = measure_text_width(bot.trim());

    assert_eq!(top_len, mid_len);
    assert_eq!(mid_len, bot_len);
}

#[test]
fn test_content_lines_align_with_borders() {
    let b = create_activation_box("AF3D-1234", "http://example.com/activate");
    let widths: Vec<usize> =
        b.lines().filter(|l| !l.is_empty()).map(measure_text_width).collect();
    assert!(widths.len() > 3);
    assert!(widths.iter().all(|w| *w == widths[0]));
}

#[test]
fn test_success_box_lists_tunnel_urls() {
    let tunnels = vec![("tunnel-ab12-1".to_string(), 3000u32)];
    let b = create_success_box("alice", &tunnels, "example.test");
    assert!(b.contains("tunnel-ab12-1.example.test"));
    assert!(b.contains("Welcome back, alice!"));
}

#[test]
fn test_error_box_contains_reason() {
    let b = create_error_box("Activation code expired");
    assert!(b.contains("Activation code expired"));
    assert!(b.contains("ACTIVATION FAILED"));
}

#[test]
fn test_port_error_box_names_endpoint() {
    let b = create_port_error_box(3000, "localhost");
    assert!(b.contains("Cannot connect to localhost:3000"));
    assert!(b.contains("--port 3000"));
}

#[test]
fn test_spinner_update_moves_cursor() {
    let u = create_spinner_update(3);
    assert!(u.starts_with("\u{1B}[s\u{1B}[3A\r║ "));
    assert!(u.ends_with(" ║\u{1B}[u"));
    assert!(u.contains("⠸"));
}

#[test]
fn test_esc_hint_roundtrip() {
    assert!(create_esc_hint().contains("Press ESC again to disconnect"));
    assert_eq!(clear_esc_hint(), "\u{1B}[2A\u{1B}[0J");
}
