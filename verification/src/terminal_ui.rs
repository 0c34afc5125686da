//! Text boxes and status lines written to the SSH session channel. Layout
//! is computed against terminal display width (`text_width`); the escape
//! sequences only move the cursor and clear earlier output.

use vstd::prelude::*;
use vstd::string::{StrSliceExecFns, StringExecFns};
use crate::ext::{display_width, text_width};
use crate::text::dec_chars;

verus! {

/// Box width (inner content width, excluding borders).
pub const BOX_WIDTH: usize = 58;

/// Number of lines in the activation box (for clearing).
pub const ACTIVATION_BOX_LINES: usize = 14;

/// A run of spaces.
pub open spec fn spaces(n: int) -> Seq<char> {
    if n <= 0 {
        Seq::<char>::empty()
    } else {
        Seq::new(n as nat, |i: int| ' ')
    }
}

/// Appends `n` spaces.
pub fn push_spaces(s: &mut String, n: usize)
    ensures
        final(s)@ == old(s)@ + spaces(n as int),
{
    let mut i: usize = 0;
    proof {
        reveal_strlit(" ");
        assert(s@ =~= old(s)@ + spaces(0));
    }
    while i < n
        invariant
            i <= n,
            s@ == old(s)@ + spaces(i as int),
        decreases n - i,
    {
        s.append(" ");
        proof {
            reveal_strlit(" ");
            assert(s@ =~= old(s)@ + spaces(i + 1));
        }
        i += 1;
    }
}

/// A content line: the text, padded with spaces to the box width, between
/// the side borders.
pub open spec fn line_chars(text: Seq<char>) -> Seq<char> {
    "║ "@ + text + spaces(58 - text_width(text)) + " ║\r\n"@
}

/// A centered content line: the padding split evenly around the text.
pub open spec fn centered_chars(text: Seq<char>) -> Seq<char> {
    let diff = 58 - text_width(text);
    let left = if diff <= 0 {
        0int
    } else {
        diff / 2
    };
    "║ "@ + spaces(left) + text + spaces(diff - left) + " ║\r\n"@
}

/// Create a content line with proper padding.
pub fn content_line(text: &str) -> (r: String)
    ensures
        r@ == line_chars(text@),
{
    let w = display_width(text);
    let mut s = String::from_str("║ ");
    s.append(text);
    if w < BOX_WIDTH {
        push_spaces(&mut s, BOX_WIDTH - w);
    }
    s.append(" ║\r\n");
    proof {
        assert(s@ =~= line_chars(text@));
    }
    s
}

/// Create a centered content line.
pub fn centered_line(text: &str) -> (r: String)
    ensures
        r@ == centered_chars(text@),
{
    let w = display_width(text);
    let mut s = String::from_str("║ ");
    if w < BOX_WIDTH {
        let diff = BOX_WIDTH - w;
        push_spaces(&mut s, diff / 2);
        s.append(text);
        push_spaces(&mut s, diff - diff / 2);
    } else {
        s.append(text);
    }
    s.append(" ║\r\n");
    proof {
        assert(s@ =~= centered_chars(text@));
    }
    s
}

/// An empty content line.
pub fn empty_line() -> (r: String)
    ensures
        r@ == line_chars(Seq::<char>::empty()),
{
    let r = content_line("");
    proof {
        reveal_strlit("");
        assert(""@ =~= Seq::<char>::empty());
    }
    r
}

/// The horizontal bar of the box borders.
pub open spec fn hbar(n: int) -> Seq<char> {
    if n <= 0 {
        Seq::<char>::empty()
    } else {
        Seq::new(n as nat, |i: int| '═')
    }
}

/// A border line: a corner, sixty bar characters, a corner.
pub open spec fn border_chars(lc: char, rc: char) -> Seq<char> {
    seq![lc] + hbar(60) + seq![rc] + "\r\n"@
}

/// Appends sixty bar characters.
pub fn push_hbar(s: &mut String)
    ensures
        final(s)@ == old(s)@ + hbar(60),
{
    let mut i: usize = 0;
    proof {
        reveal_strlit("═");
        assert(s@ =~= old(s)@ + hbar(0));
    }
    while i < 60
        invariant
            i <= 60,
            s@ == old(s)@ + hbar(i as int),
        decreases 60 - i,
    {
        s.append("═");
        proof {
            reveal_strlit("═");
            assert(s@ =~= old(s)@ + hbar(i + 1));
        }
        i += 1;
    }
}

/// The top border of a box.
pub fn top_border() -> (r: String)
    ensures
        r@ == border_chars('╔', '╗'),
{
    let mut s = String::from_str("╔");
    push_hbar(&mut s);
    s.append("╗\r\n");
    proof {
        broadcast use vstd::string::group_string_axioms;

        reveal_strlit("╔");
        reveal_strlit("╗\r\n");
        reveal_strlit("\r\n");
        assert(s@ =~= border_chars('╔', '╗'));
    }
    s
}

/// A divider between box sections.
pub fn middle_border() -> (r: String)
    ensures
        r@ == border_chars('╠', '╣'),
{
    let mut s = String::from_str("╠");
    push_hbar(&mut s);
    s.append("╣\r\n");
    proof {
        broadcast use vstd::string::group_string_axioms;

        reveal_strlit("╠");
        reveal_strlit("╣\r\n");
        reveal_strlit("\r\n");
        assert(s@ =~= border_chars('╠', '╣'));
    }
    s
}

/// The bottom border of a box.
pub fn bottom_border() -> (r: String)
    ensures
        r@ == border_chars('╚', '╝'),
{
    let mut s = String::from_str("╚");
    push_hbar(&mut s);
    s.append("╝\r\n");
    proof {
        broadcast use vstd::string::group_string_axioms;

        reveal_strlit("╚");
        reveal_strlit("╝\r\n");
        reveal_strlit("\r\n");
        assert(s@ =~= border_chars('╚', '╝'));
    }
    s
}

/// The spinner frame for an index, cycling through ten frames.
pub open spec fn spinner_frame_chars(i: int) -> Seq<char> {
    let k = i % 10;
    if k == 0 {
        "⠋"@
    } else if k == 1 {
        "⠙"@
    } else if k == 2 {
        "⠹"@
    } else if k == 3 {
        "⠸"@
    } else if k == 4 {
        "⠼"@
    } else if k == 5 {
        "⠴"@
    } else if k == 6 {
        "⠦"@
    } else if k == 7 {
        "⠧"@
    } else if k == 8 {
        "⠇"@
    } else {
        "⠏"@
    }
}

/// Get a spinner frame by index (wraps around).
pub fn spinner_frame(index: usize) -> (r: &'static str)
    ensures
        r@ == spinner_frame_chars(index as int),
{
    let k = index % 10;
    if k == 0 {
        "⠋"
    } else if k == 1 {
        "⠙"
    } else if k == 2 {
        "⠹"
    } else if k == 3 {
        "⠸"
    } else if k == 4 {
        "⠼"
    } else if k == 5 {
        "⠴"
    } else if k == 6 {
        "⠦"
    } else if k == 7 {
        "⠧"
    } else if k == 8 {
        "⠇"
    } else {
        "⠏"
    }
}

/// The URL as the activation box shows it: cut to fit the box with an
/// ellipsis when too wide.
pub open spec fn url_display_chars(url: Seq<char>) -> Seq<char> {
    if text_width(url) > 56 {
        url.take(if url.len() < 53 {
            url.len() as int
        } else {
            53
        }) + "..."@
    } else {
        url
    }
}

/// The device activation box shown while waiting for the user.
pub open spec fn activation_box_chars(code: Seq<char>, url: Seq<char>) -> Seq<char> {
    "\r\n"@ + border_chars('╔', '╗') + centered_chars("🔐 DEVICE ACTIVATION"@) + border_chars(
        '╠',
        '╣',
    ) + line_chars(Seq::<char>::empty()) + line_chars("Your code: "@ + code) + line_chars(
        Seq::<char>::empty(),
    ) + line_chars("Open this URL in your browser:"@) + line_chars(url_display_chars(url))
        + line_chars(Seq::<char>::empty()) + line_chars(
        spinner_frame_chars(0) + " Waiting for authorization..."@,
    ) + border_chars('╚', '╝') + "\r\n"@
}

/// Create the device activation box shown when waiting for verification.
pub fn create_activation_box(code: &str, url: &str) -> (r: String)
    ensures
        r@ == activation_box_chars(code@, url@),
{
    let mut code_line = String::from_str("Your code: ");
    code_line.append(code);
    let uw = display_width(url);
    let url_display: String = if uw > BOX_WIDTH - 2 {
        let len = url.unicode_len();
        let take = if len < BOX_WIDTH - 5 {
            len
        } else {
            BOX_WIDTH - 5
        };
        let mut t = url.substring_char(0, take).to_owned();
        t.append("...");
        proof {
            assert(t@ =~= url_display_chars(url@));
        }
        t
    } else {
        url.to_owned()
    };
    let mut spinner_line = spinner_frame(0).to_owned();
    spinner_line.append(" Waiting for authorization...");

    let mut out = String::from_str("\r\n");
    out.append(top_border().as_str());
    out.append(centered_line("🔐 DEVICE ACTIVATION").as_str());
    out.append(middle_border().as_str());
    out.append(empty_line().as_str());
    out.append(content_line(code_line.as_str()).as_str());
    out.append(empty_line().as_str());
    out.append(content_line("Open this URL in your browser:").as_str());
    out.append(content_line(url_display.as_str()).as_str());
    out.append(empty_line().as_str());
    out.append(content_line(spinner_line.as_str()).as_str());
    out.append(bottom_border().as_str());
    out.append("\r\n");
    proof {
        assert(out@ =~= activation_box_chars(code@, url@));
    }
    out
}

/// The in-place spinner update: save the cursor, move up to the spinner
/// line, rewrite it, restore the cursor.
pub open spec fn spinner_update_chars(i: int) -> Seq<char> {
    let content = spinner_frame_chars(i) + " Waiting for authorization..."@;
    "\u{1B}[s\u{1B}[3A\r║ "@ + content + spaces(58 - text_width(content)) + " ║\u{1B}[u"@
}

/// Create the escape sequence that updates the spinner line in place.
pub fn create_spinner_update(frame_index: usize) -> (r: String)
    ensures
        r@ == spinner_update_chars(frame_index as int),
{
    let mut content = spinner_frame(frame_index).to_owned();
    content.append(" Waiting for authorization...");
    let w = display_width(content.as_str());
    let mut s = String::from_str("\u{1B}[s\u{1B}[3A\r║ ");
    s.append(content.as_str());
    if w < BOX_WIDTH {
        push_spaces(&mut s, BOX_WIDTH - w);
    }
    s.append(" ║\u{1B}[u");
    proof {
        assert(s@ =~= spinner_update_chars(frame_index as int));
    }
    s
}

/// A display name cut to thirty characters with an ellipsis.
pub open spec fn short_name_chars(name: Seq<char>) -> Seq<char> {
    if name.len() > 30 {
        name.take(27) + "..."@
    } else {
        name
    }
}

/// The per-tunnel lines of the success box.
pub open spec fn tunnel_url_lines(tunnels: Seq<(String, u32)>, url: Seq<char>) -> Seq<char>
    decreases tunnels.len(),
{
    if tunnels.len() == 0 {
        Seq::<char>::empty()
    } else {
        tunnel_url_lines(tunnels.drop_last(), url) + line_chars(
            "➜ "@ + tunnels.last().0@ + "."@ + url,
        )
    }
}

/// The success box listing the tunnels' public addresses.
pub open spec fn success_box_chars(
    name: Seq<char>,
    tunnels: Seq<(String, u32)>,
    url: Seq<char>,
) -> Seq<char> {
    "\u{1B}[14A\u{1B}[0J"@ + border_chars('╔', '╗') + centered_chars("✓ TUNNEL ACTIVATED"@)
        + border_chars('╠', '╣') + line_chars(Seq::<char>::empty()) + line_chars(
        "Welcome back, "@ + short_name_chars(name) + "!"@,
    ) + line_chars(Seq::<char>::empty()) + line_chars("Your tunnel is ready:"@) + tunnel_url_lines(
        tunnels,
        url,
    ) + line_chars(Seq::<char>::empty()) + line_chars("Press Esc double to disconnect"@)
        + border_chars('╚', '╝') + "\r\n"@
}

/// Create the success box shown after tunnel activation.
pub fn create_success_box(username: &str, tunnel_urls: &Vec<(String, u32)>, tunnel_url: &str) -> (r:
    String)
    ensures
        r@ == success_box_chars(username@, tunnel_urls@, tunnel_url@),
{
    let display_user: String = if username.unicode_len() > 30 {
        let mut t = username.substring_char(0, 27).to_owned();
        t.append("...");
        t
    } else {
        username.to_owned()
    };
    proof {
        assert(display_user@ =~= short_name_chars(username@));
    }
    let mut welcome = String::from_str("Welcome back, ");
    welcome.append(display_user.as_str());
    welcome.append("!");

    let mut out = String::from_str("\u{1B}[14A\u{1B}[0J");
    out.append(top_border().as_str());
    out.append(centered_line("✓ TUNNEL ACTIVATED").as_str());
    out.append(middle_border().as_str());
    out.append(empty_line().as_str());
    out.append(content_line(welcome.as_str()).as_str());
    out.append(empty_line().as_str());
    out.append(content_line("Your tunnel is ready:").as_str());

    let n = tunnel_urls.len();
    let mut i: usize = 0;
    let ghost prefix = out@;
    while i < n
        invariant
            i <= n,
            n == tunnel_urls@.len(),
            out@ == prefix + tunnel_url_lines(tunnel_urls@.subrange(0, i as int), tunnel_url@),
        decreases n - i,
    {
        proof {
            assert(tunnel_urls@.subrange(0, i + 1).drop_last() =~= tunnel_urls@.subrange(
                0,
                i as int,
            ));
            assert(tunnel_urls@.subrange(0, i + 1).last() == tunnel_urls@[i as int]);
        }
        let mut url_line = String::from_str("➜ ");
        url_line.append(tunnel_urls[i].0.as_str());
        url_line.append(".");
        url_line.append(tunnel_url);
        out.append(content_line(url_line.as_str()).as_str());
        proof {
            assert(out@ =~= prefix + tunnel_url_lines(
                tunnel_urls@.subrange(0, i + 1),
                tunnel_url@,
            ));
        }
        i += 1;
    }
    proof {
        assert(tunnel_urls@.subrange(0, n as int) =~= tunnel_urls@);
    }
    out.append(empty_line().as_str());
    out.append(content_line("Press Esc double to disconnect").as_str());
    out.append(bottom_border().as_str());
    out.append("\r\n");
    proof {
        assert(out@ =~= success_box_chars(username@, tunnel_urls@, tunnel_url@));
    }
    out
}

/// A failure reason cut to fit the box.
pub open spec fn short_reason_chars(reason: Seq<char>) -> Seq<char> {
    if reason.len() > 54 {
        reason.take(51) + "..."@
    } else {
        reason
    }
}

/// The error box shown when activation fails.
pub open spec fn error_box_chars(reason: Seq<char>) -> Seq<char> {
    "\u{1B}[14A\u{1B}[0J"@ + border_chars('╔', '╗') + centered_chars("✗ ACTIVATION FAILED"@)
        + border_chars('╠', '╣') + line_chars(Seq::<char>::empty()) + line_chars(
        "✗ "@ + short_reason_chars(reason),
    ) + line_chars(Seq::<char>::empty()) + line_chars("Please reconnect to try again."@)
        + line_chars(Seq::<char>::empty()) + line_chars(
        "Connection will close in 3 seconds..."@,
    ) + border_chars('╚', '╝') + "\r\n"@
}

/// Create the error box shown when activation fails.
pub fn create_error_box(reason: &str) -> (r: String)
    ensures
        r@ == error_box_chars(reason@),
{
    let display_reason: String = if reason.unicode_len() > 54 {
        let mut t = reason.substring_char(0, 51).to_owned();
        t.append("...");
        t
    } else {
        reason.to_owned()
    };
    proof {
        assert(display_reason@ =~= short_reason_chars(reason@));
    }
    let mut error_line = String::from_str("✗ ");
    error_line.append(display_reason.as_str());

    let mut out = String::from_str("\u{1B}[14A\u{1B}[0J");
    out.append(top_border().as_str());
    out.append(centered_line("✗ ACTIVATION FAILED").as_str());
    out.append(middle_border().as_str());
    out.append(empty_line().as_str());
    out.append(content_line(error_line.as_str()).as_str());
    out.append(empty_line().as_str());
    out.append(content_line("Please reconnect to try again.").as_str());
    out.append(empty_line().as_str());
    out.append(content_line("Connection will close in 3 seconds...").as_str());
    out.append(bottom_border().as_str());
    out.append("\r\n");
    proof {
        assert(out@ =~= error_box_chars(reason@));
    }
    out
}

/// The error box for a failed probe of the client's local port.
pub open spec fn port_error_box_chars(port: int, address: Seq<char>) -> Seq<char> {
    "\u{1B}[14A\u{1B}[0J"@ + border_chars('╔', '╗') + centered_chars("✗ CONNECTION FAILED"@)
        + border_chars('╠', '╣') + line_chars(Seq::<char>::empty()) + line_chars(
        "✗ Cannot connect to "@ + address + ":"@ + dec_chars(port),
    ) + line_chars(Seq::<char>::empty()) + line_chars(
        "Make sure your local service is running:"@,
    ) + line_chars("  $ your-app --port "@ + dec_chars(port)) + line_chars(Seq::<char>::empty())
        + line_chars("Connection will close in 3 seconds..."@) + border_chars('╚', '╝')
        + "\r\n"@
}

/// Create the error box for a port connection failure.
pub fn create_port_error_box(port: u32, address: &str) -> (r: String)
    ensures
        r@ == port_error_box_chars(port as int, address@),
{
    let port_str = crate::text::dec_u64_string(port as u64);
    let mut error_line = String::from_str("✗ Cannot connect to ");
    error_line.append(address);
    error_line.append(":");
    error_line.append(port_str.as_str());
    let mut hint = String::from_str("  $ your-app --port ");
    hint.append(port_str.as_str());

    let mut out = String::from_str("\u{1B}[14A\u{1B}[0J");
    out.append(top_border().as_str());
    out.append(centered_line("✗ CONNECTION FAILED").as_str());
    out.append(middle_border().as_str());
    out.append(empty_line().as_str());
    out.append(content_line(error_line.as_str()).as_str());
    out.append(empty_line().as_str());
    out.append(content_line("Make sure your local service is running:").as_str());
    out.append(content_line(hint.as_str()).as_str());
    out.append(empty_line().as_str());
    out.append(content_line("Connection will close in 3 seconds...").as_str());
    out.append(bottom_border().as_str());
    out.append("\r\n");
    proof {
        assert(out@ =~= port_error_box_chars(port as int, address@));
    }
    out
}

/// Create the hint shown after a first ESC press.
pub fn create_esc_hint() -> (r: String)
    ensures
        r@ == "\r\n⚠ Press ESC again to disconnect...\r\n"@,
{
    String::from_str("\r\n⚠ Press ESC again to disconnect...\r\n")
}

/// Clear the ESC hint: move up two lines and wipe to the end of the
/// screen.
pub fn clear_esc_hint() -> (r: String)
    ensures
        r@ == "\u{1B}[2A\u{1B}[0J"@,
{
    String::from_str("\u{1B}[2A\u{1B}[0J")
}

} // verus!
