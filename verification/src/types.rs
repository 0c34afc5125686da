//! Subdomain grammar, per-session shared state, and identifier generation.

use vstd::prelude::*;
use vstd::string::StrSliceExecFns;
use crate::ext::{hex_lower, now_unix_nanos, random_bytes_8};
use crate::text::{
    all_ascii, ascii_string, chars_of, hex_min_bytes, is_label_char, lemma_hex_min_props,
    lemma_hex_pair_props, push_hex_u128,
};

verus! {

/// Maximum length for a subdomain (DNS label limit).
pub const MAX_SUBDOMAIN_LENGTH: usize = 63;

/// Minimum length for a subdomain.
pub const MIN_SUBDOMAIN_LENGTH: usize = 1;

/// Subdomain validation result.
#[derive(Debug, Clone, PartialEq, Eq, Structural)]
pub enum SubdomainValidation {
    Valid,
    TooLong,
    TooShort,
    InvalidCharacters,
    StartsWithHyphen,
    EndsWithHyphen,
}

/// A well-formed DNS label as this library stores it: 1 to 63 characters,
/// lowercase letters, digits and hyphens only, no hyphen at either end.
pub open spec fn is_valid_label(s: Seq<char>) -> bool {
    &&& 1 <= s.len() <= 63
    &&& forall|i: int| 0 <= i < s.len() ==> is_label_char(#[trigger] s[i])
    &&& s[0] != '-'
    &&& s[s.len() - 1] != '-'
}

/// What `validate_subdomain` reports for a character sequence, checks in the
/// order the function makes them.
pub open spec fn spec_validate_subdomain(s: Seq<char>) -> SubdomainValidation {
    if s.len() > 63 {
        SubdomainValidation::TooLong
    } else if s.len() < 1 {
        SubdomainValidation::TooShort
    } else if s[0] == '-' {
        SubdomainValidation::StartsWithHyphen
    } else if s[s.len() - 1] == '-' {
        SubdomainValidation::EndsWithHyphen
    } else if !(forall|i: int| 0 <= i < s.len() ==> is_label_char(#[trigger] s[i])) {
        SubdomainValidation::InvalidCharacters
    } else {
        SubdomainValidation::Valid
    }
}

/// Validation accepts exactly the well-formed labels.
pub proof fn lemma_validate_accepts_iff(s: Seq<char>)
    ensures
        spec_validate_subdomain(s) == SubdomainValidation::Valid <==> is_valid_label(s),
{
}

/// Validate a subdomain string.
///
/// Rules:
/// - Length: 1-63 characters (DNS label limit)
/// - Characters: lowercase letters, digits, hyphens only
/// - Cannot start or end with a hyphen
pub fn validate_subdomain(subdomain: &str) -> (r: SubdomainValidation)
    ensures
        r == spec_validate_subdomain(subdomain@),
{
    let len = subdomain.unicode_len();
    if len > MAX_SUBDOMAIN_LENGTH {
        return SubdomainValidation::TooLong;
    }
    if len < MIN_SUBDOMAIN_LENGTH {
        return SubdomainValidation::TooShort;
    }
    if subdomain.get_char(0) == '-' {
        return SubdomainValidation::StartsWithHyphen;
    }
    if subdomain.get_char(len - 1) == '-' {
        return SubdomainValidation::EndsWithHyphen;
    }
    let mut i: usize = 0;
    while i < len
        invariant
            i <= len,
            len == subdomain@.len(),
            1 <= len <= 63,
            subdomain@[0] != '-',
            subdomain@[len - 1] != '-',
            forall|j: int| 0 <= j < i ==> is_label_char(#[trigger] subdomain@[j]),
        decreases len - i,
    {
        let c = subdomain.get_char(i);
        if !(('a' <= c && c <= 'z') || ('0' <= c && c <= '9') || c == '-') {
            return SubdomainValidation::InvalidCharacters;
        }
        i += 1;
    }
    SubdomainValidation::Valid
}

/// Check if a subdomain is valid.
pub fn is_valid_subdomain(subdomain: &str) -> (r: bool)
    ensures
        r == is_valid_label(subdomain@),
{
    let v = validate_subdomain(subdomain);
    proof {
        lemma_validate_accepts_iff(subdomain@);
    }
    v == SubdomainValidation::Valid
}

/// A pending tunnel request waiting for verification.
#[derive(Debug, Clone)]
pub struct PendingTunnel {
    pub address: String,
    pub port: u32,
}

/// Device Flow verification status.
#[derive(Debug, Clone, PartialEq)]
pub enum VerificationStatus {
    /// Not yet started
    NotStarted,
    /// Waiting for user to verify via web
    Pending { code: String },
    /// Verified with user ID and display name
    Verified { user_id: String, display_name: String },
    /// Verification failed or timed out
    Failed { reason: String },
}

/// One port-to-subdomain association remembered for reconnection.
#[derive(Debug, Clone)]
pub struct PortSubdomain {
    pub port: u32,
    pub subdomain: String,
}

/// There is an entry for `port`.
pub open spec fn has_port(s: Seq<PortSubdomain>, port: u32) -> bool {
    exists|i: int| 0 <= i < s.len() && s[i].port == port
}

/// The index of the entry for `port` (meaningful when `has_port` holds and
/// ports are unique).
pub open spec fn port_index(s: Seq<PortSubdomain>, port: u32) -> int {
    choose|i: int| 0 <= i < s.len() && s[i].port == port
}

/// The subdomain remembered for `port`, as a character sequence.
pub open spec fn port_subdomain(s: Seq<PortSubdomain>, port: u32) -> Seq<char> {
    s[port_index(s, port)].subdomain@
}

/// Ports appear at most once.
pub open spec fn ports_unique(s: Seq<PortSubdomain>) -> bool {
    forall|i: int, j: int|
        0 <= i < s.len() && 0 <= j < s.len() && i != j ==> s[i].port != s[j].port
}

/// The subdomain remembered for `port`, if any.
pub fn get_port_subdomain(v: &Vec<PortSubdomain>, port: u32) -> (r: Option<String>)
    requires
        ports_unique(v@),
    ensures
        r matches Some(s) ==> has_port(v@, port) && s@ == port_subdomain(v@, port),
        r is None ==> !has_port(v@, port),
{
    let n = v.len();
    let mut i: usize = 0;
    while i < n
        invariant
            i <= n,
            n == v@.len(),
            ports_unique(v@),
            forall|j: int| 0 <= j < i ==> v@[j].port != port,
        decreases n - i,
    {
        if v[i].port == port {
            proof {
                assert(port_index(v@, port) == i);
            }
            return Some(v[i].subdomain.clone());
        }
        i += 1;
    }
    None
}

/// `news` is `olds` with `port` now mapped to `sub` and everything else as
/// it was.
pub open spec fn port_map_insert(
    olds: Seq<PortSubdomain>,
    news: Seq<PortSubdomain>,
    port: u32,
    sub: Seq<char>,
) -> bool {
    &&& ports_unique(news)
    &&& has_port(news, port)
    &&& port_subdomain(news, port) == sub
    &&& forall|p: u32| p != port ==> has_port(news, p) == has_port(olds, p)
    &&& forall|p: u32|
        p != port && has_port(olds, p) ==> port_subdomain(news, p) == port_subdomain(olds, p)
}

/// Set the subdomain remembered for `port`, replacing any earlier entry.
pub fn set_port_subdomain(v: &mut Vec<PortSubdomain>, port: u32, subdomain: &str)
    requires
        ports_unique(old(v)@),
    ensures
        port_map_insert(old(v)@, final(v)@, port, subdomain@),
{
    let n = v.len();
    let mut i: usize = 0;
    while i < n
        invariant
            i <= n,
            n == v@.len(),
            v@ == old(v)@,
            ports_unique(v@),
            forall|j: int| 0 <= j < i ==> v@[j].port != port,
        decreases n - i,
    {
        if v[i].port == port {
            let _ = v.remove(i);
            v.insert(i, PortSubdomain { port, subdomain: subdomain.to_owned() });
            proof {
                lemma_port_map_update(old(v)@, v@, i as int, port, subdomain@);
            }
            return ;
        }
        i += 1;
    }
    v.push(PortSubdomain { port, subdomain: subdomain.to_owned() });
    proof {
        lemma_port_map_push(old(v)@, v@, port, subdomain@);
    }
}

/// Replacing the entry at the index that carries `port` is a map insert.
proof fn lemma_port_map_update(
    olds: Seq<PortSubdomain>,
    news: Seq<PortSubdomain>,
    i: int,
    port: u32,
    sub: Seq<char>,
)
    requires
        ports_unique(olds),
        0 <= i < olds.len(),
        olds[i].port == port,
        news.len() == olds.len(),
        news[i].port == port,
        news[i].subdomain@ == sub,
        forall|j: int| 0 <= j < olds.len() && j != i ==> news[j] == olds[j],
    ensures
        port_map_insert(olds, news, port, sub),
{
    assert forall|a: int, b: int|
        0 <= a < news.len() && 0 <= b < news.len() && a != b implies news[a].port
        != news[b].port by {
        assert(news[a].port == olds[a].port && news[b].port == olds[b].port);
    }
    assert(has_port(news, port));
    assert(port_index(news, port) == i);
    assert forall|p: u32| p != port implies has_port(news, p) == has_port(olds, p) by {
        if has_port(news, p) {
            let k = port_index(news, p);
            assert(olds[k].port == p);
        }
        if has_port(olds, p) {
            let k = port_index(olds, p);
            assert(news[k].port == p);
            assert(has_port(news, p));
        }
    }
    assert forall|p: u32| p != port && has_port(olds, p) implies port_subdomain(news, p)
        == port_subdomain(olds, p) by {
        let k = port_index(olds, p);
        assert(news[k].port == p);
        assert(has_port(news, p));
        assert(port_index(news, p) == k);
    }
}

/// Appending an entry for an absent `port` is a map insert.
proof fn lemma_port_map_push(
    olds: Seq<PortSubdomain>,
    news: Seq<PortSubdomain>,
    port: u32,
    sub: Seq<char>,
)
    requires
        ports_unique(olds),
        !has_port(olds, port),
        news.len() == olds.len() + 1,
        news[news.len() - 1].port == port,
        news[news.len() - 1].subdomain@ == sub,
        forall|j: int| 0 <= j < olds.len() ==> news[j] == olds[j],
    ensures
        port_map_insert(olds, news, port, sub),
{
    assert forall|a: int, b: int|
        0 <= a < news.len() && 0 <= b < news.len() && a != b implies news[a].port
        != news[b].port by {
        if a < olds.len() && b < olds.len() {
            assert(news[a].port == olds[a].port && news[b].port == olds[b].port);
        } else if a < olds.len() {
            assert(news[b].port == port && news[a].port == olds[a].port);
        } else {
            assert(news[a].port == port && news[b].port == olds[b].port);
        }
    }
    assert(has_port(news, port));
    assert(port_index(news, port) == news.len() - 1);
    assert forall|p: u32| p != port implies has_port(news, p) == has_port(olds, p) by {
        if has_port(news, p) {
            let k = port_index(news, p);
            assert(k < olds.len() && olds[k].port == p);
        }
        if has_port(olds, p) {
            let k = port_index(olds, p);
            assert(news[k].port == p);
            assert(has_port(news, p));
        }
    }
    assert forall|p: u32| p != port && has_port(olds, p) implies port_subdomain(news, p)
        == port_subdomain(olds, p) by {
        let k = port_index(olds, p);
        assert(news[k].port == p);
        assert(has_port(news, p));
        assert(port_index(news, p) == k);
    }
}

/// Shared state of one SSH session, read and written by the connection
/// handler and by the verification worker.
pub struct SharedHandlerState {
    pub verification_status: VerificationStatus,
    pub pending_tunnels: Vec<PendingTunnel>,
    pub registered_subdomains: Vec<String>,
    pub subdomain_counter: u32,
    /// Session handle identifier (set after auth succeeds); the runtime maps
    /// it to the live SSH session handle.
    pub session_handle: Option<u64>,
    /// Session channel identifier (set when the session channel is opened).
    pub session_channel_id: Option<u64>,
    /// Whether ESC was pressed once (for double-ESC to disconnect).
    pub esc_pressed: bool,
    /// Wall-clock milliseconds of the last ESC press.
    pub last_esc_time: Option<u64>,
    /// Subdomains from a previous session, keyed by client port.
    pub last_subdomains: Vec<PortSubdomain>,
    /// Pending tunnel port (set when a tunnel is created before the session
    /// channel opens, so the ready message can be delivered later).
    pub pending_tunnel_port: Option<u32>,
    /// User-requested subdomain from the SSH username; `None` means a random
    /// subdomain was asked for (username `.`).
    pub requested_subdomain: Option<String>,
}

impl SharedHandlerState {
    /// The port-to-subdomain memory has unique ports.
    pub open spec fn wf(self) -> bool {
        ports_unique(self.last_subdomains@)
    }

    pub fn new() -> (r: Self)
        ensures
            r.verification_status == VerificationStatus::NotStarted,
            r.pending_tunnels@.len() == 0,
            r.registered_subdomains@.len() == 0,
            r.subdomain_counter == 0,
            r.session_handle is None,
            r.session_channel_id is None,
            !r.esc_pressed,
            r.last_esc_time is None,
            r.last_subdomains@.len() == 0,
            r.pending_tunnel_port is None,
            r.requested_subdomain is None,
            r.wf(),
    {
        SharedHandlerState {
            verification_status: VerificationStatus::NotStarted,
            pending_tunnels: Vec::new(),
            registered_subdomains: Vec::new(),
            subdomain_counter: 0,
            session_handle: None,
            session_channel_id: None,
            esc_pressed: false,
            last_esc_time: None,
            last_subdomains: Vec::new(),
            pending_tunnel_port: None,
            requested_subdomain: None,
        }
    }

    /// Whether device-flow verification has completed for this session.
    pub fn is_verified(&self) -> (r: bool)
        ensures
            r == (self.verification_status is Verified),
    {
        matches!(self.verification_status, VerificationStatus::Verified { .. })
    }
}

impl Default for SharedHandlerState {
    fn default() -> (r: Self)
        ensures
            r.verification_status == VerificationStatus::NotStarted,
            r.pending_tunnels@.len() == 0,
            r.registered_subdomains@.len() == 0,
            r.subdomain_counter == 0,
            r.wf(),
    {
        SharedHandlerState::new()
    }
}

/// A session identifier: `"ssh-"` followed by the wall-clock nanoseconds in
/// lowercase hexadecimal.
pub fn generate_session_id() -> (r: String)
    ensures
        r@.len() > 4,
        r@[0] == 's' && r@[1] == 's' && r@[2] == 'h' && r@[3] == '-',
        exists|n: u128| r@ == seq!['s', 's', 'h', '-'] + chars_of(hex_min_bytes(n as int)),
{
    let nanos = now_unix_nanos();
    let mut out: Vec<u8> = Vec::new();
    out.push(115);
    out.push(115);
    out.push(104);
    out.push(45);
    push_hex_u128(&mut out, nanos);
    proof {
        lemma_hex_min_props(nanos as int);
        assert(all_ascii(out@));
    }
    let r = ascii_string(&out);
    proof {
        assert(r@ =~= seq!['s', 's', 'h', '-'] + chars_of(hex_min_bytes(nanos as int)));
    }
    r
}

/// A random subdomain fragment: 16 lowercase hexadecimal characters (64 bits
/// of entropy) drawn from a cryptographically secure generator.
pub fn generate_secure_subdomain_id() -> (r: String)
    ensures
        r@.len() == 16,
        forall|i: int| 0 <= i < 16 ==> is_label_char(#[trigger] r@[i]) && r@[i] != '-',
        exists|b: Seq<u8>| b.len() == 8 && r@ == chars_of(crate::text::hex_pair_bytes(b)),
{
    let rb = random_bytes_8();
    let h = hex_lower(&rb);
    proof {
        lemma_hex_pair_props(rb@);
    }
    let r = ascii_string(&h);
    proof {
        assert(rb@.len() == 8 && r@ == chars_of(crate::text::hex_pair_bytes(rb@)));
    }
    r
}

} // verus!
