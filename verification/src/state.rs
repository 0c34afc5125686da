//! The tunnel registry: tunnel records keyed by subdomain, a verified-key
//! cache keyed by public-key fingerprint, and per-IP rate limits on
//! device-flow starts.
//!
//! Every time-dependent operation takes the wall-clock milliseconds as an
//! argument, so its behaviour is pinned down exactly; thin companions without
//! the argument read the clock themselves.

use vstd::prelude::*;
use crate::error::TunnelError;
use crate::ext::now_unix_nanos;
use crate::text::str_eq;
use crate::types::{port_map_insert, ports_unique, set_port_subdomain, PortSubdomain};

verus! {

/// How long a verified key remains valid: 30 minutes, in milliseconds.
pub const VERIFIED_KEY_TTL_MS: u64 = 1_800_000;

/// How long a disconnected tunnel remains in the registry, in milliseconds.
pub const DISCONNECTED_TUNNEL_TTL_MS: u64 = 1_800_000;

/// Minimum interval between device-flow requests per IP, in milliseconds.
pub const DEVICE_FLOW_RATE_LIMIT_MS: u64 = 10_000;

/// Maximum device-flow attempts per IP within the rate-limit window.
pub const DEVICE_FLOW_MAX_ATTEMPTS: u32 = 5;

/// Window for counting device-flow attempts, in milliseconds.
pub const DEVICE_FLOW_WINDOW_MS: u64 = 60_000;

/// The wall clock in milliseconds since the Unix epoch.
pub fn now_millis() -> u64 {
    let nanos = now_unix_nanos();
    (nanos / 1_000_000) as u64
}

/// Information about a registered tunnel.
#[derive(Debug, Clone)]
pub struct TunnelInfo {
    /// The assigned subdomain. Primary key.
    pub subdomain: String,
    /// Identifier of the owning SSH session's handle; the runtime maps it to
    /// the live session for opening forwarded channels and disconnecting.
    pub handle_id: u64,
    /// The address the client requested to forward.
    pub requested_address: String,
    /// The port the client requested (client's local port).
    pub requested_port: u32,
    /// Server port that was "virtually" bound.
    pub server_port: u32,
    /// When this tunnel was created, wall-clock milliseconds.
    pub created_at: u64,
    /// The client's username.
    pub username: String,
    /// The client's IP address.
    pub client_ip: String,
    /// Whether the SSH connection is still active.
    pub is_connected: bool,
    /// When the tunnel was disconnected; `None` while connected.
    pub disconnected_at: Option<u64>,
}

impl TunnelInfo {
    /// The disconnection stamp is present exactly on disconnected entries.
    pub open spec fn connected_iff(self) -> bool {
        self.disconnected_at is Some <==> !self.is_connected
    }

    /// A field-for-field copy, equal to the original.
    pub fn duplicate(&self) -> (r: Self)
        ensures
            r == *self,
    {
        TunnelInfo {
            subdomain: self.subdomain.clone(),
            handle_id: self.handle_id,
            requested_address: self.requested_address.clone(),
            requested_port: self.requested_port,
            server_port: self.server_port,
            created_at: self.created_at,
            username: self.username.clone(),
            client_ip: self.client_ip.clone(),
            is_connected: self.is_connected,
            disconnected_at: self.disconnected_at,
        }
    }
}

/// There is a tunnel entry whose subdomain reads `sub`.
pub open spec fn has_tunnel(ts: Seq<TunnelInfo>, sub: Seq<char>) -> bool {
    exists|i: int| 0 <= i < ts.len() && ts[i].subdomain@ == sub
}

/// The index of the tunnel entry for `sub` (meaningful when `has_tunnel`
/// holds and subdomains are unique).
pub open spec fn tunnel_index(ts: Seq<TunnelInfo>, sub: Seq<char>) -> int {
    choose|i: int| 0 <= i < ts.len() && ts[i].subdomain@ == sub
}

/// Well-formed tunnel table: subdomains unique, and the disconnection stamp
/// present exactly on disconnected entries.
pub open spec fn tunnels_wf(ts: Seq<TunnelInfo>) -> bool {
    &&& forall|i: int, j: int|
        0 <= i < ts.len() && 0 <= j < ts.len() && i != j ==> ts[i].subdomain@ != ts[j].subdomain@
    &&& forall|i: int| 0 <= i < ts.len() ==> (#[trigger] ts[i]).connected_iff()
}

/// A verified public key, cached so a reconnecting client skips device flow.
#[derive(Debug, Clone)]
pub struct VerifiedKey {
    pub user_id: String,
    /// User's display name (nickname).
    pub display_name: Option<String>,
    /// When the key was verified or last refreshed, wall-clock milliseconds.
    pub verified_at: u64,
    /// Subdomains for this key, keyed by client port (kept for reconnection).
    pub subdomains: Vec<PortSubdomain>,
}

impl VerifiedKey {
    /// Whether the cache entry has expired at `now_ms`: the key lives for 30
    /// minutes from `verified_at`; a clock that reads earlier than
    /// `verified_at` also counts as expired.
    pub open spec fn expired_at(self, now_ms: u64) -> bool {
        !(self.verified_at <= now_ms && now_ms - self.verified_at < VERIFIED_KEY_TTL_MS)
    }

    /// A fresh cache entry, verified at the current wall clock.
    pub fn new(user_id: String, display_name: Option<String>) -> (r: Self)
        ensures
            r.user_id == user_id,
            r.display_name == display_name,
            r.subdomains@.len() == 0,
    {
        VerifiedKey { user_id, display_name, verified_at: now_millis(), subdomains: Vec::new() }
    }

    /// A fresh cache entry verified at the given instant.
    pub fn new_at(user_id: String, display_name: Option<String>, now_ms: u64) -> (r: Self)
        ensures
            r.user_id == user_id,
            r.display_name == display_name,
            r.verified_at == now_ms,
            r.subdomains@.len() == 0,
    {
        VerifiedKey { user_id, display_name, verified_at: now_ms, subdomains: Vec::new() }
    }

    /// Whether the entry has expired at the given instant.
    pub fn is_expired_at(&self, now_ms: u64) -> (r: bool)
        ensures
            r == self.expired_at(now_ms),
    {
        !(self.verified_at <= now_ms && now_ms - self.verified_at < VERIFIED_KEY_TTL_MS)
    }

    /// Whether the entry has expired at the current wall clock; see
    /// `is_expired_at` for the exact rule.
    pub fn is_expired(&self) -> bool {
        self.is_expired_at(now_millis())
    }

    /// The subdomain remembered for a client port, if any.
    pub fn subdomain_for_port(&self, port: u32) -> (r: Option<String>)
        requires
            ports_unique(self.subdomains@),
        ensures
            r matches Some(s) ==> crate::types::has_port(self.subdomains@, port) && s@
                == crate::types::port_subdomain(self.subdomains@, port),
            r is None ==> !crate::types::has_port(self.subdomains@, port),
    {
        crate::types::get_port_subdomain(&self.subdomains, port)
    }

    /// The display name, falling back to the truncated user id when none is
    /// set.
    pub fn get_display_name(&self) -> (r: String)
        ensures
            self.display_name matches Some(d) ==> r@ == d@,
            self.display_name is None ==> r@ == crate::device::truncated_id(self.user_id@),
    {
        match &self.display_name {
            Some(d) => d.clone(),
            None => crate::device::truncate_user_id(self.user_id.as_str()),
        }
    }
}

/// Rate-limit tracking for device-flow requests from one IP.
#[derive(Debug, Clone)]
pub struct RateLimitEntry {
    /// When the last request was made, wall-clock milliseconds.
    pub last_request: u64,
    /// Requests counted in the current window.
    pub attempts: u32,
    /// When the current window opened, wall-clock milliseconds.
    pub window_start: u64,
}

impl RateLimitEntry {
    /// A first request observed at the current wall clock.
    pub fn new() -> (r: Self)
        ensures
            r.attempts == 1,
            r.last_request == r.window_start,
    {
        Self::new_at(now_millis())
    }

    /// A first request observed at the given instant.
    pub fn new_at(now_ms: u64) -> (r: Self)
        ensures
            r.last_request == now_ms,
            r.attempts == 1,
            r.window_start == now_ms,
    {
        RateLimitEntry { last_request: now_ms, attempts: 1, window_start: now_ms }
    }

    /// The rate-limit policy at `now_ms`: rejected if the last request was
    /// under 10 seconds ago, or if 5 or more attempts fall within the open
    /// 60-second window.
    pub open spec fn limited_at(self, now_ms: u64) -> bool {
        ||| (self.last_request <= now_ms && now_ms - self.last_request
            < DEVICE_FLOW_RATE_LIMIT_MS)
        ||| (self.window_start <= now_ms && now_ms - self.window_start < DEVICE_FLOW_WINDOW_MS
            && self.attempts >= DEVICE_FLOW_MAX_ATTEMPTS)
    }

    /// What recording an attempt at `now_ms` leaves behind: the window resets
    /// once 60 seconds old (or when the clock reads before it), and the
    /// attempt count grows by one (saturating).
    pub open spec fn recorded_at(self, now_ms: u64) -> RateLimitEntry {
        let reset = !(self.window_start <= now_ms && now_ms - self.window_start
            < DEVICE_FLOW_WINDOW_MS);
        RateLimitEntry {
            last_request: now_ms,
            attempts: if reset {
                1u32
            } else if self.attempts < u32::MAX {
                (self.attempts + 1) as u32
            } else {
                u32::MAX
            },
            window_start: if reset {
                now_ms
            } else {
                self.window_start
            },
        }
    }

    /// Whether a request at the given instant is rejected.
    pub fn is_rate_limited_at(&self, now_ms: u64) -> (r: bool)
        ensures
            r == self.limited_at(now_ms),
    {
        if self.last_request <= now_ms && now_ms - self.last_request < DEVICE_FLOW_RATE_LIMIT_MS {
            return true;
        }
        if self.window_start <= now_ms && now_ms - self.window_start < DEVICE_FLOW_WINDOW_MS
            && self.attempts >= DEVICE_FLOW_MAX_ATTEMPTS {
            return true;
        }
        false
    }

    /// Whether a request at the current wall clock is rejected; see
    /// `is_rate_limited_at` for the exact rule.
    pub fn is_rate_limited(&self) -> bool {
        self.is_rate_limited_at(now_millis())
    }

    /// Record a request at the given instant.
    pub fn record_attempt_at(&mut self, now_ms: u64)
        ensures
            *final(self) == old(self).recorded_at(now_ms),
    {
        if !(self.window_start <= now_ms && now_ms - self.window_start < DEVICE_FLOW_WINDOW_MS) {
            self.attempts = 0;
            self.window_start = now_ms;
        }
        self.last_request = now_ms;
        if self.attempts < u32::MAX {
            self.attempts = self.attempts + 1;
        }
    }

    /// Record a request at the current wall clock; see `record_attempt_at`
    /// for the exact rule.
    pub fn record_attempt(&mut self) {
        self.record_attempt_at(now_millis());
    }
}

impl Default for RateLimitEntry {
    fn default() -> (r: Self)
        ensures
            r.attempts == 1,
            r.last_request == r.window_start,
    {
        Self::new()
    }
}

/// The subsequence of `s` whose elements satisfy `pred`, in order.
pub open spec fn retained<A>(s: Seq<A>, pred: spec_fn(A) -> bool) -> Seq<A>
    decreases s.len(),
{
    if s.len() == 0 {
        s
    } else {
        let rest = retained(s.drop_last(), pred);
        if pred(s.last()) {
            rest.push(s.last())
        } else {
            rest
        }
    }
}

/// Everything retained comes from `s` and satisfies `pred`.
pub proof fn lemma_retained_contains<A>(s: Seq<A>, pred: spec_fn(A) -> bool)
    ensures
        forall|i: int|
            0 <= i < retained(s, pred).len() ==> s.contains(#[trigger] retained(s, pred)[i])
                && pred(retained(s, pred)[i]),
    decreases s.len(),
{
    if s.len() > 0 {
        lemma_retained_contains(s.drop_last(), pred);
        let r = retained(s, pred);
        let rp = retained(s.drop_last(), pred);
        assert forall|i: int| 0 <= i < r.len() implies s.contains(r[i]) && pred(r[i]) by {
            if i < rp.len() {
                assert(s.drop_last().contains(rp[i]) && pred(rp[i]));
                let j = choose|j: int|
                    0 <= j < s.drop_last().len() && s.drop_last()[j] == rp[i];
                assert(s[j] == rp[i]);
            } else {
                assert(r[i] == s.last());
                assert(s[s.len() - 1] == s.last());
            }
        }
    }
}

/// An entry of `s` whose subdomain nothing else carries survives retention
/// exactly when it satisfies `pred`; here specialised to tunnel tables.
pub proof fn lemma_retained_tunnel_lookup(
    ts: Seq<TunnelInfo>,
    pred: spec_fn(TunnelInfo) -> bool,
    sub: Seq<char>,
)
    requires
        tunnels_wf(ts),
    ensures
        has_tunnel(retained(ts, pred), sub) <==> (has_tunnel(ts, sub) && pred(
            ts[tunnel_index(ts, sub)],
        )),
        has_tunnel(retained(ts, pred), sub) ==> retained(ts, pred)[tunnel_index(
            retained(ts, pred),
            sub,
        )] == ts[tunnel_index(ts, sub)],
    decreases ts.len(),
{
    lemma_retained_contains(ts, pred);
    let r = retained(ts, pred);
    if has_tunnel(r, sub) {
        let i = tunnel_index(r, sub);
        assert(0 <= i < r.len() && r[i].subdomain@ == sub);
        assert(ts.contains(r[i]) && pred(r[i]));
        let j = choose|j: int| 0 <= j < ts.len() && ts[j] == r[i];
        assert(has_tunnel(ts, sub));
        assert(ts[tunnel_index(ts, sub)] == ts[j]);
    }
    if has_tunnel(ts, sub) && pred(ts[tunnel_index(ts, sub)]) {
        lemma_retained_keeps(ts, pred, tunnel_index(ts, sub));
    }
}

/// An element that satisfies `pred` is kept.
pub proof fn lemma_retained_keeps<A>(s: Seq<A>, pred: spec_fn(A) -> bool, i: int)
    requires
        0 <= i < s.len(),
        pred(s[i]),
    ensures
        retained(s, pred).contains(s[i]),
    decreases s.len(),
{
    if i == s.len() - 1 {
        let r = retained(s, pred);
        assert(r[r.len() - 1] == s.last());
    } else {
        lemma_retained_keeps(s.drop_last(), pred, i);
        let rp = retained(s.drop_last(), pred);
        let j = choose|j: int| 0 <= j < rp.len() && rp[j] == s.drop_last()[i];
        if pred(s.last()) {
            assert(retained(s, pred)[j] == rp[j]);
        }
    }
}

/// A tunnel entry that survives the sweep at `now_ms`: connected, or
/// disconnected for less than the 30-minute window (a clock reading earlier
/// than the stamp also keeps the entry).
pub open spec fn tunnel_live(t: TunnelInfo, now_ms: u64) -> bool {
    !(t.disconnected_at matches Some(d) && d <= now_ms && now_ms - d
        >= DISCONNECTED_TUNNEL_TTL_MS)
}

/// Thread-shared registry state for the tunnel gateway.
///
/// The runtime wraps one value of this in its lock; every operation here is a
/// single critical section.
#[derive(Debug)]
pub struct AppState {
    /// Registered tunnels, keyed by subdomain.
    pub tunnels: Vec<TunnelInfo>,
    /// Verified public keys, keyed by fingerprint.
    pub verified_keys: Vec<KeyRecord>,
    /// Rate limiting for device-flow requests, keyed by client IP.
    pub rate_limits: Vec<RateLimitRecord>,
}

/// A verified-key cache entry together with its fingerprint key.
#[derive(Debug, Clone)]
pub struct KeyRecord {
    pub fingerprint: String,
    pub key: VerifiedKey,
}

/// A rate-limit entry together with its IP key.
#[derive(Debug, Clone)]
pub struct RateLimitRecord {
    pub ip: String,
    pub entry: RateLimitEntry,
}

/// There is a key entry whose fingerprint reads `fp`.
pub open spec fn has_key(ks: Seq<KeyRecord>, fp: Seq<char>) -> bool {
    exists|i: int| 0 <= i < ks.len() && ks[i].fingerprint@ == fp
}

/// The index of the key entry for `fp`.
pub open spec fn key_index(ks: Seq<KeyRecord>, fp: Seq<char>) -> int {
    choose|i: int| 0 <= i < ks.len() && ks[i].fingerprint@ == fp
}

/// Well-formed key table: fingerprints unique, port maps well-formed.
pub open spec fn keys_wf(ks: Seq<KeyRecord>) -> bool {
    &&& forall|i: int, j: int|
        0 <= i < ks.len() && 0 <= j < ks.len() && i != j ==> ks[i].fingerprint@
            != ks[j].fingerprint@
    &&& forall|i: int| 0 <= i < ks.len() ==> ports_unique((#[trigger] ks[i]).key.subdomains@)
}

/// There is a rate-limit entry for `ip`.
pub open spec fn has_limit(ls: Seq<RateLimitRecord>, ip: Seq<char>) -> bool {
    exists|i: int| 0 <= i < ls.len() && ls[i].ip@ == ip
}

/// The index of the rate-limit entry for `ip`.
pub open spec fn limit_index(ls: Seq<RateLimitRecord>, ip: Seq<char>) -> int {
    choose|i: int| 0 <= i < ls.len() && ls[i].ip@ == ip
}

/// Well-formed rate-limit table: IPs unique.
pub open spec fn limits_wf(ls: Seq<RateLimitRecord>) -> bool {
    forall|i: int, j: int|
        0 <= i < ls.len() && 0 <= j < ls.len() && i != j ==> ls[i].ip@ != ls[j].ip@
}

impl AppState {
    /// All three tables are well-formed.
    pub open spec fn wf(self) -> bool {
        &&& tunnels_wf(self.tunnels@)
        &&& keys_wf(self.verified_keys@)
        &&& limits_wf(self.rate_limits@)
    }

    pub fn new() -> (r: Self)
        ensures
            r.wf(),
            r.tunnels@.len() == 0,
            r.verified_keys@.len() == 0,
            r.rate_limits@.len() == 0,
    {
        AppState { tunnels: Vec::new(), verified_keys: Vec::new(), rate_limits: Vec::new() }
    }

    /// The position of the entry for `subdomain`, if any.
    fn find_tunnel(&self, subdomain: &str) -> (r: Option<usize>)
        ensures
            r matches Some(i) ==> i < self.tunnels@.len() && self.tunnels@[i as int].subdomain@
                == subdomain@,
            r is None ==> !has_tunnel(self.tunnels@, subdomain@),
    {
        let n = self.tunnels.len();
        let mut i: usize = 0;
        while i < n
            invariant
                i <= n,
                n == self.tunnels@.len(),
                forall|j: int| 0 <= j < i ==> self.tunnels@[j].subdomain@ != subdomain@,
            decreases n - i,
        {
            if str_eq(self.tunnels[i].subdomain.as_str(), subdomain) {
                return Some(i);
            }
            i += 1;
        }
        None
    }

    /// Register a tunnel. Fails, changing nothing, exactly when the
    /// subdomain is already present.
    pub fn register_tunnel(&mut self, info: TunnelInfo) -> (r: Result<(), TunnelError>)
        requires
            old(self).wf(),
            info.connected_iff(),
        ensures
            final(self).wf(),
            final(self).verified_keys == old(self).verified_keys,
            final(self).rate_limits == old(self).rate_limits,
            has_tunnel(old(self).tunnels@, info.subdomain@) ==> (r matches Err(
                TunnelError::SubdomainTaken(s),
            ) && s@ == info.subdomain@ && final(self).tunnels == old(self).tunnels),
            !has_tunnel(old(self).tunnels@, info.subdomain@) ==> r is Ok && final(self).tunnels@
                == old(self).tunnels@.push(info),
    {
        match self.find_tunnel(info.subdomain.as_str()) {
            Some(_) => Err(TunnelError::SubdomainTaken(info.subdomain)),
            None => {
                self.tunnels.push(info);
                Ok(())
            },
        }
    }

    /// Remove and return the tunnel for `subdomain`. Fails, changing
    /// nothing, exactly when it is absent.
    pub fn remove_tunnel(&mut self, subdomain: &str) -> (r: Result<TunnelInfo, TunnelError>)
        requires
            old(self).wf(),
        ensures
            final(self).wf(),
            final(self).verified_keys == old(self).verified_keys,
            final(self).rate_limits == old(self).rate_limits,
            has_tunnel(old(self).tunnels@, subdomain@) ==> (r matches Ok(t) && t == old(
                self,
            ).tunnels@[tunnel_index(old(self).tunnels@, subdomain@)] && final(self).tunnels@ == old(
                self,
            ).tunnels@.remove(tunnel_index(old(self).tunnels@, subdomain@))),
            !has_tunnel(old(self).tunnels@, subdomain@) ==> (r matches Err(
                TunnelError::TunnelNotFound(s),
            ) && s@ == subdomain@ && final(self).tunnels == old(self).tunnels),
    {
        match self.find_tunnel(subdomain) {
            Some(i) => {
                proof {
                    assert(tunnel_index(self.tunnels@, subdomain@) == i);
                }
                let t = self.tunnels.remove(i);
                proof {
                    lemma_tunnels_wf_remove(old(self).tunnels@, i as int);
                }
                Ok(t)
            },
            None => Err(TunnelError::TunnelNotFound(subdomain.to_owned())),
        }
    }

    /// Look up the tunnel for `subdomain`.
    pub fn get_tunnel(&self, subdomain: &str) -> (r: Option<TunnelInfo>)
        requires
            self.wf(),
        ensures
            has_tunnel(self.tunnels@, subdomain@) ==> (r matches Some(t) && t
                == self.tunnels@[tunnel_index(self.tunnels@, subdomain@)]),
            !has_tunnel(self.tunnels@, subdomain@) ==> r is None,
    {
        match self.find_tunnel(subdomain) {
            Some(i) => {
                proof {
                    assert(tunnel_index(self.tunnels@, subdomain@) == i);
                }
                Some(self.tunnels[i].duplicate())
            },
            None => None,
        }
    }

    /// Whether `subdomain` is taken by a still-connected tunnel; disconnected
    /// entries do not count.
    pub fn is_subdomain_taken(&self, subdomain: &str) -> (r: bool)
        requires
            self.wf(),
        ensures
            r == (has_tunnel(self.tunnels@, subdomain@) && self.tunnels@[tunnel_index(
                self.tunnels@,
                subdomain@,
            )].is_connected),
    {
        match self.find_tunnel(subdomain) {
            Some(i) => {
                proof {
                    assert(tunnel_index(self.tunnels@, subdomain@) == i);
                }
                self.tunnels[i].is_connected
            },
            None => false,
        }
    }

    /// All registered tunnels, in registration order.
    pub fn list_tunnels(&self) -> (r: Vec<TunnelInfo>)
        ensures
            r@ == self.tunnels@,
    {
        let n = self.tunnels.len();
        let mut out: Vec<TunnelInfo> = Vec::new();
        let mut i: usize = 0;
        while i < n
            invariant
                i <= n,
                n == self.tunnels@.len(),
                out@ =~= self.tunnels@.subrange(0, i as int),
            decreases n - i,
        {
            out.push(self.tunnels[i].duplicate());
            i += 1;
        }
        proof {
            assert(out@ =~= self.tunnels@);
        }
        out
    }

    /// Mark the tunnel for `subdomain` as disconnected, stamping the
    /// disconnection time; absent subdomains are left alone.
    pub fn mark_tunnel_disconnected(&mut self, subdomain: &str, now_ms: u64)
        requires
            old(self).wf(),
        ensures
            final(self).wf(),
            final(self).verified_keys == old(self).verified_keys,
            final(self).rate_limits == old(self).rate_limits,
            has_tunnel(old(self).tunnels@, subdomain@) ==> final(self).tunnels@ == old(
                self,
            ).tunnels@.update(
                tunnel_index(old(self).tunnels@, subdomain@),
                TunnelInfo {
                    is_connected: false,
                    disconnected_at: Some(now_ms),
                    ..old(self).tunnels@[tunnel_index(old(self).tunnels@, subdomain@)]
                },
            ),
            !has_tunnel(old(self).tunnels@, subdomain@) ==> final(self).tunnels == old(
                self,
            ).tunnels,
    {
        match self.find_tunnel(subdomain) {
            Some(i) => {
                proof {
                    assert(tunnel_index(self.tunnels@, subdomain@) == i);
                }
                let mut t = self.tunnels.remove(i);
                t.is_connected = false;
                t.disconnected_at = Some(now_ms);
                self.tunnels.insert(i, t);
                proof {
                    assert(self.tunnels@ =~= old(self).tunnels@.update(
                        i as int,
                        TunnelInfo {
                            is_connected: false,
                            disconnected_at: Some(now_ms),
                            ..old(self).tunnels@[i as int]
                        },
                    ));
                }
            },
            None => {},
        }
    }

    /// Sweep out tunnels that have been disconnected for 30 minutes or more.
    pub fn cleanup_expired_tunnels(&mut self, now_ms: u64)
        requires
            old(self).wf(),
        ensures
            final(self).wf(),
            final(self).verified_keys == old(self).verified_keys,
            final(self).rate_limits == old(self).rate_limits,
            final(self).tunnels@ == retained(
                old(self).tunnels@,
                |t: TunnelInfo| tunnel_live(t, now_ms),
            ),
    {
        let ghost orig = self.tunnels@;
        let ghost pred = |t: TunnelInfo| tunnel_live(t, now_ms);
        let n = self.tunnels.len();
        let mut kept: Vec<TunnelInfo> = Vec::new();
        let mut i: usize = 0;
        while i < n
            invariant
                i <= n,
                n == self.tunnels@.len(),
                self.tunnels@ == orig,
                pred == (|t: TunnelInfo| tunnel_live(t, now_ms)),
                kept@ == retained(orig.subrange(0, i as int), pred),
            decreases n - i,
        {
            let t = &self.tunnels[i];
            let expired = match t.disconnected_at {
                Some(d) => d <= now_ms && now_ms - d >= DISCONNECTED_TUNNEL_TTL_MS,
                None => false,
            };
            proof {
                assert(orig.subrange(0, i + 1).drop_last() =~= orig.subrange(0, i as int));
                assert(orig.subrange(0, i + 1).last() == orig[i as int]);
            }
            if !expired {
                kept.push(self.tunnels[i].duplicate());
            }
            i += 1;
        }
        proof {
            assert(orig.subrange(0, n as int) =~= orig);
        }
        self.tunnels = kept;
        proof {
            lemma_retained_contains(orig, pred);
            lemma_tunnels_wf_retained(orig, pred);
        }
    }

    /// The position of the key entry for `fingerprint`, if any.
    fn find_key(&self, fingerprint: &str) -> (r: Option<usize>)
        ensures
            r matches Some(i) ==> i < self.verified_keys@.len() && self.verified_keys@[
                i as int
            ].fingerprint@ == fingerprint@,
            r is None ==> !has_key(self.verified_keys@, fingerprint@),
    {
        let n = self.verified_keys.len();
        let mut i: usize = 0;
        while i < n
            invariant
                i <= n,
                n == self.verified_keys@.len(),
                forall|j: int| 0 <= j < i ==> self.verified_keys@[j].fingerprint@ != fingerprint@,
            decreases n - i,
        {
            if str_eq(self.verified_keys[i].fingerprint.as_str(), fingerprint) {
                return Some(i);
            }
            i += 1;
        }
        None
    }

    /// Save a verified fingerprint: refresh an existing entry (stamp the
    /// time, remember the subdomain for the port, adopt a new display name if
    /// one is given) or create a fresh one.
    pub fn save_verified_key(
        &mut self,
        fingerprint: &str,
        user_id: &str,
        display_name: Option<&str>,
        client_port: u32,
        subdomain: &str,
        now_ms: u64,
    )
        requires
            old(self).wf(),
        ensures
            final(self).wf(),
            final(self).tunnels == old(self).tunnels,
            final(self).rate_limits == old(self).rate_limits,
            has_key(old(self).verified_keys@, fingerprint@) ==> {
                &&& final(self).verified_keys@.len() == old(self).verified_keys@.len()
                &&& forall|j: int|
                    0 <= j < old(self).verified_keys@.len() && j != key_index(
                        old(self).verified_keys@,
                        fingerprint@,
                    ) ==> final(self).verified_keys@[j] == old(self).verified_keys@[j]
                &&& key_refreshed(
                    old(self).verified_keys@[key_index(old(self).verified_keys@, fingerprint@)],
                    final(self).verified_keys@[key_index(old(self).verified_keys@, fingerprint@)],
                    display_name,
                    client_port,
                    subdomain@,
                    now_ms,
                )
            },
            !has_key(old(self).verified_keys@, fingerprint@) ==> {
                &&& final(self).verified_keys@.len() == old(self).verified_keys@.len() + 1
                &&& forall|j: int|
                    0 <= j < old(self).verified_keys@.len() ==> final(self).verified_keys@[j]
                        == old(self).verified_keys@[j]
                &&& final(self).verified_keys@.last().fingerprint@ == fingerprint@
                &&& key_fresh(
                    final(self).verified_keys@.last().key,
                    user_id@,
                    display_name,
                    client_port,
                    subdomain@,
                    now_ms,
                )
            },
    {
        match self.find_key(fingerprint) {
            Some(i) => {
                proof {
                    assert(key_index(self.verified_keys@, fingerprint@) == i);
                }
                let mut rec = self.verified_keys.remove(i);
                rec.key.verified_at = now_ms;
                if let Some(d) = display_name {
                    rec.key.display_name = Some(d.to_owned());
                }
                set_port_subdomain(&mut rec.key.subdomains, client_port, subdomain);
                self.verified_keys.insert(i, rec);
                proof {
                    assert forall|j: int|
                        0 <= j < self.verified_keys@.len() && j != i implies self.verified_keys@[j]
                        == old(self).verified_keys@[j] by {}
                    assert(keys_wf(self.verified_keys@));
                }
            },
            None => {
                let mut key = VerifiedKey::new_at(
                    user_id.to_owned(),
                    match display_name {
                        Some(d) => Some(d.to_owned()),
                        None => None,
                    },
                    now_ms,
                );
                set_port_subdomain(&mut key.subdomains, client_port, subdomain);
                self.verified_keys.push(KeyRecord { fingerprint: fingerprint.to_owned(), key });
                proof {
                    assert(keys_wf(self.verified_keys@));
                }
            },
        }
    }

    /// Remember `subdomain` for `client_port` on an existing key; absent
    /// fingerprints are left alone.
    pub fn update_verified_key_subdomain(
        &mut self,
        fingerprint: &str,
        client_port: u32,
        subdomain: &str,
    )
        requires
            old(self).wf(),
        ensures
            final(self).wf(),
            final(self).tunnels == old(self).tunnels,
            final(self).rate_limits == old(self).rate_limits,
            has_key(old(self).verified_keys@, fingerprint@) ==> {
                &&& final(self).verified_keys@.len() == old(self).verified_keys@.len()
                &&& forall|j: int|
                    0 <= j < old(self).verified_keys@.len() && j != key_index(
                        old(self).verified_keys@,
                        fingerprint@,
                    ) ==> final(self).verified_keys@[j] == old(self).verified_keys@[j]
                &&& {
                    let oldrec = old(self).verified_keys@[key_index(
                        old(self).verified_keys@,
                        fingerprint@,
                    )];
                    let newrec = final(self).verified_keys@[key_index(
                        old(self).verified_keys@,
                        fingerprint@,
                    )];
                    &&& newrec.fingerprint == oldrec.fingerprint
                    &&& newrec.key.user_id == oldrec.key.user_id
                    &&& newrec.key.display_name == oldrec.key.display_name
                    &&& newrec.key.verified_at == oldrec.key.verified_at
                    &&& port_map_insert(
                        oldrec.key.subdomains@,
                        newrec.key.subdomains@,
                        client_port,
                        subdomain@,
                    )
                }
            },
            !has_key(old(self).verified_keys@, fingerprint@) ==> final(self).verified_keys == old(
                self,
            ).verified_keys,
    {
        match self.find_key(fingerprint) {
            Some(i) => {
                proof {
                    assert(key_index(self.verified_keys@, fingerprint@) == i);
                }
                let mut rec = self.verified_keys.remove(i);
                set_port_subdomain(&mut rec.key.subdomains, client_port, subdomain);
                self.verified_keys.insert(i, rec);
                proof {
                    assert(keys_wf(self.verified_keys@));
                }
            },
            None => {},
        }
    }

    /// Look up a verified key; an expired entry reads as absent.
    pub fn get_verified_key(&self, fingerprint: &str, now_ms: u64) -> (r: Option<VerifiedKey>)
        requires
            self.wf(),
        ensures
            (has_key(self.verified_keys@, fingerprint@) && !self.verified_keys@[key_index(
                self.verified_keys@,
                fingerprint@,
            )].key.expired_at(now_ms)) <==> r is Some,
            r matches Some(k) ==> key_like(
                k,
                self.verified_keys@[key_index(self.verified_keys@, fingerprint@)].key,
            ),
    {
        match self.find_key(fingerprint) {
            Some(i) => {
                proof {
                    assert(key_index(self.verified_keys@, fingerprint@) == i);
                }
                let rec = &self.verified_keys[i];
                if rec.key.is_expired_at(now_ms) {
                    None
                } else {
                    Some(rec.key.duplicate())
                }
            },
            None => None,
        }
    }

    /// Sweep out verified keys that have expired.
    pub fn cleanup_expired_keys(&mut self, now_ms: u64)
        requires
            old(self).wf(),
        ensures
            final(self).wf(),
            final(self).tunnels == old(self).tunnels,
            final(self).rate_limits == old(self).rate_limits,
            final(self).verified_keys@ == retained(
                old(self).verified_keys@,
                |k: KeyRecord| !k.key.expired_at(now_ms),
            ),
    {
        let ghost orig = self.verified_keys@;
        let ghost pred = |k: KeyRecord| !k.key.expired_at(now_ms);
        let ghost n = orig.len() as int;
        let mut i: usize = 0;
        let ghost mut j: int = 0;
        while i < self.verified_keys.len()
            invariant
                0 <= j <= n,
                n == orig.len(),
                pred == (|k: KeyRecord| !k.key.expired_at(now_ms)),
                i == retained(orig.subrange(0, j), pred).len(),
                self.verified_keys@ =~= retained(orig.subrange(0, j), pred) + orig.subrange(j, n),
                self.tunnels == old(self).tunnels,
                self.rate_limits == old(self).rate_limits,
            decreases n - j,
        {
            proof {
                assert(orig.subrange(0, j + 1).drop_last() =~= orig.subrange(0, j));
                assert(orig.subrange(0, j + 1).last() == orig[j]);
                assert(self.verified_keys@[i as int] == orig[j]);
            }
            if self.verified_keys[i].key.is_expired_at(now_ms) {
                let _ = self.verified_keys.remove(i);
                proof {
                    j = j + 1;
                    assert(self.verified_keys@ =~= retained(orig.subrange(0, j), pred)
                        + orig.subrange(j, n));
                }
            } else {
                i += 1;
                proof {
                    j = j + 1;
                    assert(self.verified_keys@ =~= retained(orig.subrange(0, j), pred)
                        + orig.subrange(j, n));
                }
            }
        }
        proof {
            assert(retained(orig.subrange(0, j), pred).len() + (n - j)
                == self.verified_keys@.len());
            assert(j == n);
            assert(orig.subrange(0, n) =~= orig);
            assert(self.verified_keys@ =~= retained(orig, pred));
            lemma_retained_contains(orig, pred);
            lemma_keys_wf_retained(orig, pred);
        }
    }

    /// The position of the rate-limit entry for `ip`, if any.
    fn find_limit(&self, ip: &str) -> (r: Option<usize>)
        ensures
            r matches Some(i) ==> i < self.rate_limits@.len() && self.rate_limits@[i as int].ip@
                == ip@,
            r is None ==> !has_limit(self.rate_limits@, ip@),
    {
        let n = self.rate_limits.len();
        let mut i: usize = 0;
        while i < n
            invariant
                i <= n,
                n == self.rate_limits@.len(),
                forall|j: int| 0 <= j < i ==> self.rate_limits@[j].ip@ != ip@,
            decreases n - i,
        {
            if str_eq(self.rate_limits[i].ip.as_str(), ip) {
                return Some(i);
            }
            i += 1;
        }
        None
    }

    /// Check the device-flow rate limit for `ip` and record the request, as
    /// one atomic step. Returns true, recording nothing, exactly when the
    /// request is rejected.
    pub fn check_and_record_device_flow(&mut self, ip: &str, now_ms: u64) -> (r: bool)
        requires
            old(self).wf(),
        ensures
            final(self).wf(),
            final(self).tunnels == old(self).tunnels,
            final(self).verified_keys == old(self).verified_keys,
            r == (has_limit(old(self).rate_limits@, ip@) && old(self).rate_limits@[limit_index(
                old(self).rate_limits@,
                ip@,
            )].entry.limited_at(now_ms)),
            r ==> final(self).rate_limits == old(self).rate_limits,
            (!r && has_limit(old(self).rate_limits@, ip@)) ==> final(self).rate_limits@ == old(
                self,
            ).rate_limits@.update(
                limit_index(old(self).rate_limits@, ip@),
                RateLimitRecord {
                    ip: old(self).rate_limits@[limit_index(old(self).rate_limits@, ip@)].ip,
                    entry: old(self).rate_limits@[limit_index(
                        old(self).rate_limits@,
                        ip@,
                    )].entry.recorded_at(now_ms),
                },
            ),
            !has_limit(old(self).rate_limits@, ip@) ==> {
                &&& final(self).rate_limits@.len() == old(self).rate_limits@.len() + 1
                &&& forall|j: int|
                    0 <= j < old(self).rate_limits@.len() ==> final(self).rate_limits@[j] == old(
                        self,
                    ).rate_limits@[j]
                &&& final(self).rate_limits@.last().ip@ == ip@
                &&& final(self).rate_limits@.last().entry == (RateLimitEntry {
                    last_request: now_ms,
                    attempts: 1u32,
                    window_start: now_ms,
                })
            },
    {
        match self.find_limit(ip) {
            Some(i) => {
                proof {
                    assert(limit_index(self.rate_limits@, ip@) == i);
                }
                if self.rate_limits[i].entry.is_rate_limited_at(now_ms) {
                    true
                } else {
                    let mut rec = self.rate_limits.remove(i);
                    rec.entry.record_attempt_at(now_ms);
                    self.rate_limits.insert(i, rec);
                    proof {
                        assert(self.rate_limits@ =~= old(self).rate_limits@.update(
                            i as int,
                            RateLimitRecord {
                                ip: old(self).rate_limits@[i as int].ip,
                                entry: old(self).rate_limits@[i as int].entry.recorded_at(now_ms),
                            },
                        ));
                        assert(limits_wf(self.rate_limits@));
                    }
                    false
                }
            },
            None => {
                self.rate_limits.push(
                    RateLimitRecord { ip: ip.to_owned(), entry: RateLimitEntry::new_at(now_ms) },
                );
                proof {
                    assert(limits_wf(self.rate_limits@));
                }
                false
            },
        }
    }

    /// Sweep out rate-limit entries whose window is two windows old (or whose
    /// stamp reads after the clock).
    pub fn cleanup_rate_limits(&mut self, now_ms: u64)
        requires
            old(self).wf(),
        ensures
            final(self).wf(),
            final(self).tunnels == old(self).tunnels,
            final(self).verified_keys == old(self).verified_keys,
            final(self).rate_limits@ == retained(
                old(self).rate_limits@,
                |l: RateLimitRecord| limit_recent(l, now_ms),
            ),
    {
        let ghost orig = self.rate_limits@;
        let ghost pred = |l: RateLimitRecord| limit_recent(l, now_ms);
        let n = self.rate_limits.len();
        let mut kept: Vec<RateLimitRecord> = Vec::new();
        let mut i: usize = 0;
        while i < n
            invariant
                i <= n,
                n == self.rate_limits@.len(),
                self.rate_limits@ == orig,
                pred == (|l: RateLimitRecord| limit_recent(l, now_ms)),
                kept@ == retained(orig.subrange(0, i as int), pred),
            decreases n - i,
        {
            proof {
                assert(orig.subrange(0, i + 1).drop_last() =~= orig.subrange(0, i as int));
                assert(orig.subrange(0, i + 1).last() == orig[i as int]);
            }
            let rec = &self.rate_limits[i];
            if rec.entry.window_start <= now_ms && now_ms - rec.entry.window_start < 2
                * DEVICE_FLOW_WINDOW_MS {
                kept.push(
                    RateLimitRecord {
                        ip: rec.ip.clone(),
                        entry: RateLimitEntry {
                            last_request: rec.entry.last_request,
                            attempts: rec.entry.attempts,
                            window_start: rec.entry.window_start,
                        },
                    },
                );
            }
            i += 1;
        }
        proof {
            assert(orig.subrange(0, n as int) =~= orig);
        }
        self.rate_limits = kept;
        proof {
            lemma_retained_contains(orig, pred);
            lemma_limits_wf_retained(orig, pred);
        }
    }
}

/// A rate-limit entry young enough to keep at the sweep: its window opened
/// less than two windows ago.
pub open spec fn limit_recent(l: RateLimitRecord, now_ms: u64) -> bool {
    l.entry.window_start <= now_ms && now_ms - l.entry.window_start < 2 * DEVICE_FLOW_WINDOW_MS
}

/// The refresh that `save_verified_key` applies to an existing entry.
pub open spec fn key_refreshed(
    oldrec: KeyRecord,
    newrec: KeyRecord,
    display_name: Option<&str>,
    port: u32,
    sub: Seq<char>,
    now_ms: u64,
) -> bool {
    &&& newrec.fingerprint == oldrec.fingerprint
    &&& newrec.key.user_id == oldrec.key.user_id
    &&& newrec.key.verified_at == now_ms
    &&& (display_name matches Some(d) ==> (newrec.key.display_name matches Some(x) && x@ == d@))
    &&& (display_name is None ==> newrec.key.display_name == oldrec.key.display_name)
    &&& port_map_insert(oldrec.key.subdomains@, newrec.key.subdomains@, port, sub)
}

/// The shape of the fresh entry that `save_verified_key` creates.
pub open spec fn key_fresh(
    key: VerifiedKey,
    user_id: Seq<char>,
    display_name: Option<&str>,
    port: u32,
    sub: Seq<char>,
    now_ms: u64,
) -> bool {
    &&& key.user_id@ == user_id
    &&& key.verified_at == now_ms
    &&& (display_name matches Some(d) ==> (key.display_name matches Some(x) && x@ == d@))
    &&& (display_name is None ==> key.display_name is None)
    &&& port_map_insert(Seq::<PortSubdomain>::empty(), key.subdomains@, port, sub)
}

/// Two verified keys that carry the same data.
pub open spec fn key_like(a: VerifiedKey, b: VerifiedKey) -> bool {
    &&& a.user_id == b.user_id
    &&& a.display_name == b.display_name
    &&& a.verified_at == b.verified_at
    &&& a.subdomains@ == b.subdomains@
}

impl VerifiedKey {
    /// A copy carrying the same data.
    pub fn duplicate(&self) -> (r: Self)
        ensures
            key_like(r, *self),
    {
        let n = self.subdomains.len();
        let mut subs: Vec<PortSubdomain> = Vec::new();
        let mut i: usize = 0;
        while i < n
            invariant
                i <= n,
                n == self.subdomains@.len(),
                subs@ =~= self.subdomains@.subrange(0, i as int),
            decreases n - i,
        {
            let e = &self.subdomains[i];
            subs.push(PortSubdomain { port: e.port, subdomain: e.subdomain.clone() });
            i += 1;
        }
        proof {
            assert(subs@ =~= self.subdomains@);
        }
        VerifiedKey {
            user_id: self.user_id.clone(),
            display_name: match &self.display_name {
                Some(d) => Some(d.clone()),
                None => None,
            },
            verified_at: self.verified_at,
            subdomains: subs,
        }
    }
}

/// Retention keeps the key table well-formed.
pub proof fn lemma_keys_wf_retained(ks: Seq<KeyRecord>, pred: spec_fn(KeyRecord) -> bool)
    requires
        keys_wf(ks),
    ensures
        keys_wf(retained(ks, pred)),
{
    lemma_retained_contains(ks, pred);
    let r = retained(ks, pred);
    assert forall|a: int, b: int|
        0 <= a < r.len() && 0 <= b < r.len() && a != b implies r[a].fingerprint@
        != r[b].fingerprint@ by {
        lemma_retained_distinct_sources(ks, pred, a, b);
    }
    assert forall|a: int| 0 <= a < r.len() implies ports_unique(
        (#[trigger] r[a]).key.subdomains@,
    ) by {
        assert(ks.contains(r[a]));
        let j = choose|j: int| 0 <= j < ks.len() && ks[j] == r[a];
    }
}

/// Retention keeps the rate-limit table well-formed.
pub proof fn lemma_limits_wf_retained(
    ls: Seq<RateLimitRecord>,
    pred: spec_fn(RateLimitRecord) -> bool,
)
    requires
        limits_wf(ls),
    ensures
        limits_wf(retained(ls, pred)),
{
    lemma_retained_contains(ls, pred);
    let r = retained(ls, pred);
    assert forall|a: int, b: int|
        0 <= a < r.len() && 0 <= b < r.len() && a != b implies r[a].ip@ != r[b].ip@ by {
        lemma_retained_distinct_sources(ls, pred, a, b);
    }
}

/// Two positions of the retained sequence come from two distinct positions
/// of the source.
pub proof fn lemma_retained_distinct_sources<A>(
    s: Seq<A>,
    pred: spec_fn(A) -> bool,
    a: int,
    b: int,
)
    requires
        0 <= a < retained(s, pred).len(),
        0 <= b < retained(s, pred).len(),
        a != b,
    ensures
        exists|i: int, j: int|
            0 <= i < s.len() && 0 <= j < s.len() && i != j && s[i] == retained(s, pred)[a] && s[j]
                == retained(s, pred)[b],
    decreases s.len(),
{
    let r = retained(s, pred);
    let rp = retained(s.drop_last(), pred);
    lemma_retained_contains(s.drop_last(), pred);
    if a < rp.len() && b < rp.len() {
        lemma_retained_distinct_sources(s.drop_last(), pred, a, b);
        let (i, j) = choose|i: int, j: int|
            0 <= i < s.drop_last().len() && 0 <= j < s.drop_last().len() && i != j && s.drop_last()[
                i
            ] == rp[a] && s.drop_last()[j] == rp[b];
        assert(s[i] == rp[a] && s[j] == rp[b]);
        assert(r[a] == rp[a] && r[b] == rp[b]);
    } else if a < rp.len() {
        assert(b == rp.len() && pred(s.last()) && r[b] == s.last());
        assert(s.drop_last().contains(rp[a]));
        let i = choose|i: int| 0 <= i < s.drop_last().len() && s.drop_last()[i] == rp[a];
        assert(s[i] == rp[a] && r[a] == rp[a]);
        assert(s[s.len() - 1] == s.last());
    } else {
        assert(a == rp.len() && pred(s.last()) && r[a] == s.last());
        assert(s.drop_last().contains(rp[b]));
        let j = choose|j: int| 0 <= j < s.drop_last().len() && s.drop_last()[j] == rp[b];
        assert(s[j] == rp[b] && r[b] == rp[b]);
        assert(s[s.len() - 1] == s.last());
    }
}

/// Removing an entry keeps the tunnel table well-formed.
pub proof fn lemma_tunnels_wf_remove(ts: Seq<TunnelInfo>, i: int)
    requires
        tunnels_wf(ts),
        0 <= i < ts.len(),
    ensures
        tunnels_wf(ts.remove(i)),
{
    let r = ts.remove(i);
    assert forall|a: int, b: int|
        0 <= a < r.len() && 0 <= b < r.len() && a != b implies r[a].subdomain@
        != r[b].subdomain@ by {
        let a0 = if a < i {
            a
        } else {
            a + 1
        };
        let b0 = if b < i {
            b
        } else {
            b + 1
        };
        assert(r[a] == ts[a0] && r[b] == ts[b0]);
    }
    assert forall|a: int| 0 <= a < r.len() implies (#[trigger] r[a]).connected_iff() by {
        let a0 = if a < i {
            a
        } else {
            a + 1
        };
        assert(r[a] == ts[a0]);
    }
}

/// Retention keeps the tunnel table well-formed.
pub proof fn lemma_tunnels_wf_retained(ts: Seq<TunnelInfo>, pred: spec_fn(TunnelInfo) -> bool)
    requires
        tunnels_wf(ts),
    ensures
        tunnels_wf(retained(ts, pred)),
    decreases ts.len(),
{
    if ts.len() > 0 {
        assert(tunnels_wf(ts.drop_last()));
        lemma_tunnels_wf_retained(ts.drop_last(), pred);
        lemma_retained_contains(ts.drop_last(), pred);
        let r = retained(ts, pred);
        let rp = retained(ts.drop_last(), pred);
        if pred(ts.last()) {
            assert forall|a: int, b: int|
                0 <= a < r.len() && 0 <= b < r.len() && a != b implies r[a].subdomain@
                != r[b].subdomain@ by {
                if a < rp.len() && b < rp.len() {
                    assert(r[a] == rp[a] && r[b] == rp[b]);
                } else if a < rp.len() {
                    assert(r[b] == ts.last() && r[a] == rp[a]);
                    assert(ts.drop_last().contains(rp[a]));
                    let j = choose|j: int|
                        0 <= j < ts.drop_last().len() && ts.drop_last()[j] == rp[a];
                    assert(ts[j] == rp[a] && ts[ts.len() - 1] == ts.last());
                } else {
                    assert(r[a] == ts.last() && r[b] == rp[b]);
                    assert(ts.drop_last().contains(rp[b]));
                    let j = choose|j: int|
                        0 <= j < ts.drop_last().len() && ts.drop_last()[j] == rp[b];
                    assert(ts[j] == rp[b] && ts[ts.len() - 1] == ts.last());
                }
            }
            assert forall|a: int| 0 <= a < r.len() implies (#[trigger] r[a]).connected_iff() by {
                if a < rp.len() {
                    assert(r[a] == rp[a]);
                } else {
                    assert(r[a] == ts.last() && ts[ts.len() - 1] == ts.last());
                }
            }
        }
    }
}


/// For all connected tunnels in a well-formed registry, the subdomain is
/// unique (indeed all entries' subdomains are, connected or not).
pub proof fn lemma_connected_subdomains_unique(ts: Seq<TunnelInfo>)
    requires
        tunnels_wf(ts),
    ensures
        forall|i: int, j: int|
            0 <= i < ts.len() && 0 <= j < ts.len() && i != j && ts[i].is_connected
                && ts[j].is_connected ==> ts[i].subdomain@ != ts[j].subdomain@,
{
}

/// For all entries of a well-formed registry, the disconnection stamp is
/// present exactly when the entry is disconnected.
pub proof fn lemma_disconnected_iff(ts: Seq<TunnelInfo>)
    requires
        tunnels_wf(ts),
    ensures
        forall|i: int|
            0 <= i < ts.len() ==> ((#[trigger] ts[i]).disconnected_at is Some <==> !ts[
                i
            ].is_connected),
{
}

/// Once a tunnel is disconnected at `d`, a sweep at any instant 30 minutes
/// or more later removes it, so a lookup of its subdomain misses: this is
/// the table `cleanup_expired_tunnels` leaves behind, and on it
/// `get_tunnel` answers `None`.
pub proof fn lemma_sweep_removes_expired(
    ts: Seq<TunnelInfo>,
    sub: Seq<char>,
    d: u64,
    now_ms: u64,
)
    requires
        tunnels_wf(ts),
        has_tunnel(ts, sub),
        ts[tunnel_index(ts, sub)].disconnected_at == Some(d),
        d <= now_ms,
        now_ms - d >= DISCONNECTED_TUNNEL_TTL_MS,
    ensures
        !has_tunnel(retained(ts, |t: TunnelInfo| tunnel_live(t, now_ms)), sub),
{
    lemma_retained_tunnel_lookup(ts, |t: TunnelInfo| tunnel_live(t, now_ms), sub);
}

/// The device-flow rate limit is monotone: a rejected request records
/// nothing (see `check_and_record_device_flow`), so the entry stands, and
/// any further request within 10 seconds of the entry's last recorded
/// request is rejected as well. (Rejection owed only to the attempts
/// window does not outlast that window: an entry with five attempts is
/// rejected at second 55 of its window but accepted at second 61, so the
/// law is stated over the 10-second clause.)
pub proof fn lemma_rate_limit_monotone(e: RateLimitEntry, t1: u64, t2: u64)
    requires
        e.limited_at(t1),
        e.last_request <= t1 <= t2,
        t2 - e.last_request < DEVICE_FLOW_RATE_LIMIT_MS,
    ensures
        e.limited_at(t2),
{
}

/// Registering a fresh subdomain and then removing it restores the table:
/// `register_tunnel` appends the entry, and `remove_tunnel` takes exactly
/// that entry back out.
pub proof fn lemma_register_then_remove(ts: Seq<TunnelInfo>, info: TunnelInfo)
    requires
        tunnels_wf(ts),
        !has_tunnel(ts, info.subdomain@),
    ensures
        has_tunnel(ts.push(info), info.subdomain@),
        tunnel_index(ts.push(info), info.subdomain@) == ts.len(),
        ts.push(info).remove(ts.len() as int) == ts,
{
    let ts2 = ts.push(info);
    assert(ts2[ts.len() as int] == info);
    assert forall|i: int|
        0 <= i < ts2.len() && ts2[i].subdomain@ == info.subdomain@ implies i == ts.len() by {
        if i < ts.len() {
            assert(ts[i] == ts2[i]);
        }
    }
    assert(ts2.remove(ts.len() as int) =~= ts);
}

/// Registering the same subdomain twice: after the first registration the
/// subdomain is present, so the second attempt falls under the conflict
/// clause of `register_tunnel`, which reports `SubdomainTaken` and leaves
/// the table unchanged.
pub proof fn lemma_register_register(ts: Seq<TunnelInfo>, info: TunnelInfo, sub2: Seq<char>)
    requires
        sub2 == info.subdomain@,
    ensures
        has_tunnel(ts.push(info), sub2),
{
    assert(ts.push(info)[ts.len() as int] == info);
}

} // verus!
