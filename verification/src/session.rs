//! Decision logic of the per-connection SSH handler: username
//! interpretation, the verification state machine's transitions, the
//! double-ESC disconnect, deferred ready messages, and session cleanup.
//! The SSH transport invokes these through the runtime around this
//! library, which performs the chosen actions.

use vstd::prelude::*;
use vstd::string::StringExecFns;
use crate::state::{
    has_limit, has_tunnel, limit_index, tunnel_index, AppState, TunnelInfo, VerifiedKey,
};
use crate::text::str_eq;
use crate::types::{ports_unique, PendingTunnel, PortSubdomain, SharedHandlerState,
    VerificationStatus};

verus! {

/// The message shown when device-flow starts are rate limited.
pub open spec fn rate_limited_reason() -> Seq<char> {
    "Rate limited: too many Device Flow requests. Please wait before trying again."@
}

/// The fields of the session state not named by a transition's contract.
pub open spec fn same_but_status(a: SharedHandlerState, b: SharedHandlerState) -> bool {
    &&& b.pending_tunnels == a.pending_tunnels
    &&& b.registered_subdomains == a.registered_subdomains
    &&& b.subdomain_counter == a.subdomain_counter
    &&& b.session_handle == a.session_handle
    &&& b.session_channel_id == a.session_channel_id
    &&& b.esc_pressed == a.esc_pressed
    &&& b.last_esc_time == a.last_esc_time
    &&& b.last_subdomains == a.last_subdomains
    &&& b.pending_tunnel_port == a.pending_tunnel_port
    &&& b.requested_subdomain == a.requested_subdomain
}

/// Interpret the SSH username: `.` asks for a random subdomain; any other
/// name is stored as the explicitly requested subdomain.
pub fn interpret_username(state: &mut SharedHandlerState, username: &str)
    requires
        old(state).wf(),
    ensures
        final(state).wf(),
        username@ == "."@ ==> final(state).requested_subdomain is None,
        username@ != "."@ ==> (final(state).requested_subdomain matches Some(r) && r@
            == username@),
        final(state).verification_status == old(state).verification_status,
        final(state).pending_tunnels == old(state).pending_tunnels,
        final(state).registered_subdomains == old(state).registered_subdomains,
        final(state).subdomain_counter == old(state).subdomain_counter,
        final(state).session_handle == old(state).session_handle,
        final(state).session_channel_id == old(state).session_channel_id,
        final(state).esc_pressed == old(state).esc_pressed,
        final(state).last_esc_time == old(state).last_esc_time,
        final(state).last_subdomains == old(state).last_subdomains,
        final(state).pending_tunnel_port == old(state).pending_tunnel_port,
{
    if str_eq(username, ".") {
        state.requested_subdomain = None;
    } else {
        state.requested_subdomain = Some(username.to_owned());
    }
}

/// Record that authentication succeeded and the session handle is known.
pub fn note_auth_succeeded(state: &mut SharedHandlerState, handle_id: u64)
    requires
        old(state).wf(),
    ensures
        final(state).wf(),
        final(state).session_handle == Some(handle_id),
        same_but_handle(*old(state), *final(state)),
{
    state.session_handle = Some(handle_id);
}

/// The fields untouched when the session handle is recorded.
pub open spec fn same_but_handle(a: SharedHandlerState, b: SharedHandlerState) -> bool {
    &&& b.verification_status == a.verification_status
    &&& b.pending_tunnels == a.pending_tunnels
    &&& b.registered_subdomains == a.registered_subdomains
    &&& b.subdomain_counter == a.subdomain_counter
    &&& b.session_channel_id == a.session_channel_id
    &&& b.esc_pressed == a.esc_pressed
    &&& b.last_esc_time == a.last_esc_time
    &&& b.last_subdomains == a.last_subdomains
    &&& b.pending_tunnel_port == a.pending_tunnel_port
    &&& b.requested_subdomain == a.requested_subdomain
}

/// Apply a cached verified key at authentication time: the session jumps
/// straight to `Verified` and the key's port-to-subdomain memory seeds the
/// reconnection rules.
pub fn apply_cached_key(state: &mut SharedHandlerState, key: &VerifiedKey)
    requires
        old(state).wf(),
        ports_unique(key.subdomains@),
    ensures
        final(state).wf(),
        final(state).verification_status matches VerificationStatus::Verified {
            user_id,
            display_name,
        } && user_id@ == key.user_id@ && (key.display_name matches Some(d) ==> display_name@
            == d@) && (key.display_name is None ==> display_name@ == crate::device::truncated_id(
            key.user_id@,
        )),
        final(state).last_subdomains@ == key.subdomains@,
        final(state).pending_tunnels == old(state).pending_tunnels,
        final(state).registered_subdomains == old(state).registered_subdomains,
        final(state).subdomain_counter == old(state).subdomain_counter,
        final(state).session_handle == old(state).session_handle,
        final(state).session_channel_id == old(state).session_channel_id,
        final(state).esc_pressed == old(state).esc_pressed,
        final(state).last_esc_time == old(state).last_esc_time,
        final(state).pending_tunnel_port == old(state).pending_tunnel_port,
        final(state).requested_subdomain == old(state).requested_subdomain,
{
    let display_name = key.get_display_name();
    state.verification_status = VerificationStatus::Verified {
        user_id: key.user_id.clone(),
        display_name,
    };
    let n = key.subdomains.len();
    let mut subs: Vec<PortSubdomain> = Vec::new();
    let mut i: usize = 0;
    while i < n
        invariant
            i <= n,
            n == key.subdomains@.len(),
            subs@ =~= key.subdomains@.subrange(0, i as int),
        decreases n - i,
    {
        let e = &key.subdomains[i];
        subs.push(PortSubdomain { port: e.port, subdomain: e.subdomain.clone() });
        i += 1;
    }
    proof {
        assert(subs@ =~= key.subdomains@);
    }
    state.last_subdomains = subs;
}

/// What the handler does with a reverse-forward request.
#[derive(Debug, Clone, PartialEq)]
pub enum ForwardDecision {
    /// The session is verified: create the tunnel now.
    CreateNow,
    /// Not verified yet: the request was queued; start device flow first if
    /// the flag says so.
    Queued { start_flow: bool },
}

/// Decide what to do with a `tcpip-forward` request: a verified session
/// creates the tunnel at once; otherwise the request is queued for the
/// verification worker, and device flow starts if it has not yet.
pub fn decide_tcpip_forward(state: &mut SharedHandlerState, address: &str, port: u32) -> (r:
    ForwardDecision)
    requires
        old(state).wf(),
    ensures
        final(state).wf(),
        old(state).verification_status is Verified ==> (r == ForwardDecision::CreateNow
            && *final(state) == *old(state)),
        !(old(state).verification_status is Verified) ==> (r matches ForwardDecision::Queued {
            start_flow,
        } && start_flow == (old(state).verification_status is NotStarted) && queued_post(
            *old(state),
            *final(state),
            address@,
            port,
        )),
{
    if state.is_verified() {
        return ForwardDecision::CreateNow;
    }
    let start_flow = matches!(state.verification_status, VerificationStatus::NotStarted);
    state.pending_tunnels.push(PendingTunnel { address: address.to_owned(), port });
    ForwardDecision::Queued { start_flow }
}

/// The queueing a forward request performs: one more pending tunnel with
/// this address and port; nothing else moves.
pub open spec fn queued_post(
    a: SharedHandlerState,
    b: SharedHandlerState,
    address: Seq<char>,
    port: u32,
) -> bool {
    &&& b.pending_tunnels@.len() == a.pending_tunnels@.len() + 1
    &&& forall|j: int|
        0 <= j < a.pending_tunnels@.len() ==> b.pending_tunnels@[j] == a.pending_tunnels@[j]
    &&& b.pending_tunnels@.last().address@ == address
    &&& b.pending_tunnels@.last().port == port
    &&& same_but_pending(a, b)
}

/// The fields untouched when a forward request is queued.
pub open spec fn same_but_pending(a: SharedHandlerState, b: SharedHandlerState) -> bool {
    &&& b.verification_status == a.verification_status
    &&& b.registered_subdomains == a.registered_subdomains
    &&& b.subdomain_counter == a.subdomain_counter
    &&& b.session_handle == a.session_handle
    &&& b.session_channel_id == a.session_channel_id
    &&& b.esc_pressed == a.esc_pressed
    &&& b.last_esc_time == a.last_esc_time
    &&& b.last_subdomains == a.last_subdomains
    &&& b.pending_tunnel_port == a.pending_tunnel_port
    &&& b.requested_subdomain == a.requested_subdomain
}

/// Check the device-flow rate limit for this session's IP and record the
/// start attempt, atomically. When the limit strikes, the session fails
/// with the rate-limit message and true comes back; a session without a
/// known peer IP is never limited.
pub fn check_flow_rate(
    state: &mut SharedHandlerState,
    registry: &mut AppState,
    ip: Option<&str>,
    now_ms: u64,
) -> (r: bool)
    requires
        old(state).wf(),
        old(registry).wf(),
    ensures
        final(state).wf(),
        final(registry).wf(),
        final(registry).tunnels == old(registry).tunnels,
        final(registry).verified_keys == old(registry).verified_keys,
        r == (ip matches Some(i) && has_limit(old(registry).rate_limits@, i@) && old(
            registry,
        ).rate_limits@[limit_index(old(registry).rate_limits@, i@)].entry.limited_at(now_ms)),
        r ==> (final(state).verification_status matches VerificationStatus::Failed { reason }
            && reason@ == rate_limited_reason() && same_but_status(*old(state), *final(state))
            && final(registry).rate_limits == old(registry).rate_limits),
        !r ==> *final(state) == *old(state),
        ip matches Some(i) ==> (!r ==> has_limit(final(registry).rate_limits@, i@)),
        ip is None ==> final(registry).rate_limits == old(registry).rate_limits,
{
    match ip {
        Some(i) => {
            if registry.check_and_record_device_flow(i, now_ms) {
                state.verification_status = VerificationStatus::Failed {
                    reason: String::from_str(
                        "Rate limited: too many Device Flow requests. Please wait before trying again.",
                    ),
                };
                true
            } else {
                proof {
                    if has_limit(old(registry).rate_limits@, i@) {
                        let k = limit_index(old(registry).rate_limits@, i@);
                        assert(registry.rate_limits@[k].ip@ == i@);
                    } else {
                        assert(registry.rate_limits@.last().ip@ == i@);
                        assert(registry.rate_limits@[registry.rate_limits@.len() - 1].ip@ == i@);
                    }
                }
                false
            }
        },
        None => false,
    }
}

/// Record that the activation code was registered with the web service:
/// the session is now pending on that code.
pub fn note_flow_registered(state: &mut SharedHandlerState, code: &str)
    requires
        old(state).wf(),
    ensures
        final(state).wf(),
        final(state).verification_status matches VerificationStatus::Pending { code: c } && c@
            == code@,
        same_but_status(*old(state), *final(state)),
{
    state.verification_status = VerificationStatus::Pending { code: code.to_owned() };
}

/// Record that registering the activation code failed: the session fails
/// with the underlying error text.
pub fn note_flow_register_failed(state: &mut SharedHandlerState, error_text: &str)
    requires
        old(state).wf(),
    ensures
        final(state).wf(),
        final(state).verification_status matches VerificationStatus::Failed { reason } && reason@
            == "Failed to register code: "@ + error_text@,
        same_but_status(*old(state), *final(state)),
{
    let mut reason = String::from_str("Failed to register code: ");
    reason.append(error_text);
    state.verification_status = VerificationStatus::Failed { reason };
}

/// The ready-message pairs for a port: every owned subdomain with that
/// port.
pub open spec fn ready_pairs(regs: Seq<String>, port: u32, pairs: Seq<(String, u32)>) -> bool {
    &&& pairs.len() == regs.len()
    &&& forall|j: int| 0 <= j < pairs.len() ==> (#[trigger] pairs[j]).0@ == regs[j]@ && pairs[j].1
        == port
}

/// The display name a message shows: the verified one, or `unknown`.
pub open spec fn display_of(status: VerificationStatus) -> Seq<char> {
    match status {
        VerificationStatus::Verified { display_name, .. } => display_name@,
        _ => "unknown"@,
    }
}

/// Builds the ready-message pairs for a port.
fn build_ready_pairs(regs: &Vec<String>, port: u32) -> (r: Vec<(String, u32)>)
    ensures
        ready_pairs(regs@, port, r@),
{
    let n = regs.len();
    let mut out: Vec<(String, u32)> = Vec::new();
    let mut i: usize = 0;
    while i < n
        invariant
            i <= n,
            n == regs@.len(),
            out@.len() == i,
            forall|j: int| 0 <= j < i ==> (#[trigger] out@[j]).0@ == regs@[j]@ && out@[j].1 == port,
        decreases n - i,
    {
        out.push((regs[i].clone(), port));
        i += 1;
    }
    out
}

/// The display name to show for this session.
fn current_display_name(state: &SharedHandlerState) -> (r: String)
    ensures
        r@ == display_of(state.verification_status),
{
    match &state.verification_status {
        VerificationStatus::Verified { display_name, .. } => display_name.clone(),
        _ => String::from_str("unknown"),
    }
}

/// What the handler does when the session channel opens or a shell is
/// requested.
#[derive(Debug)]
pub enum ChannelAction {
    /// A ready message was deferred: deliver it now.
    DeliverReady { display_name: String, tunnels: Vec<(String, u32)> },
    /// Device flow has not started: start it and send the activation box.
    StartFlow,
    /// Device flow is pending on this code: send the activation box again.
    SendActivation { code: String },
    /// Nothing to send.
    Nothing,
}

/// Record the session channel and decide what to send on it.
///
/// A deferred ready message is flushed first; otherwise a session that has
/// not begun device flow starts it now.
pub fn on_session_channel_open(state: &mut SharedHandlerState, channel_id: u64) -> (r:
    ChannelAction)
    requires
        old(state).wf(),
    ensures
        final(state).wf(),
        final(state).session_channel_id == Some(channel_id),
        final(state).pending_tunnel_port is None,
        old(state).pending_tunnel_port matches Some(port) ==> ((old(
            state,
        ).registered_subdomains@.len() > 0 ==> (r matches ChannelAction::DeliverReady {
            display_name,
            tunnels,
        } && display_name@ == display_of(old(state).verification_status) && ready_pairs(
            old(state).registered_subdomains@,
            port,
            tunnels@,
        ))) && (old(state).registered_subdomains@.len() == 0 ==> r is Nothing)),
        old(state).pending_tunnel_port is None ==> (if old(
            state,
        ).verification_status is NotStarted {
            r is StartFlow
        } else {
            r is Nothing
        }),
        same_but_channel(*old(state), *final(state)),
{
    state.session_channel_id = Some(channel_id);
    let pending = state.pending_tunnel_port;
    state.pending_tunnel_port = None;
    match pending {
        Some(port) => {
            if state.registered_subdomains.len() > 0 {
                let display_name = current_display_name(state);
                let tunnels = build_ready_pairs(&state.registered_subdomains, port);
                ChannelAction::DeliverReady { display_name, tunnels }
            } else {
                ChannelAction::Nothing
            }
        },
        None => {
            if matches!(state.verification_status, VerificationStatus::NotStarted) {
                ChannelAction::StartFlow
            } else {
                ChannelAction::Nothing
            }
        },
    }
}

/// The fields untouched by channel-open and shell-request decisions.
pub open spec fn same_but_channel(a: SharedHandlerState, b: SharedHandlerState) -> bool {
    &&& b.verification_status == a.verification_status
    &&& b.pending_tunnels == a.pending_tunnels
    &&& b.registered_subdomains == a.registered_subdomains
    &&& b.subdomain_counter == a.subdomain_counter
    &&& b.session_handle == a.session_handle
    &&& b.esc_pressed == a.esc_pressed
    &&& b.last_esc_time == a.last_esc_time
    &&& b.last_subdomains == a.last_subdomains
    &&& b.requested_subdomain == a.requested_subdomain
}

/// Decide what to send on a shell request: a deferred ready message first,
/// else the activation box while device flow is pending.
pub fn on_shell_request(state: &mut SharedHandlerState) -> (r: ChannelAction)
    requires
        old(state).wf(),
    ensures
        final(state).wf(),
        final(state).session_channel_id == old(state).session_channel_id,
        final(state).pending_tunnel_port is None,
        old(state).pending_tunnel_port matches Some(port) ==> ((old(
            state,
        ).registered_subdomains@.len() > 0 ==> (r matches ChannelAction::DeliverReady {
            display_name,
            tunnels,
        } && display_name@ == display_of(old(state).verification_status) && ready_pairs(
            old(state).registered_subdomains@,
            port,
            tunnels@,
        ))) && (old(state).registered_subdomains@.len() == 0 ==> r is Nothing)),
        old(state).pending_tunnel_port is None ==> (match old(state).verification_status {
            VerificationStatus::Pending { code } => r matches ChannelAction::SendActivation {
                code: c,
            } && c@ == code@,
            _ => r is Nothing,
        }),
        same_but_channel(*old(state), *final(state)),
{
    let pending = state.pending_tunnel_port;
    state.pending_tunnel_port = None;
    match pending {
        Some(port) => {
            if state.registered_subdomains.len() > 0 {
                let display_name = current_display_name(state);
                let tunnels = build_ready_pairs(&state.registered_subdomains, port);
                ChannelAction::DeliverReady { display_name, tunnels }
            } else {
                ChannelAction::Nothing
            }
        },
        None => {
            match &state.verification_status {
                VerificationStatus::Pending { code } => ChannelAction::SendActivation {
                    code: code.clone(),
                },
                _ => ChannelAction::Nothing,
            }
        },
    }
}

/// Plan the ready message for a port, for delivery right after a tunnel is
/// created: nothing to send when the session owns no subdomains.
pub fn tunnel_message_plan(state: &SharedHandlerState, port: u32) -> (r: Option<
    (String, Vec<(String, u32)>),
>)
    ensures
        state.registered_subdomains@.len() == 0 <==> r is None,
        r matches Some((display_name, tunnels)) ==> display_name@ == display_of(
            state.verification_status,
        ) && ready_pairs(state.registered_subdomains@, port, tunnels@),
{
    if state.registered_subdomains.len() == 0 {
        None
    } else {
        let display_name = current_display_name(state);
        let tunnels = build_ready_pairs(&state.registered_subdomains, port);
        Some((display_name, tunnels))
    }
}

/// Remember a port whose ready message could not be delivered yet; the
/// next channel open or shell request flushes it.
pub fn defer_tunnel_message(state: &mut SharedHandlerState, port: u32)
    requires
        old(state).wf(),
    ensures
        final(state).wf(),
        final(state).pending_tunnel_port == Some(port),
        same_but_channel(*old(state), *final(state)),
        final(state).session_channel_id == old(state).session_channel_id,
{
    state.pending_tunnel_port = Some(port);
}

/// Whether raw session-channel data contains the ESC byte.
pub fn contains_esc(data: &[u8]) -> (r: bool)
    ensures
        r == exists|i: int| 0 <= i < data@.len() && data@[i] == 27,
{
    let n = data.len();
    let mut i: usize = 0;
    while i < n
        invariant
            i <= n,
            n == data@.len(),
            forall|j: int| 0 <= j < i ==> data@[j] != 27,
        decreases n - i,
    {
        if data[i] == 27 {
            return true;
        }
        i += 1;
    }
    false
}

/// A second ESC press within the two-second window.
pub open spec fn double_esc(st: SharedHandlerState, now_ms: u64) -> bool {
    st.esc_pressed && match st.last_esc_time {
        Some(t) => t <= now_ms && now_ms - t < 2000,
        None => false,
    }
}

/// What an ESC press leads to.

#[derive(Debug, Clone, PartialEq)]
pub enum EscAction {
    /// Second ESC within two seconds: disconnect the session.
    Disconnect,
    /// First ESC (or a stale one): show the hint and arm the two-second
    /// window.
    ShowHint,
}

/// Handle an ESC byte on the session channel: a second press within two
/// seconds disconnects; otherwise the press is recorded and the hint
/// shown.
pub fn on_esc(state: &mut SharedHandlerState, now_ms: u64) -> (r: EscAction)
    requires
        old(state).wf(),
    ensures
        final(state).wf(),
        double_esc(*old(state), now_ms) ==> (r == EscAction::Disconnect && *final(state) == *old(
            state,
        )),
        !double_esc(*old(state), now_ms) ==> (r == EscAction::ShowHint && final(state).esc_pressed
            && final(state).last_esc_time == Some(now_ms) && same_but_esc(
            *old(state),
            *final(state),
        )),
{
    if state.esc_pressed {
        if let Some(t) = state.last_esc_time {
            if t <= now_ms && now_ms - t < 2000 {
                return EscAction::Disconnect;
            }
        }
    }
    state.esc_pressed = true;
    state.last_esc_time = Some(now_ms);
    EscAction::ShowHint
}

/// The fields untouched by the ESC transitions.
pub open spec fn same_but_esc(a: SharedHandlerState, b: SharedHandlerState) -> bool {
    &&& b.verification_status == a.verification_status
    &&& b.pending_tunnels == a.pending_tunnels
    &&& b.registered_subdomains == a.registered_subdomains
    &&& b.subdomain_counter == a.subdomain_counter
    &&& b.session_handle == a.session_handle
    &&& b.session_channel_id == a.session_channel_id
    &&& b.last_subdomains == a.last_subdomains
    &&& b.pending_tunnel_port == a.pending_tunnel_port
    &&& b.requested_subdomain == a.requested_subdomain
}

/// The two-second timer after an ESC press: clear the armed flag if it is
/// still set, and say whether the hint should be wiped from the terminal.
pub fn clear_esc_state(state: &mut SharedHandlerState) -> (r: bool)
    requires
        old(state).wf(),
    ensures
        final(state).wf(),
        r == old(state).esc_pressed,
        !final(state).esc_pressed,
        final(state).last_esc_time is None,
        same_but_esc(*old(state), *final(state)),
{
    let was = state.esc_pressed;
    state.esc_pressed = false;
    state.last_esc_time = None;
    was
}

/// An entry marked disconnected at `now_ms`.
pub open spec fn marked_disconnected(t: TunnelInfo, now_ms: u64) -> TunnelInfo {
    TunnelInfo { is_connected: false, disconnected_at: Some(now_ms), ..t }
}

/// Whether `sub` is one of the first `k` owned subdomains.
pub open spec fn owned_among(regs: Seq<String>, k: int, sub: Seq<char>) -> bool {
    exists|i: int| 0 <= i < k && regs[i]@ == sub
}

/// Session cleanup: mark every subdomain this session owns as
/// disconnected (they stay in the registry for the reconnection window)
/// and clear the owned list. Returns the owned subdomains so the runtime
/// can notify the device-flow service.
pub fn cleanup_session(state: &mut SharedHandlerState, registry: &mut AppState, now_ms: u64) -> (r:
    Vec<String>)
    requires
        old(state).wf(),
        old(registry).wf(),
    ensures
        final(state).wf(),
        final(registry).wf(),
        r == old(state).registered_subdomains,
        final(state).registered_subdomains@.len() == 0,
        same_but_regs(*old(state), *final(state)),
        final(registry).verified_keys == old(registry).verified_keys,
        final(registry).rate_limits == old(registry).rate_limits,
        final(registry).tunnels@.len() == old(registry).tunnels@.len(),
        forall|j: int|
            0 <= j < old(registry).tunnels@.len() ==> final(registry).tunnels@[j] == (if owned_among(
                old(state).registered_subdomains@,
                old(state).registered_subdomains@.len() as int,
                old(registry).tunnels@[j].subdomain@,
            ) {
                marked_disconnected(old(registry).tunnels@[j], now_ms)
            } else {
                old(registry).tunnels@[j]
            }),
{
    let ghost regs = state.registered_subdomains@;
    let ghost orig = registry.tunnels@;
    let n = state.registered_subdomains.len();
    let mut i: usize = 0;
    while i < n
        invariant
            i <= n,
            n == regs.len(),
            state.registered_subdomains@ == regs,
            registry.wf(),
            registry.verified_keys == old(registry).verified_keys,
            registry.rate_limits == old(registry).rate_limits,
            registry.tunnels@.len() == orig.len(),
            forall|j: int|
                0 <= j < orig.len() ==> registry.tunnels@[j] == (if owned_among(
                    regs,
                    i as int,
                    orig[j].subdomain@,
                ) {
                    marked_disconnected(orig[j], now_ms)
                } else {
                    orig[j]
                }),
        decreases n - i,
    {
        let ghost before = registry.tunnels@;
        registry.mark_tunnel_disconnected(state.registered_subdomains[i].as_str(), now_ms);
        proof {
            let sub = regs[i as int]@;
            assert forall|j: int| 0 <= j < orig.len() implies registry.tunnels@[j] == (
            if owned_among(regs, i + 1, orig[j].subdomain@) {
                marked_disconnected(orig[j], now_ms)
            } else {
                orig[j]
            }) by {
                if crate::state::has_tunnel(before, sub) {
                    let t = crate::state::tunnel_index(before, sub);
                    if j == t {
                        assert(before[j].subdomain@ == sub);
                        assert(owned_among(regs, i + 1, orig[j].subdomain@));
                    } else {
                        assert(registry.tunnels@[j] == before[j]);
                        if owned_among(regs, i + 1, orig[j].subdomain@) && !owned_among(
                            regs,
                            i as int,
                            orig[j].subdomain@,
                        ) {
                            assert(orig[j].subdomain@ == sub);
                            assert(before[j].subdomain@ == orig[j].subdomain@);
                            assert(before[t].subdomain@ == sub);
                            assert(false);
                        }
                    }
                } else {
                    assert(registry.tunnels@[j] == before[j]);
                    if owned_among(regs, i + 1, orig[j].subdomain@) && !owned_among(
                        regs,
                        i as int,
                        orig[j].subdomain@,
                    ) {
                        assert(orig[j].subdomain@ == sub);
                        assert(before[j].subdomain@ == sub);
                        assert(crate::state::has_tunnel(before, sub));
                        assert(false);
                    }
                }
            }
        }
        i += 1;
    }
    let mut owned: Vec<String> = Vec::new();
    std::mem::swap(&mut owned, &mut state.registered_subdomains);
    owned
}

/// The fields untouched by session cleanup.
pub open spec fn same_but_regs(a: SharedHandlerState, b: SharedHandlerState) -> bool {
    &&& b.verification_status == a.verification_status
    &&& b.pending_tunnels == a.pending_tunnels
    &&& b.subdomain_counter == a.subdomain_counter
    &&& b.session_handle == a.session_handle
    &&& b.session_channel_id == a.session_channel_id
    &&& b.esc_pressed == a.esc_pressed
    &&& b.last_esc_time == a.last_esc_time
    &&& b.last_subdomains == a.last_subdomains
    &&& b.pending_tunnel_port == a.pending_tunnel_port
    &&& b.requested_subdomain == a.requested_subdomain
}

/// Whether the registry entry for `sub` matches the cancelled forward's
/// address and port.
pub open spec fn cancel_matches(
    ts: Seq<TunnelInfo>,
    sub: Seq<char>,
    addr: Seq<char>,
    port: u32,
) -> bool {
    &&& has_tunnel(ts, sub)
    &&& ts[tunnel_index(ts, sub)].requested_address@ == addr
    &&& ts[tunnel_index(ts, sub)].requested_port == port
}

/// The tunnel table after a cancel: the owned names are tried in order,
/// and each whose entry matches the forward at its turn is removed.
pub open spec fn cancel_tunnels(
    ts: Seq<TunnelInfo>,
    regs: Seq<String>,
    addr: Seq<char>,
    port: u32,
) -> Seq<TunnelInfo>
    decreases regs.len(),
{
    if regs.len() == 0 {
        ts
    } else {
        let sub = regs[0]@;
        let ts1 = if cancel_matches(ts, sub, addr, port) {
            ts.remove(tunnel_index(ts, sub))
        } else {
            ts
        };
        cancel_tunnels(ts1, regs.drop_first(), addr, port)
    }
}

/// The owned names a cancel keeps: those whose entry, at their turn, did
/// not match (a name already removed at an earlier turn is kept).
pub open spec fn cancel_kept(
    ts: Seq<TunnelInfo>,
    regs: Seq<String>,
    addr: Seq<char>,
    port: u32,
) -> Seq<String>
    decreases regs.len(),
{
    if regs.len() == 0 {
        Seq::<String>::empty()
    } else {
        let sub = regs[0]@;
        if cancel_matches(ts, sub, addr, port) {
            cancel_kept(ts.remove(tunnel_index(ts, sub)), regs.drop_first(), addr, port)
        } else {
            seq![regs[0]] + cancel_kept(ts, regs.drop_first(), addr, port)
        }
    }
}

/// The owned names a cancel removes from the registry, in order.
pub open spec fn cancel_removed(
    ts: Seq<TunnelInfo>,
    regs: Seq<String>,
    addr: Seq<char>,
    port: u32,
) -> Seq<String>
    decreases regs.len(),
{
    if regs.len() == 0 {
        Seq::<String>::empty()
    } else {
        let sub = regs[0]@;
        if cancel_matches(ts, sub, addr, port) {
            seq![regs[0]] + cancel_removed(
                ts.remove(tunnel_index(ts, sub)),
                regs.drop_first(),
                addr,
                port,
            )
        } else {
            cancel_removed(ts, regs.drop_first(), addr, port)
        }
    }
}

/// Trying one more owned name after the others: the cancel functions act
/// on the table the earlier names left behind.
proof fn lemma_cancel_snoc(
    ts: Seq<TunnelInfo>,
    regs: Seq<String>,
    x: String,
    addr: Seq<char>,
    port: u32,
)
    ensures
        ({
            let tsr = cancel_tunnels(ts, regs, addr, port);
            &&& cancel_tunnels(ts, regs.push(x), addr, port) == (if cancel_matches(
                tsr,
                x@,
                addr,
                port,
            ) {
                tsr.remove(tunnel_index(tsr, x@))
            } else {
                tsr
            })
            &&& cancel_kept(ts, regs.push(x), addr, port) == (if cancel_matches(
                tsr,
                x@,
                addr,
                port,
            ) {
                cancel_kept(ts, regs, addr, port)
            } else {
                cancel_kept(ts, regs, addr, port).push(x)
            })
            &&& cancel_removed(ts, regs.push(x), addr, port) == (if cancel_matches(
                tsr,
                x@,
                addr,
                port,
            ) {
                cancel_removed(ts, regs, addr, port).push(x)
            } else {
                cancel_removed(ts, regs, addr, port)
            })
        }),
    decreases regs.len(),
{
    let snoc = regs.push(x);
    if regs.len() == 0 {
        assert(snoc[0] == x);
        assert(snoc.drop_first() =~= Seq::<String>::empty());
        if cancel_matches(ts, x@, addr, port) {
            let tsx = ts.remove(tunnel_index(ts, x@));
            assert(cancel_tunnels(tsx, snoc.drop_first(), addr, port) == tsx);
            assert(cancel_kept(tsx, snoc.drop_first(), addr, port) == Seq::<String>::empty());
            assert(cancel_removed(tsx, snoc.drop_first(), addr, port) == Seq::<String>::empty());
            assert(cancel_kept(ts, snoc, addr, port) =~= cancel_kept(ts, regs, addr, port));
            assert(cancel_removed(ts, snoc, addr, port) =~= cancel_removed(
                ts,
                regs,
                addr,
                port,
            ).push(x));
        } else {
            assert(cancel_tunnels(ts, snoc.drop_first(), addr, port) == ts);
            assert(cancel_kept(ts, snoc.drop_first(), addr, port) == Seq::<String>::empty());
            assert(cancel_removed(ts, snoc.drop_first(), addr, port) == Seq::<String>::empty());
            assert(cancel_kept(ts, snoc, addr, port) =~= cancel_kept(ts, regs, addr, port).push(x));
            assert(cancel_removed(ts, snoc, addr, port) =~= cancel_removed(ts, regs, addr, port));
        }
    } else {
        assert(snoc[0] == regs[0]);
        let rest = regs.drop_first();
        let restx = rest.push(x);
        assert(snoc.drop_first() =~= restx);
        let sub = regs[0]@;
        let ts1 = if cancel_matches(ts, sub, addr, port) {
            ts.remove(tunnel_index(ts, sub))
        } else {
            ts
        };
        lemma_cancel_snoc(ts1, rest, x, addr, port);
        let tsr = cancel_tunnels(ts, regs, addr, port);
        assert(tsr == cancel_tunnels(ts1, rest, addr, port));
        assert(cancel_tunnels(ts, snoc, addr, port) == cancel_tunnels(ts1, restx, addr, port));
        if cancel_matches(ts, sub, addr, port) {
            assert(cancel_kept(ts, snoc, addr, port) == cancel_kept(ts1, restx, addr, port));
            assert(cancel_kept(ts, regs, addr, port) == cancel_kept(ts1, rest, addr, port));
            assert(cancel_removed(ts, snoc, addr, port) =~= seq![regs[0]] + cancel_removed(
                ts1,
                restx,
                addr,
                port,
            ));
            assert(cancel_removed(ts, regs, addr, port) =~= seq![regs[0]] + cancel_removed(
                ts1,
                rest,
                addr,
                port,
            ));
            if cancel_matches(tsr, x@, addr, port) {
                assert(cancel_removed(ts, snoc, addr, port) =~= cancel_removed(
                    ts,
                    regs,
                    addr,
                    port,
                ).push(x));
            }
        } else {
            assert(cancel_kept(ts, snoc, addr, port) =~= seq![regs[0]] + cancel_kept(
                ts1,
                restx,
                addr,
                port,
            ));
            assert(cancel_kept(ts, regs, addr, port) =~= seq![regs[0]] + cancel_kept(
                ts1,
                rest,
                addr,
                port,
            ));
            assert(cancel_removed(ts, snoc, addr, port) == cancel_removed(ts1, restx, addr, port));
            assert(cancel_removed(ts, regs, addr, port) == cancel_removed(ts1, rest, addr, port));
            if !cancel_matches(tsr, x@, addr, port) {
                assert(cancel_kept(ts, snoc, addr, port) =~= cancel_kept(
                    ts,
                    regs,
                    addr,
                    port,
                ).push(x));
            }
        }
        if cancel_matches(tsr, x@, addr, port) {
            assert(cancel_kept(ts, snoc, addr, port) =~= cancel_kept(ts, regs, addr, port));
        } else {
            assert(cancel_kept(ts, snoc, addr, port) =~= cancel_kept(ts, regs, addr, port).push(x));
            assert(cancel_removed(ts, snoc, addr, port) =~= cancel_removed(ts, regs, addr, port));
        }
    }
}

/// Cancel a reverse forward: try every subdomain this session owns, in
/// order, remove from the registry exactly those whose entry matches the
/// cancelled address and port, keep the rest owned, and return the
/// removed names.
pub fn on_cancel_forward(
    state: &mut SharedHandlerState,
    registry: &mut AppState,
    address: &str,
    port: u32,
) -> (r: Vec<String>)
    requires
        old(state).wf(),
        old(registry).wf(),
    ensures
        final(state).wf(),
        final(registry).wf(),
        final(registry).verified_keys == old(registry).verified_keys,
        final(registry).rate_limits == old(registry).rate_limits,
        same_but_regs(*old(state), *final(state)),
        final(registry).tunnels@ == cancel_tunnels(
            old(registry).tunnels@,
            old(state).registered_subdomains@,
            address@,
            port,
        ),
        final(state).registered_subdomains@ == cancel_kept(
            old(registry).tunnels@,
            old(state).registered_subdomains@,
            address@,
            port,
        ),
        r@ == cancel_removed(
            old(registry).tunnels@,
            old(state).registered_subdomains@,
            address@,
            port,
        ),
        forall|s: Seq<char>|
            has_tunnel(final(registry).tunnels@, s) ==> has_tunnel(old(registry).tunnels@, s),
{
    let ghost oldregs = state.registered_subdomains@;
    let ghost orig_ts = registry.tunnels@;
    let n = state.registered_subdomains.len();
    let mut kept: Vec<String> = Vec::new();
    let mut removed: Vec<String> = Vec::new();
    let mut i: usize = 0;
    proof {
        assert(oldregs.subrange(0, 0) =~= Seq::<String>::empty());
    }
    while i < n
        invariant
            i <= n,
            n == oldregs.len(),
            state.registered_subdomains@ == oldregs,
            registry.wf(),
            registry.verified_keys == old(registry).verified_keys,
            registry.rate_limits == old(registry).rate_limits,
            orig_ts == old(registry).tunnels@,
            registry.tunnels@ == cancel_tunnels(
                orig_ts,
                oldregs.subrange(0, i as int),
                address@,
                port,
            ),
            kept@ == cancel_kept(orig_ts, oldregs.subrange(0, i as int), address@, port),
            removed@ == cancel_removed(orig_ts, oldregs.subrange(0, i as int), address@, port),
            forall|s: Seq<char>|
                has_tunnel(registry.tunnels@, s) ==> has_tunnel(old(registry).tunnels@, s),
        decreases n - i,
    {
        let ghost pre = oldregs.subrange(0, i as int);
        proof {
            assert(oldregs.subrange(0, i + 1) =~= pre.push(oldregs[i as int]));
            lemma_cancel_snoc(orig_ts, pre, oldregs[i as int], address@, port);
        }
        let sub = state.registered_subdomains[i].clone();
        let matches_forward = match registry.get_tunnel(sub.as_str()) {
            Some(info) => str_eq(info.requested_address.as_str(), address) && info.requested_port
                == port,
            None => false,
        };
        proof {
            assert(matches_forward == cancel_matches(registry.tunnels@, sub@, address@, port));
        }
        if matches_forward {
            let ghost before = registry.tunnels@;
            let _ = registry.remove_tunnel(sub.as_str());
            proof {
                assert forall|s: Seq<char>| has_tunnel(registry.tunnels@, s) implies has_tunnel(
                    before,
                    s,
                ) by {
                    let k = tunnel_index(registry.tunnels@, s);
                    let t = tunnel_index(before, sub@);
                    let k0 = if k < t {
                        k
                    } else {
                        k + 1
                    };
                    assert(registry.tunnels@[k] == before[k0]);
                }
            }
            removed.push(sub);
        } else {
            kept.push(sub);
        }
        i += 1;
    }
    proof {
        assert(oldregs.subrange(0, n as int) =~= oldregs);
    }
    state.registered_subdomains = kept;
    removed
}

} // verus!
