//! Decision logic of the device-flow verification worker: what happens to
//! the session state when polling resolves, and how each queued tunnel
//! request is turned into a tunnel. The polling loop, the probe channels,
//! and the terminal updates run in the runtime around this library.

use vstd::prelude::*;
use crate::state::{has_tunnel, AppState};
use crate::tunnel::{
    chosen_known, create_outcome, create_succeeded, create_transition, create_tunnel,
    expected_username, generated_shape, spec_is_reconnect,
};
use crate::types::{is_valid_label, PendingTunnel, SharedHandlerState, VerificationStatus};

verus! {

/// The session-state fields the verification outcome does not touch.
pub open spec fn same_but_verify(a: SharedHandlerState, b: SharedHandlerState) -> bool {
    &&& b.registered_subdomains == a.registered_subdomains
    &&& b.subdomain_counter == a.subdomain_counter
    &&& b.session_handle == a.session_handle
    &&& b.session_channel_id == a.session_channel_id
    &&& b.esc_pressed == a.esc_pressed
    &&& b.last_esc_time == a.last_esc_time
    &&& b.last_subdomains == a.last_subdomains
    &&& b.pending_tunnel_port == a.pending_tunnel_port
    &&& b.requested_subdomain == a.requested_subdomain
}

/// Verification succeeded: the session becomes `Verified` for this user
/// and the queued tunnel requests are drained for creation, in order.
pub fn begin_verification_success(
    state: &mut SharedHandlerState,
    user_id: &str,
    display_name: &str,
) -> (r: Vec<PendingTunnel>)
    requires
        old(state).wf(),
    ensures
        final(state).wf(),
        r == old(state).pending_tunnels,
        final(state).pending_tunnels@.len() == 0,
        final(state).verification_status matches VerificationStatus::Verified {
            user_id: u,
            display_name: d,
        } && u@ == user_id@ && d@ == display_name@,
        same_but_verify(*old(state), *final(state)),
{
    state.verification_status = VerificationStatus::Verified {
        user_id: user_id.to_owned(),
        display_name: display_name.to_owned(),
    };
    let mut drained: Vec<PendingTunnel> = Vec::new();
    std::mem::swap(&mut drained, &mut state.pending_tunnels);
    drained
}

/// Verification failed: the session carries the reason; the runtime shows
/// it, waits out the grace period, and disconnects.
pub fn fail_verification(state: &mut SharedHandlerState, reason: &str)
    requires
        old(state).wf(),
    ensures
        final(state).wf(),
        final(state).verification_status matches VerificationStatus::Failed { reason: x } && x@
            == reason@,
        final(state).pending_tunnels == old(state).pending_tunnels,
        same_but_verify(*old(state), *final(state)),
{
    state.verification_status = VerificationStatus::Failed { reason: reason.to_owned() };
}

/// Create the tunnel for one drained request, after its probe succeeded.
///
/// Runs `create_tunnel` with this session's identity: the same name
/// choice, reconnection removal, registration and bookkeeping, stated
/// here by the same `create_transition` case split. The public pair
/// (subdomain, client port) comes back exactly when the creation went
/// through; `None` means a missing handle, an invalid explicit name, or a
/// name conflict, and then nothing was registered.
pub fn create_pending_tunnel(
    pending: &PendingTunnel,
    session_handle: Option<u64>,
    state: &mut SharedHandlerState,
    registry: &mut AppState,
    client_ip: &str,
    username: Option<&str>,
    fingerprint: Option<&str>,
    now_ms: u64,
) -> (r: Option<(String, u32)>)
    requires
        old(state).wf(),
        old(state).subdomain_counter < u32::MAX,
        old(registry).wf(),
    ensures
        final(state).wf(),
        final(registry).wf(),
        session_handle is None ==> (r is None && *final(state) == *old(state) && *final(registry)
            == *old(registry)),
        session_handle matches Some(h) ==> match chosen_known(*old(state), pending.port) {
            Some(cs) => if !is_valid_label(cs) {
                r is None && *final(state) == *old(state) && *final(registry) == *old(registry)
            } else {
                &&& create_transition(
                    *old(state),
                    *final(state),
                    *old(registry),
                    *final(registry),
                    cs,
                    spec_is_reconnect(*old(state), pending.port),
                    false,
                    pending.address@,
                    pending.port,
                    h,
                    client_ip@,
                    expected_username(*old(state), username),
                    fingerprint,
                    now_ms,
                )
                &&& (r is Some <==> create_succeeded(
                    *old(registry),
                    cs,
                    spec_is_reconnect(*old(state), pending.port),
                ))
                &&& (r matches Some((sub, p)) ==> p == pending.port && sub@ == cs)
            },
            None => exists|cs: Seq<char>|
                {
                    &&& is_valid_label(cs)
                    &&& generated_shape(cs, (old(state).subdomain_counter + 1) as u32)
                    &&& create_transition(
                        *old(state),
                        *final(state),
                        *old(registry),
                        *final(registry),
                        cs,
                        false,
                        true,
                        pending.address@,
                        pending.port,
                        h,
                        client_ip@,
                        expected_username(*old(state), username),
                        fingerprint,
                        now_ms,
                    )
                    &&& (r is Some <==> create_succeeded(*old(registry), cs, false))
                    &&& (r matches Some((sub, p)) ==> p == pending.port && sub@ == cs)
                },
        },
        r matches Some((sub, port)) ==> port == pending.port && is_valid_label(sub@) && has_tunnel(
            final(registry).tunnels@,
            sub@,
        ) && final(state).registered_subdomains@.len() > 0
            && final(state).registered_subdomains@.last()@ == sub@,
{
    let created = create_tunnel(
        pending.address.as_str(),
        pending.port,
        session_handle,
        state,
        registry,
        client_ip,
        username,
        fingerprint,
        now_ms,
    );
    let ok = match &created {
        Ok(res) => res.success,
        Err(_) => false,
    };
    if !ok {
        return None;
    }
    proof {
        let h = session_handle.unwrap();
        match chosen_known(*old(state), pending.port) {
            Some(cs) => {
                assert(is_valid_label(cs));
                assert(create_succeeded(*old(registry), cs, spec_is_reconnect(
                    *old(state),
                    pending.port,
                )));
                assert(state.registered_subdomains@.last()@ == cs);
                assert(registry.tunnels@.last().subdomain@ == cs);
                assert(has_tunnel(registry.tunnels@, cs));
            },
            None => {
                let cs = choose|cs: Seq<char>|
                    is_valid_label(cs) && generated_shape(
                        cs,
                        (old(state).subdomain_counter + 1) as u32,
                    ) && create_outcome(
                        *old(state),
                        *state,
                        *old(registry),
                        *registry,
                        created,
                        cs,
                        false,
                        true,
                        pending.address@,
                        pending.port,
                        h,
                        client_ip@,
                        expected_username(*old(state), username),
                        fingerprint,
                        now_ms,
                        false,
                    );
                assert(create_succeeded(*old(registry), cs, false));
                assert(state.registered_subdomains@.last()@ == cs);
                assert(registry.tunnels@.last().subdomain@ == cs);
                assert(has_tunnel(registry.tunnels@, cs));
            },
        }
    }
    let idx = state.registered_subdomains.len() - 1;
    let sub = state.registered_subdomains[idx].clone();
    Some((sub, pending.port))
}

} // verus!
