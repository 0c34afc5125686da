//! Tunnel creation: subdomain selection with the reconnection rules, the
//! registry handshake, and the bookkeeping that follows success. Shared by
//! the connection handler and the verification worker.

use vstd::prelude::*;
use vstd::string::StringExecFns;
use crate::error::TunnelError;
use crate::state::{
    has_key, has_tunnel, key_index, tunnel_index, AppState, TunnelInfo,
};
use crate::text::{dec_chars, dec_u64_string, is_label_char, lemma_dec_len_bound, pow10, str_eq};
use crate::types::{
    generate_secure_subdomain_id, get_port_subdomain, has_port, is_valid_label,
    is_valid_subdomain, port_map_insert, port_subdomain, set_port_subdomain, SharedHandlerState,
    VerificationStatus,
};

verus! {

/// Result of tunnel creation.
#[derive(Debug, Clone)]
pub struct CreateTunnelResult {
    /// Whether the tunnel was created successfully.
    pub success: bool,
    /// The subdomain that caused the conflict (for subdomain-taken errors).
    pub conflicting_subdomain: Option<String>,
    /// Whether the conflict came from an explicitly requested subdomain (the
    /// session should be disconnected) or from a fallback name (the caller
    /// may retry with a fresh random one).
    pub is_explicit_conflict: bool,
}

/// The prefix of generated subdomains.
pub open spec fn tunnel_prefix() -> Seq<char> {
    seq!['t', 'u', 'n', 'n', 'e', 'l', '-']
}

/// The shape of a generated subdomain: the prefix, sixteen characters of a
/// random lowercase-hexadecimal fragment, a hyphen, and the per-session
/// counter in decimal.
pub open spec fn generated_shape(cs: Seq<char>, counter: u32) -> bool {
    exists|h: Seq<char>|
        h.len() == 16 && (forall|i: int|
            0 <= i < 16 ==> is_label_char(#[trigger] h[i]) && h[i] != '-') && cs == tunnel_prefix()
            + h + seq!['-'] + dec_chars(counter as int)
}

/// The subdomain `create_tunnel` will use when it need not generate one: an
/// explicitly requested name first, then the name remembered for the port.
pub open spec fn chosen_known(st: SharedHandlerState, port: u32) -> Option<Seq<char>> {
    match st.requested_subdomain {
        Some(r) => Some(r@),
        None => if has_port(st.last_subdomains@, port) {
            Some(port_subdomain(st.last_subdomains@, port))
        } else {
            None
        },
    }
}

/// Whether the request counts as a reconnection: an explicit name only when
/// it equals the one remembered for the port; otherwise any remembered name.
pub open spec fn spec_is_reconnect(st: SharedHandlerState, port: u32) -> bool {
    match st.requested_subdomain {
        Some(r) => has_port(st.last_subdomains@, port) && port_subdomain(
            st.last_subdomains@,
            port,
        ) == r@,
        None => has_port(st.last_subdomains@, port),
    }
}

/// The username recorded on a new tunnel: the verified user id when the
/// session is verified, else the SSH username, else `anonymous`.
pub open spec fn expected_username(st: SharedHandlerState, username: Option<&str>) -> Seq<char> {
    match st.verification_status {
        VerificationStatus::Verified { user_id, .. } => user_id@,
        _ => match username {
            Some(u) => u@,
            None => "anonymous"@,
        },
    }
}

/// The tunnel table after the reconnection removal step: on a reconnection
/// the stale entry under the chosen name, if any, is taken out first.
pub open spec fn after_removal(ts: Seq<TunnelInfo>, rec: bool, cs: Seq<char>) -> Seq<TunnelInfo> {
    if rec && has_tunnel(ts, cs) {
        ts.remove(tunnel_index(ts, cs))
    } else {
        ts
    }
}

/// The entry a successful creation appends.
pub open spec fn new_entry(
    t: TunnelInfo,
    cs: Seq<char>,
    address: Seq<char>,
    port: u32,
    handle_id: u64,
    client_ip: Seq<char>,
    uname: Seq<char>,
    now_ms: u64,
) -> bool {
    &&& t.subdomain@ == cs
    &&& t.handle_id == handle_id
    &&& t.requested_address@ == address
    &&& t.requested_port == port
    &&& t.server_port == 80
    &&& t.created_at == now_ms
    &&& t.username@ == uname
    &&& t.client_ip@ == client_ip
    &&& t.is_connected
    &&& t.disconnected_at is None
}

/// The session-state fields `create_tunnel` never touches.
pub open spec fn state_rest_same(a: SharedHandlerState, b: SharedHandlerState) -> bool {
    &&& b.verification_status == a.verification_status
    &&& b.pending_tunnels == a.pending_tunnels
    &&& b.session_handle == a.session_handle
    &&& b.session_channel_id == a.session_channel_id
    &&& b.esc_pressed == a.esc_pressed
    &&& b.last_esc_time == a.last_esc_time
    &&& b.pending_tunnel_port == a.pending_tunnel_port
    &&& b.requested_subdomain == a.requested_subdomain
}

/// How `create_tunnel` updates the session state on success: the subdomain
/// joins the owned list and the port memory; nothing else moves but the
/// counter, which has grown exactly when a name was generated.
pub open spec fn state_success_post(
    old_st: SharedHandlerState,
    new_st: SharedHandlerState,
    cs: Seq<char>,
    port: u32,
    bumped: bool,
) -> bool {
    &&& new_st.registered_subdomains@.len() == old_st.registered_subdomains@.len() + 1
    &&& forall|j: int|
        0 <= j < old_st.registered_subdomains@.len() ==> new_st.registered_subdomains@[j]
            == old_st.registered_subdomains@[j]
    &&& new_st.registered_subdomains@.last()@ == cs
    &&& port_map_insert(old_st.last_subdomains@, new_st.last_subdomains@, port, cs)
    &&& new_st.subdomain_counter as int == if bumped {
        old_st.subdomain_counter + 1
    } else {
        old_st.subdomain_counter as int
    }
    &&& state_rest_same(old_st, new_st)
}

/// What a successful creation leaves in the verified-key cache when a
/// fingerprint is known: the key exists and remembers the subdomain for the
/// port, freshly stamped.
pub open spec fn key_success_post(
    reg: AppState,
    fp: Seq<char>,
    cs: Seq<char>,
    port: u32,
    now_ms: u64,
) -> bool {
    &&& has_key(reg.verified_keys@, fp)
    &&& reg.verified_keys@[key_index(reg.verified_keys@, fp)].key.verified_at == now_ms
    &&& has_port(reg.verified_keys@[key_index(reg.verified_keys@, fp)].key.subdomains@, port)
    &&& port_subdomain(
        reg.verified_keys@[key_index(reg.verified_keys@, fp)].key.subdomains@,
        port,
    ) == cs
}

/// What `create_tunnel` does once a valid name `cs` is in hand: the stale
/// entry is removed on reconnection; then either the name is still taken
/// (conflict reported, explicit flag as given, nothing else moves) or the
/// tunnel is registered and the bookkeeping of `state_success_post` and
/// `key_success_post` runs.
/// Whether creation under the name `cs` goes through: after the
/// reconnection removal, the name must be free.
pub open spec fn create_succeeded(old_reg: AppState, cs: Seq<char>, rec: bool) -> bool {
    !has_tunnel(after_removal(old_reg.tunnels@, rec, cs), cs)
}

/// The state and registry transition of a creation attempt under a valid
/// name `cs`: the stale entry is removed on reconnection; then either the
/// name is still taken (nothing else moves) or the tunnel is registered
/// and the bookkeeping of `state_success_post` and `key_success_post`
/// runs.
pub open spec fn create_transition(
    old_st: SharedHandlerState,
    new_st: SharedHandlerState,
    old_reg: AppState,
    new_reg: AppState,
    cs: Seq<char>,
    rec: bool,
    bumped: bool,
    address: Seq<char>,
    port: u32,
    handle_id: u64,
    client_ip: Seq<char>,
    uname: Seq<char>,
    fp: Option<&str>,
    now_ms: u64,
) -> bool {
    let ts1 = after_removal(old_reg.tunnels@, rec, cs);
    if has_tunnel(ts1, cs) {
        &&& new_reg.tunnels@ == ts1
        &&& new_reg.verified_keys == old_reg.verified_keys
        &&& new_reg.rate_limits == old_reg.rate_limits
        &&& new_st.registered_subdomains == old_st.registered_subdomains
        &&& new_st.last_subdomains == old_st.last_subdomains
        &&& new_st.subdomain_counter as int == if bumped {
            old_st.subdomain_counter + 1
        } else {
            old_st.subdomain_counter as int
        }
        &&& state_rest_same(old_st, new_st)
    } else {
        &&& new_reg.tunnels@.len() == ts1.len() + 1
        &&& forall|j: int| 0 <= j < ts1.len() ==> new_reg.tunnels@[j] == ts1[j]
        &&& new_entry(new_reg.tunnels@.last(), cs, address, port, handle_id, client_ip, uname, now_ms)
        &&& new_reg.rate_limits == old_reg.rate_limits
        &&& (fp is None ==> new_reg.verified_keys == old_reg.verified_keys)
        &&& (fp matches Some(f) ==> key_success_post(new_reg, f@, cs, port, now_ms))
        &&& state_success_post(old_st, new_st, cs, port, bumped)
    }
}

/// The full outcome of a creation attempt under a valid name `cs`: the
/// transition of `create_transition`, and a result value that reports
/// success exactly when `create_succeeded` holds, carrying the
/// conflicting name and the explicit flag otherwise.
pub open spec fn create_outcome(
    old_st: SharedHandlerState,
    new_st: SharedHandlerState,
    old_reg: AppState,
    new_reg: AppState,
    r: Result<CreateTunnelResult, TunnelError>,
    cs: Seq<char>,
    rec: bool,
    bumped: bool,
    address: Seq<char>,
    port: u32,
    handle_id: u64,
    client_ip: Seq<char>,
    uname: Seq<char>,
    fp: Option<&str>,
    now_ms: u64,
    explicit: bool,
) -> bool {
    &&& create_transition(
        old_st,
        new_st,
        old_reg,
        new_reg,
        cs,
        rec,
        bumped,
        address,
        port,
        handle_id,
        client_ip,
        uname,
        fp,
        now_ms,
    )
    &&& if create_succeeded(old_reg, cs, rec) {
        r matches Ok(res) && res.success && res.conflicting_subdomain is None
            && !res.is_explicit_conflict
    } else {
        r matches Ok(res) && !res.success && (res.conflicting_subdomain matches Some(c) && c@
            == cs) && res.is_explicit_conflict == explicit
    }
}

/// A fresh generated subdomain: bumps the per-session counter and draws a
/// random fragment; the result is always a valid label.
pub fn generate_subdomain(state: &mut SharedHandlerState) -> (r: String)
    requires
        old(state).wf(),
        old(state).subdomain_counter < u32::MAX,
    ensures
        final(state).wf(),
        final(state).subdomain_counter == old(state).subdomain_counter + 1,
        final(state).registered_subdomains == old(state).registered_subdomains,
        final(state).last_subdomains == old(state).last_subdomains,
        state_rest_same(*old(state), *final(state)),
        is_valid_label(r@),
        generated_shape(r@, (old(state).subdomain_counter + 1) as u32),
{
    state.subdomain_counter = state.subdomain_counter + 1;
    let counter = state.subdomain_counter;
    let id = generate_secure_subdomain_id();
    let num = dec_u64_string(counter as u64);
    let mut s = String::from_str("tunnel-");
    s.append(id.as_str());
    s.append("-");
    s.append(num.as_str());
    proof {
        reveal_strlit("tunnel-");
        reveal_strlit("-");
        assert("tunnel-"@ =~= tunnel_prefix());
        assert("-"@ =~= seq!['-']);
        assert(s@ =~= tunnel_prefix() + id@ + seq!['-'] + dec_chars(counter as int));
        assert(generated_shape(s@, counter)) by {
            assert(id@.len() == 16 && (forall|i: int|
                0 <= i < 16 ==> is_label_char(#[trigger] id@[i]) && id@[i] != '-') && s@
                == tunnel_prefix() + id@ + seq!['-'] + dec_chars(counter as int));
        }
        assert(pow10(0) == 1);
        assert(pow10(1) == 10);
        assert(pow10(2) == 100);
        assert(pow10(3) == 1000);
        assert(pow10(4) == 10000);
        assert(pow10(5) == 100000);
        assert(pow10(6) == 1000000);
        assert(pow10(7) == 10000000);
        assert(pow10(8) == 100000000);
        assert(pow10(9) == 1000000000);
        assert(pow10(10) == 10_000_000_000);
        lemma_dec_len_bound(counter as int, 10);
        crate::text::lemma_dec_props(counter as int);
        crate::text::lemma_dec_bytes_chars(counter as int);
        let v = s@;
        assert(v.len() == 24 + dec_chars(counter as int).len());
        assert(1 <= v.len() <= 63);
        assert forall|i: int| 0 <= i < v.len() implies is_label_char(#[trigger] v[i]) by {
            if i < 7 {
                assert(v[i] == tunnel_prefix()[i]);
            } else if i < 23 {
                assert(v[i] == id@[i - 7]);
            } else if i == 23 {
                assert(v[i] == '-');
            } else {
                assert(v[i] == dec_chars(counter as int)[i - 24]);
                assert(crate::text::is_digit_char(v[i]));
            }
        }
        assert(v[0] == 't');
        assert(v[v.len() - 1] == dec_chars(counter as int)[dec_chars(counter as int).len() - 1]);
        assert(crate::text::is_digit_char(v[v.len() - 1]));
        assert(is_valid_label(v));
    }
    s
}

/// Create a tunnel for a verified or reconnecting session.
///
/// Picks the subdomain by the priority order of `chosen_known` (generating a
/// fresh one when neither rule fires), classifies reconnections, removes the
/// stale entry on reconnection, validates the name, registers the tunnel,
/// and on success records the name in the session state and the verified-key
/// cache. Never panics and never returns an error value.
pub fn create_tunnel(
    address: &str,
    port: u32,
    session_handle: Option<u64>,
    state: &mut SharedHandlerState,
    registry: &mut AppState,
    client_ip: &str,
    username: Option<&str>,
    fingerprint: Option<&str>,
    now_ms: u64,
) -> (r: Result<CreateTunnelResult, TunnelError>)
    requires
        old(state).wf(),
        old(state).subdomain_counter < u32::MAX,
        old(registry).wf(),
    ensures
        final(state).wf(),
        final(registry).wf(),
        r is Ok,
        session_handle is None ==> (*final(state) == *old(state) && *final(registry) == *old(registry)
            && (r matches Ok(res) && !res.success && res.conflicting_subdomain is None
            && !res.is_explicit_conflict)),
        session_handle matches Some(h) ==> match chosen_known(*old(state), port) {
            Some(cs) => if !is_valid_label(cs) {
                &&& *final(state) == *old(state)
                &&& *final(registry) == *old(registry)
                &&& (r matches Ok(res) && !res.success && (res.conflicting_subdomain matches Some(c)
                    && c@ == cs) && res.is_explicit_conflict == (old(
                    state,
                ).requested_subdomain is Some))
            } else {
                create_outcome(
                    *old(state),
                    *final(state),
                    *old(registry),
                    *final(registry),
                    r,
                    cs,
                    spec_is_reconnect(*old(state), port),
                    false,
                    address@,
                    port,
                    h,
                    client_ip@,
                    expected_username(*old(state), username),
                    fingerprint,
                    now_ms,
                    old(state).requested_subdomain is Some,
                )
            },
            None => exists|cs: Seq<char>|
                is_valid_label(cs) && generated_shape(
                    cs,
                    (old(state).subdomain_counter + 1) as u32,
                ) && create_outcome(
                    *old(state),
                    *final(state),
                    *old(registry),
                    *final(registry),
                    r,
                    cs,
                    false,
                    true,
                    address@,
                    port,
                    h,
                    client_ip@,
                    expected_username(*old(state), username),
                    fingerprint,
                    now_ms,
                    false,
                ),
        },
{
    let handle_id = match session_handle {
        Some(h) => h,
        None => {
            return Ok(
                CreateTunnelResult {
                    success: false,
                    conflicting_subdomain: None,
                    is_explicit_conflict: false,
                },
            );
        },
    };
    let explicit = state.requested_subdomain.is_some();

    // Subdomain priority: explicit request, then the port's remembered name,
    // then a fresh random one.
    let requested: Option<String> = match &state.requested_subdomain {
        Some(r0) => Some(r0.clone()),
        None => None,
    };
    let last = get_port_subdomain(&state.last_subdomains, port);
    let (subdomain, reconnect): (String, bool) = match requested {
        Some(r0) => {
            let rec = match &last {
                Some(l) => str_eq(l.as_str(), r0.as_str()),
                None => false,
            };
            (r0, rec)
        },
        None => match last {
            Some(l) => (l, true),
            None => (generate_subdomain(state), false),
        },
    };

    if !is_valid_subdomain(subdomain.as_str()) {
        return Ok(
            CreateTunnelResult {
                success: false,
                conflicting_subdomain: Some(subdomain),
                is_explicit_conflict: explicit,
            },
        );
    }

    // On a reconnection the stale entry from the dead session goes first.
    if reconnect {
        let _ = registry.remove_tunnel(subdomain.as_str());
    }

    let tunnel_username: String = match &state.verification_status {
        VerificationStatus::Verified { user_id, .. } => user_id.clone(),
        _ => match username {
            Some(u) => u.to_owned(),
            None => String::from_str("anonymous"),
        },
    };

    let info = TunnelInfo {
        subdomain: subdomain.clone(),
        handle_id,
        requested_address: address.to_owned(),
        requested_port: port,
        server_port: 80,
        created_at: now_ms,
        username: tunnel_username.clone(),
        client_ip: client_ip.to_owned(),
        is_connected: true,
        disconnected_at: None,
    };

    match registry.register_tunnel(info) {
        Ok(()) => {
            state.registered_subdomains.push(subdomain.clone());
            set_port_subdomain(&mut state.last_subdomains, port, subdomain.as_str());
            if let Some(fp) = fingerprint {
                let (user_id, display_name): (String, Option<String>) = match &state
                    .verification_status {
                    VerificationStatus::Verified { user_id, display_name } => (
                        user_id.clone(),
                        Some(display_name.clone()),
                    ),
                    _ => (
                        match username {
                            Some(u) => u.to_owned(),
                            None => String::from_str("anonymous"),
                        },
                        None,
                    ),
                };
                registry.save_verified_key(
                    fp,
                    user_id.as_str(),
                    match &display_name {
                        Some(d) => Some(d.as_str()),
                        None => None,
                    },
                    port,
                    subdomain.as_str(),
                    now_ms,
                );
                proof {
                    lemma_key_index_after_save(
                        old(registry).verified_keys@,
                        registry.verified_keys@,
                        fp@,
                    );
                }
            }
            Ok(
                CreateTunnelResult {
                    success: true,
                    conflicting_subdomain: None,
                    is_explicit_conflict: false,
                },
            )
        },
        Err(TunnelError::SubdomainTaken(s)) => Ok(
            CreateTunnelResult {
                success: false,
                conflicting_subdomain: Some(s),
                is_explicit_conflict: explicit,
            },
        ),
        Err(e) => Err(e),
    }
}

/// After `save_verified_key` for `fp`, the entry for `fp` sits where the
/// save left it: at the old index when the fingerprint was present, at the
/// end otherwise.
proof fn lemma_key_index_after_save(
    oldks: Seq<crate::state::KeyRecord>,
    newks: Seq<crate::state::KeyRecord>,
    fp: Seq<char>,
)
    requires
        crate::state::keys_wf(newks),
        has_key(oldks, fp) ==> newks.len() == oldks.len() && newks[key_index(oldks, fp)].fingerprint
            == oldks[key_index(oldks, fp)].fingerprint,
        !has_key(oldks, fp) ==> newks.len() == oldks.len() + 1 && newks.last().fingerprint@ == fp,
    ensures
        has_key(oldks, fp) ==> has_key(newks, fp) && key_index(newks, fp) == key_index(oldks, fp),
        !has_key(oldks, fp) ==> has_key(newks, fp) && key_index(newks, fp) == newks.len() - 1,
{
    if has_key(oldks, fp) {
        let i = key_index(oldks, fp);
        assert(0 <= i < oldks.len() && oldks[i].fingerprint@ == fp);
        assert(newks[i].fingerprint@ == fp);
        assert(has_key(newks, fp));
        let j = key_index(newks, fp);
        assert(0 <= j < newks.len() && newks[j].fingerprint@ == fp);
        assert(j == i);
    } else {
        assert(newks[newks.len() - 1].fingerprint@ == fp);
        assert(has_key(newks, fp));
        let j = key_index(newks, fp);
        assert(j == newks.len() - 1);
    }
}

} // verus!
