//! The management surface: listing registered tunnels and kicking one off.
//! The HTTP server and JSON encoding live in the runtime around this
//! library; the data and the decisions are made here.

use vstd::prelude::*;
use vstd::string::StringExecFns;
use crate::device::timestamp_chars;
use crate::error::TunnelError;
use crate::state::{has_tunnel, tunnel_index, AppState, TunnelInfo};
use crate::text::str_eq;

verus! {

/// One tunnel as the management API reports it.
#[derive(Debug, Clone)]
pub struct TunnelResponse {
    pub subdomain: String,
    /// The owning user; absent for empty or anonymous usernames.
    pub user_id: Option<String>,
    pub client_ip: String,
    /// When the tunnel was created, as a timestamp string.
    pub connected_at: String,
    /// Whether the SSH connection is still active.
    pub is_connected: bool,
}

/// The list of tunnels as the management API reports it.
#[derive(Debug)]
pub struct TunnelsListResponse {
    pub tunnels: Vec<TunnelResponse>,
}

/// Reported on a successful operation.
#[derive(Debug)]
pub struct SuccessResponse {
    pub success: bool,
    pub message: String,
}

/// Reported on a failed operation.
#[derive(Debug)]
pub struct ErrorResponse {
    pub error: String,
}

/// How a report describes a registry entry: same subdomain, IP and
/// connection state, the creation time spelt out, and the user shown
/// unless empty or anonymous.
pub open spec fn reports_tunnel(resp: TunnelResponse, t: TunnelInfo) -> bool {
    &&& resp.subdomain@ == t.subdomain@
    &&& ((t.username@ == Seq::<char>::empty() || t.username@ == "anonymous"@) <==> resp.user_id is None)
    &&& (resp.user_id matches Some(u) ==> u@ == t.username@)
    &&& resp.client_ip@ == t.client_ip@
    &&& resp.connected_at@ == timestamp_chars(t.created_at as int / 1000)
    &&& resp.is_connected == t.is_connected
}

/// List all registered tunnels for the management API.
pub fn list_tunnels(registry: &AppState) -> (r: TunnelsListResponse)
    ensures
        r.tunnels@.len() == registry.tunnels@.len(),
        forall|i: int|
            0 <= i < r.tunnels@.len() ==> reports_tunnel(
                #[trigger] r.tunnels@[i],
                registry.tunnels@[i],
            ),
{
    let n = registry.tunnels.len();
    let mut out: Vec<TunnelResponse> = Vec::new();
    let mut i: usize = 0;
    while i < n
        invariant
            i <= n,
            n == registry.tunnels@.len(),
            out@.len() == i,
            forall|j: int|
                0 <= j < i ==> reports_tunnel(#[trigger] out@[j], registry.tunnels@[j]),
        decreases n - i,
    {
        let t = &registry.tunnels[i];
        let anonymous = t.username.as_str().is_empty() || str_eq(t.username.as_str(), "anonymous");
        let user_id: Option<String> = if anonymous {
            None
        } else {
            Some(t.username.clone())
        };
        proof {
            if t.username@.len() == 0 {
                assert(t.username@ =~= Seq::<char>::empty());
            }
            if t.username@ == Seq::<char>::empty() {
                assert(t.username@.len() == 0);
            }
        }
        out.push(
            TunnelResponse {
                subdomain: t.subdomain.clone(),
                user_id,
                client_ip: t.client_ip.clone(),
                connected_at: crate::device::format_timestamp(t.created_at / 1000),
                is_connected: t.is_connected,
            },
        );
        i += 1;
    }
    TunnelsListResponse { tunnels: out }
}

/// Remove a tunnel on an administrator's request.
///
/// On success the entry leaves the registry at once and the owning
/// session's handle identifier is returned, so the runtime can disconnect
/// the session without blocking the response. A missing subdomain reports
/// an error and changes nothing.
pub fn kick_tunnel(registry: &mut AppState, subdomain: &str) -> (r: Result<
    (SuccessResponse, u64),
    ErrorResponse,
>)
    requires
        old(registry).wf(),
    ensures
        final(registry).wf(),
        final(registry).verified_keys == old(registry).verified_keys,
        final(registry).rate_limits == old(registry).rate_limits,
        has_tunnel(old(registry).tunnels@, subdomain@) ==> (r matches Ok((resp, handle_id))
            && resp.success && resp.message@ == "Tunnel '"@ + subdomain@ + "' disconnected"@
            && handle_id == old(registry).tunnels@[tunnel_index(
            old(registry).tunnels@,
            subdomain@,
        )].handle_id && final(registry).tunnels@ == old(registry).tunnels@.remove(
            tunnel_index(old(registry).tunnels@, subdomain@),
        )),
        !has_tunnel(old(registry).tunnels@, subdomain@) ==> (r matches Err(e) && e.error@
            == "Tunnel not found: "@ + subdomain@ && final(registry).tunnels == old(
            registry,
        ).tunnels),
{
    match registry.remove_tunnel(subdomain) {
        Ok(info) => {
            let mut message = String::from_str("Tunnel '");
            message.append(subdomain);
            message.append("' disconnected");
            Ok((SuccessResponse { success: true, message }, info.handle_id))
        },
        Err(_) => {
            let mut error = String::from_str("Tunnel not found: ");
            error.append(subdomain);
            Err(ErrorResponse { error })
        },
    }
}

} // verus!
