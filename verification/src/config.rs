//! Server configuration values. The runtime loads them from the process
//! environment once at startup; this module holds the shape, the validity
//! rule, and the URL construction.

use vstd::prelude::*;
use vstd::string::StringExecFns;

verus! {

/// Minimum byte length for the internal API secret.
pub const MIN_SECRET_LENGTH: usize = 32;

/// The server's configuration.
#[derive(Debug, Clone)]
pub struct Config {
    /// Base domain for tunnels (possibly carrying a `:port`).
    pub tunnel_url: String,
    /// Base URL of the device-flow service.
    pub api_base_url: String,
    /// Shared secret sent to the device-flow service.
    pub internal_api_secret: String,
}

impl Config {
    /// Whether the configuration may be used: the internal API secret must
    /// be at least 32 bytes long. The process refuses to start otherwise.
    pub fn validate(&self) -> (r: bool)
        ensures
            r == (vstd::utf8::encode_utf8(self.internal_api_secret@).len() as usize
                >= MIN_SECRET_LENGTH),
    {
        self.internal_api_secret.as_str().len() >= MIN_SECRET_LENGTH
    }
}

/// The public address of a tunnel: the subdomain in front of the base
/// domain.
pub fn get_tunnel_url(subdomain: &str, tunnel_url: &str) -> (r: String)
    ensures
        r@ == subdomain@ + "."@ + tunnel_url@,
{
    let mut url = subdomain.to_owned();
    url.append(".");
    url.append(tunnel_url);
    url
}

} // verus!
