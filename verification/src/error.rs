//! Error values for tunnel operations.

use vstd::prelude::*;
use vstd::string::StringExecFns;

verus! {

/// What a tunnel operation can fail with.
#[derive(Debug, Clone)]
pub enum TunnelError {
    /// Device-flow verification failed or expired.
    AuthFailed(String),
    /// The requested subdomain is already registered.
    SubdomainTaken(String),
    /// No tunnel is registered under the subdomain.
    TunnelNotFound(String),
}

impl TunnelError {
    /// A human-readable description of the error.
    pub fn message(&self) -> (r: String)
        ensures
            self matches TunnelError::AuthFailed(s) ==> r@ == "Authentication failed: "@ + s@,
            self matches TunnelError::SubdomainTaken(s) ==> r@ == "Subdomain '"@ + s@
                + "' is already taken"@,
            self matches TunnelError::TunnelNotFound(s) ==> r@ == "Tunnel not found for subdomain '"@
                + s@ + "'"@,
    {
        match self {
            TunnelError::AuthFailed(s) => {
                let mut m = String::from_str("Authentication failed: ");
                m.append(s.as_str());
                m
            },
            TunnelError::SubdomainTaken(s) => {
                let mut m = String::from_str("Subdomain '");
                m.append(s.as_str());
                m.append("' is already taken");
                m
            },
            TunnelError::TunnelNotFound(s) => {
                let mut m = String::from_str("Tunnel not found for subdomain '");
                m.append(s.as_str());
                m.append("'");
                m
            },
        }
    }
}

} // verus!
