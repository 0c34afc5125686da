//! Library for an SSH reverse-tunnel gateway: a registry of tunnels keyed by
//! DNS subdomain, a per-connection authentication state machine, host-header
//! routing for the HTTP data plane, and the supporting text and time helpers.
//!
//! The runtime glue (sockets, SSH transport, HTTP clients) lives outside this
//! crate; everything here is plain logic with contracts.

pub mod config;
pub mod device;
pub mod error;
pub mod ext;
pub mod management;
pub mod proxy;
pub mod session;
pub mod state;
pub mod terminal_ui;
pub mod text;
pub mod tunnel;
pub mod types;
pub mod verification;
