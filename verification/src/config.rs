//! The parsed deployment configuration.
//!
//! The relay core consumes this already validated; opening and parsing the
//! configuration file is the embedding program's job, as is loading identity
//! material when the listener transport is secured.

use vstd::prelude::*;

verus! {

/// Configuration surface of the relay.
#[derive(Debug)]
pub struct Config {
    /// The static credential that admits listener connections; never rotated.
    pub listen_password: String,
    /// Port of the listener endpoint.
    pub listen_port: u16,
    /// Port of the control endpoint.
    pub control_port: u16,
    /// Whether the listener transport is wrapped in a secure channel.
    pub listen_tls: bool,
    /// Path of the identity material, when `listen_tls` is set.
    pub identity_file: Option<String>,
    /// Password of the identity material, when `listen_tls` is set.
    pub identity_password: Option<String>,
}

} // verus!
