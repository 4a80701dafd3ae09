//! Verified core of a Philips Hue group controller: credential encoding and
//! persistence outcomes, group lookup and power-command planning, bridge
//! discovery and pairing decisions. Network and file I/O live outside this
//! crate; the functions here compute every decision from plain values.

pub mod credentials;
pub mod errors;
pub mod text;
pub mod discovery;
pub mod groups;
pub mod pairing;

use vstd::prelude::*;

verus! {

/// Connection record for a paired bridge: its address and the client token it
/// issued. Persisted as a flat JSON object and read back at every start.
pub struct BridgeInfo {
    pub ip_addr: String,
    pub client_token: String,
}

impl BridgeInfo {
    /// A credential is fit to persist only when both fields are non-empty.
    pub open spec fn valid(self) -> bool {
        self.ip_addr@.len() > 0 && self.client_token@.len() > 0
    }
}

} // verus!
