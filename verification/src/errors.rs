//! Error taxonomy: one enum per failure domain, so callers can map each to an
//! actionable message or HTTP status without inspecting strings.

use vstd::prelude::*;

verus! {

/// Reading or writing the persisted credential record failed.
#[derive(Clone, Copy, Debug, PartialEq, Eq, Structural)]
pub enum PersistenceError {
    /// No credential record exists at the given location.
    NotFound,
    /// The stored content does not parse to the expected two-field object.
    MalformedData,
}

/// The one-time registration handshake with the bridge failed.
#[derive(Clone, Copy, Debug, PartialEq, Eq, Structural)]
pub enum PairingError {
    /// The bridge rejected the request; its physical button was not pressed
    /// within the prior window.
    ButtonNotPressed,
    /// No stable hardware identifier could be derived on this host.
    NoHardwareId,
}

/// A command round-trip to the bridge failed.
#[derive(Clone, Copy, Debug, PartialEq, Eq, Structural)]
pub enum BridgeError {
    /// The bridge could not be reached at the network level.
    Unreachable,
    /// The bridge answered with a non-success or malformed response.
    RemoteRejected,
}

/// A group operation could not be carried out.
#[derive(Clone, Copy, Debug, PartialEq, Eq, Structural)]
pub enum GroupError {
    /// No group with the requested name exists on the bridge.
    NotFound,
}

/// Bridge discovery on the local network failed.
#[derive(Clone, Copy, Debug, PartialEq, Eq, Structural)]
pub enum DiscoveryError {
    /// No address record arrived before the listen window elapsed.
    NotFound,
}

} // verus!
