//! Pairing decisions: deriving the client identifier from the host's
//! hardware address, and turning the bridge's answer to a registration
//! request into a credential or an error. The registration request itself is
//! a network call and happens outside.

use vstd::prelude::*;

use crate::errors::PairingError;
use crate::BridgeInfo;

verus! {

/// Relies on mac_address::get_mac_address and the address's display form:
/// a read address renders as colon-separated hex pairs, never empty. A
/// failed read and an absent interface both yield `None`.
#[verifier::external_body]
fn read_hardware_id() -> (r: Option<String>)
    ensures
        r matches Some(s) ==> s@.len() > 0,
{
    match mac_address::get_mac_address() {
        Ok(Some(addr)) => Some(addr.to_string()),
        Ok(None) => None,
        Err(_) => None,
    }
}

/// The pairing username derived from a hardware identifier: the identifier
/// itself when one exists, and `NoHardwareId` otherwise.
pub fn client_id_from_hardware(hw: Option<String>) -> (r: Result<String, PairingError>)
    ensures
        match hw {
            Some(s) => r == Ok::<String, PairingError>(s),
            None => r == Err::<String, PairingError>(PairingError::NoHardwareId),
        },
{
    match hw {
        Some(s) => Ok(s),
        None => Err(PairingError::NoHardwareId),
    }
}

/// Derive the stable client identifier for this host. The result depends on
/// the machine; whatever it is, a returned identifier is non-empty and the
/// only possible failure is a missing hardware identifier.
pub fn derive_client_id() -> (r: Result<String, PairingError>)
    ensures
        r matches Ok(id) ==> id@.len() > 0,
        r matches Err(e) ==> e == PairingError::NoHardwareId,
{
    client_id_from_hardware(read_hardware_id())
}

/// The bridge's answer to one registration request, reduced to plain values.
pub enum RegistrationOutcome {
    /// The bridge issued this client token.
    Granted(String),
    /// The bridge refused; its button was not pressed in the prior window.
    Rejected,
}

/// Turn a registration answer into a credential. A grant with a usable
/// token yields a valid credential for the bridge that answered; a refusal,
/// or a grant carrying an empty token, is the button-not-pressed failure.
pub fn interpret_registration(bridge_ip: &str, outcome: RegistrationOutcome) -> (r: Result<
    BridgeInfo,
    PairingError,
>)
    requires
        bridge_ip@.len() > 0,
    ensures
        match outcome {
            RegistrationOutcome::Granted(tok) => if tok@.len() > 0 {
                r matches Ok(info) && info.ip_addr@ == bridge_ip@ && info.client_token@ == tok@
                    && info.valid()
            } else {
                r == Err::<BridgeInfo, PairingError>(PairingError::ButtonNotPressed)
            },
            RegistrationOutcome::Rejected => r == Err::<BridgeInfo, PairingError>(
                PairingError::ButtonNotPressed,
            ),
        },
{
    match outcome {
        RegistrationOutcome::Granted(tok) => {
            if tok.as_str().is_empty() {
                Err(PairingError::ButtonNotPressed)
            } else {
                Ok(BridgeInfo { ip_addr: String::from_str(bridge_ip), client_token: tok })
            }
        },
        RegistrationOutcome::Rejected => Err(PairingError::ButtonNotPressed),
    }
}

} // verus!
