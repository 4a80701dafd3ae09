use rusty_hue_controller::errors::PairingError;
use rusty_hue_controller::pairing::client_id_from_hardware;
use rusty_hue_controller::pairing::derive_client_id;
use rusty_hue_controller::pairing::interpret_registration;
use rusty_hue_controller::pairing::RegistrationOutcome;

#[test]
fn client_id_is_the_hardware_id() {
    let r = client_id_from_hardware(Some(String::from("aa:bb:cc:dd:ee:ff")));
    assert_eq!(r.unwrap(), "aa:bb:cc:dd:ee:ff");
}

#[test]
fn missing_hardware_id_is_reported() {
    let r = client_id_from_hardware(None);
    assert!(matches!(r, Err(PairingError::NoHardwareId)));
}

#[test]
fn derived_id_is_never_empty() {
    // the outcome depends on the machine; the contract holds either way
    match derive_client_id() {
        Ok(id) => assert!(!id.is_empty()),
        Err(e) => assert!(matches!(e, PairingError::NoHardwareId)),
    }
}

#[test]
fn granted_token_becomes_a_credential() {
    let r = interpret_registration(
        "192.168.1.3",
        RegistrationOutcome::Granted(String::from("issued-token")),
    );
    let info = r.unwrap();
    assert_eq!(info.ip_addr, "192.168.1.3");
    assert_eq!(info.client_token, "issued-token");
}

#[test]
fn rejection_means_button_not_pressed() {
    let r = interpret_registration("192.168.1.3", RegistrationOutcome::Rejected);
    assert!(matches!(r, Err(PairingError::ButtonNotPressed)));
}

#[test]
fn empty_grant_counts_as_rejection() {
    let r = interpret_registration("192.168.1.3", RegistrationOutcome::Granted(String::new()));
    assert!(matches!(r, Err(PairingError::ButtonNotPressed)));
}
