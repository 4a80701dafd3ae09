use rusty_hue_controller::discovery::discover_from_events;
use rusty_hue_controller::discovery::discovery_step;
use rusty_hue_controller::discovery::response_addr;
use rusty_hue_controller::discovery::to_ip_addr;
use rusty_hue_controller::discovery::DiscoveryEvent;
use rusty_hue_controller::discovery::DiscoveryStep;
use rusty_hue_controller::discovery::DnsRecord;
use rusty_hue_controller::discovery::IpAddress;
use rusty_hue_controller::errors::DiscoveryError;

const ADDR4: u32 = 0xC0A8_0105;
const ADDR6: u128 = 0xFE80_0000_0000_0000_0000_0000_0000_0001;

#[test]
fn address_records_convert() {
    assert_eq!(to_ip_addr(&DnsRecord::A(ADDR4)), Some(IpAddress::V4(ADDR4)));
    assert_eq!(to_ip_addr(&DnsRecord::Aaaa(ADDR6)), Some(IpAddress::V6(ADDR6)));
    assert_eq!(to_ip_addr(&DnsRecord::Other), None);
}

#[test]
fn first_address_record_wins() {
    let records = vec![DnsRecord::Other, DnsRecord::A(ADDR4), DnsRecord::Aaaa(ADDR6)];
    assert_eq!(response_addr(&records), Some(IpAddress::V4(ADDR4)));
    assert_eq!(response_addr(&vec![DnsRecord::Other]), None);
    assert_eq!(response_addr(&vec![]), None);
}

#[test]
fn responder_within_window_is_found() {
    let events = vec![
        DiscoveryEvent::Response(vec![DnsRecord::Other]),
        DiscoveryEvent::Response(vec![DnsRecord::Other, DnsRecord::A(ADDR4)]),
        DiscoveryEvent::WindowElapsed,
    ];
    assert_eq!(discover_from_events(&events), Ok(IpAddress::V4(ADDR4)));
}

#[test]
fn no_responder_fails_only_when_window_elapses() {
    // a response without an address record keeps the listener going
    let quiet = DiscoveryEvent::Response(vec![DnsRecord::Other]);
    assert_eq!(discovery_step(&quiet), DiscoveryStep::Continue);
    // failure comes from the elapsed window, not before
    assert_eq!(discovery_step(&DiscoveryEvent::WindowElapsed), DiscoveryStep::GiveUp);
    let events = vec![
        DiscoveryEvent::Response(vec![DnsRecord::Other]),
        DiscoveryEvent::WindowElapsed,
    ];
    assert_eq!(discover_from_events(&events), Err(DiscoveryError::NotFound));
}

#[test]
fn ended_stream_without_address_fails() {
    let events: Vec<DiscoveryEvent> = vec![];
    assert_eq!(discover_from_events(&events), Err(DiscoveryError::NotFound));
}
