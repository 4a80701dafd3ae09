//! Bridge discovery decisions: what the multicast listening loop does with
//! each response it receives, and the outcome of a whole listen window. The
//! socket work happens outside; every decision is fixed here.

use vstd::prelude::*;

use crate::errors::DiscoveryError;

verus! {

/// A network address in either family, as plain integers.
#[derive(Clone, Copy, Debug, PartialEq, Eq, Structural)]
pub enum IpAddress {
    V4(u32),
    V6(u128),
}

/// One record out of a discovery response: an address record of either
/// family, or any other record kind, which discovery ignores.
#[derive(Clone, Copy, Debug, PartialEq, Eq, Structural)]
pub enum DnsRecord {
    A(u32),
    Aaaa(u128),
    Other,
}

/// The address a single record advertises, if it is an address record.
pub open spec fn record_addr(r: DnsRecord) -> Option<IpAddress> {
    match r {
        DnsRecord::A(a) => Some(IpAddress::V4(a)),
        DnsRecord::Aaaa(a) => Some(IpAddress::V6(a)),
        DnsRecord::Other => None,
    }
}

/// Convert one record to the address it advertises, if any.
pub fn to_ip_addr(record: &DnsRecord) -> (r: Option<IpAddress>)
    ensures
        r == record_addr(*record),
{
    match record {
        DnsRecord::A(a) => Some(IpAddress::V4(*a)),
        DnsRecord::Aaaa(a) => Some(IpAddress::V6(*a)),
        DnsRecord::Other => None,
    }
}

/// The first address record in a response, in record order.
pub open spec fn first_addr(records: Seq<DnsRecord>) -> Option<IpAddress>
    decreases records.len(),
{
    if records.len() == 0 {
        None
    } else {
        match record_addr(records[0]) {
            Some(a) => Some(a),
            None => first_addr(records.drop_first()),
        }
    }
}

/// The address a whole response yields: its first address record.
pub fn response_addr(records: &Vec<DnsRecord>) -> (r: Option<IpAddress>)
    ensures
        r == first_addr(records@),
{
    let n: usize = records.len();
    proof {
        assert(records@.skip(0) =~= records@);
    }
    for i in 0..n
        invariant
            n == records@.len(),
            first_addr(records@) == first_addr(records@.skip(i as int)),
    {
        let found = to_ip_addr(&records[i]);
        proof {
            assert(records@.skip(i as int)[0] == records@[i as int]);
            assert(records@.skip(i as int).drop_first() =~= records@.skip(i + 1));
        }
        if let Some(addr) = found {
            return Some(addr);
        }
    }
    proof {
        assert(records@.skip(n as int) =~= Seq::<DnsRecord>::empty());
    }
    None
}

/// One event observed while listening: a discovery response arrived, or the
/// listen window elapsed.
pub enum DiscoveryEvent {
    Response(Vec<DnsRecord>),
    WindowElapsed,
}

/// What the listening loop does with one event.
#[derive(Clone, Copy, Debug, PartialEq, Eq, Structural)]
pub enum DiscoveryStep {
    /// An address record arrived: discovery ends with this address.
    Found(IpAddress),
    /// The response held no address record: keep listening.
    Continue,
    /// The window elapsed with no address found: discovery fails.
    GiveUp,
}

/// Decide one step of the listening loop. Discovery never gives up on a
/// response: only the elapsed window ends it without an address.
pub fn discovery_step(event: &DiscoveryEvent) -> (r: DiscoveryStep)
    ensures
        match event {
            DiscoveryEvent::WindowElapsed => r == DiscoveryStep::GiveUp,
            DiscoveryEvent::Response(records) => match first_addr(records@) {
                Some(a) => r == DiscoveryStep::Found(a),
                None => r == DiscoveryStep::Continue,
            },
        },
{
    match event {
        DiscoveryEvent::WindowElapsed => DiscoveryStep::GiveUp,
        DiscoveryEvent::Response(records) => match response_addr(records) {
            Some(addr) => DiscoveryStep::Found(addr),
            None => DiscoveryStep::Continue,
        },
    }
}

/// The outcome of a listen window that observed `events` in order: the first
/// advertised address wins; the elapsed window, or the end of the event
/// stream, fails the discovery — and nothing earlier does.
pub open spec fn discovery_outcome(events: Seq<DiscoveryEvent>) -> Result<
    IpAddress,
    DiscoveryError,
>
    decreases events.len(),
{
    if events.len() == 0 {
        Err(DiscoveryError::NotFound)
    } else {
        match events[0] {
            DiscoveryEvent::WindowElapsed => Err(DiscoveryError::NotFound),
            DiscoveryEvent::Response(records) => match first_addr(records@) {
                Some(a) => Ok(a),
                None => discovery_outcome(events.drop_first()),
            },
        }
    }
}

/// Run the discovery decisions over an observed event sequence.
pub fn discover_from_events(events: &Vec<DiscoveryEvent>) -> (r: Result<IpAddress, DiscoveryError>)
    ensures
        r == discovery_outcome(events@),
{
    let n: usize = events.len();
    proof {
        assert(events@.skip(0) =~= events@);
    }
    for i in 0..n
        invariant
            n == events@.len(),
            discovery_outcome(events@) == discovery_outcome(events@.skip(i as int)),
    {
        proof {
            assert(events@.skip(i as int)[0] == events@[i as int]);
            assert(events@.skip(i as int).drop_first() =~= events@.skip(i + 1));
        }
        match discovery_step(&events[i]) {
            DiscoveryStep::Found(addr) => {
                return Ok(addr);
            },
            DiscoveryStep::GiveUp => {
                return Err(DiscoveryError::NotFound);
            },
            DiscoveryStep::Continue => {},
        }
    }
    proof {
        assert(events@.skip(n as int) =~= Seq::<DiscoveryEvent>::empty());
    }
    Err(DiscoveryError::NotFound)
}

} // verus!
