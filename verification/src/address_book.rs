//! The server's pairing of each client's TCP endpoint with the UDP endpoint
//! it announced, used to attribute UDP messages to clients.

use vstd::prelude::*;
use std::collections::HashMap;

use crate::addr::{with_port, endpoint_ip};

verus! {

broadcast use vstd::std_specs::hash::group_hash_axioms;

/// The UDP endpoint of a client at TCP endpoint `addr` that announced `port`:
/// the same address, the announced port.
pub open spec fn udp_endpoint(addr: u64, port: u16) -> u64 {
    ((endpoint_ip(addr) * 65536) + port) as u64
}

/// The two directions of the pairing.
pub struct AddressMaps {
    pub udp_to_tcp: Map<u64, u64>,
    pub tcp_to_udp: Map<u64, u64>,
}

/// The pairing after the client at `addr` announced UDP port `port`.
pub open spec fn spec_init_network(m: AddressMaps, addr: u64, port: u16) -> AddressMaps {
    AddressMaps {
        udp_to_tcp: m.udp_to_tcp.insert(udp_endpoint(addr, port), addr),
        tcp_to_udp: m.tcp_to_udp.insert(addr, udp_endpoint(addr, port)),
    }
}

/// The pairing after the client at `addr` left: its pair is dropped from
/// both directions, if it had one.
pub open spec fn spec_forget(m: AddressMaps, addr: u64) -> AddressMaps {
    if m.tcp_to_udp.contains_key(addr) {
        AddressMaps {
            udp_to_tcp: m.udp_to_tcp.remove(m.tcp_to_udp[addr]),
            tcp_to_udp: m.tcp_to_udp.remove(addr),
        }
    } else {
        m
    }
}

/// The client a message from endpoint `addr` is attributed to: the sender
/// itself over TCP, the paired TCP endpoint over UDP, or nobody for an
/// unpaired UDP endpoint.
pub open spec fn spec_resolve(m: AddressMaps, is_tcp: bool, addr: u64) -> Option<u64> {
    if is_tcp {
        Some(addr)
    } else if m.udp_to_tcp.contains_key(addr) {
        Some(m.udp_to_tcp[addr])
    } else {
        None
    }
}

/// The pairing of TCP and UDP endpoints.
pub struct AddressBook {
    udp_to_tcp: HashMap<u64, u64>,
    tcp_to_udp: HashMap<u64, u64>,
}

impl View for AddressBook {
    type V = AddressMaps;

    closed spec fn view(&self) -> AddressMaps {
        AddressMaps { udp_to_tcp: self.udp_to_tcp@, tcp_to_udp: self.tcp_to_udp@ }
    }
}

impl AddressBook {
    /// No pairs.
    pub fn new() -> (b: Self)
        ensures
            b@.udp_to_tcp == Map::<u64, u64>::empty(),
            b@.tcp_to_udp == Map::<u64, u64>::empty(),
    {
        AddressBook { udp_to_tcp: HashMap::new(), tcp_to_udp: HashMap::new() }
    }

    /// The client at `addr` announced UDP port `port`.
    pub fn init_network(&mut self, addr: u64, port: u16)
        ensures
            final(self)@ == spec_init_network(old(self)@, addr, port),
    {
        let udp_addr = with_port(addr, port);
        self.udp_to_tcp.insert(udp_addr, addr);
        self.tcp_to_udp.insert(addr, udp_addr);
    }

    /// The client at `addr` left.
    pub fn forget(&mut self, addr: u64)
        ensures
            final(self)@ == spec_forget(old(self)@, addr),
    {
        match self.tcp_to_udp.remove(&addr) {
            Some(udp_addr) => {
                self.udp_to_tcp.remove(&udp_addr);
            },
            None => {
                assert(self.tcp_to_udp@ =~= old(self).tcp_to_udp@);
            },
        }
    }

    /// The client a message from `addr` is attributed to.
    pub fn resolve(&self, is_tcp: bool, addr: u64) -> (r: Option<u64>)
        ensures
            r == spec_resolve(self@, is_tcp, addr),
    {
        if is_tcp {
            Some(addr)
        } else {
            match self.udp_to_tcp.get(&addr) {
                Some(tcp) => Some(*tcp),
                None => None,
            }
        }
    }
}

/// After a client announces its UDP port, datagrams from that port on its
/// address are attributed to it.
pub proof fn lemma_announced_udp_resolves(m: AddressMaps, addr: u64, port: u16)
    ensures
        spec_resolve(spec_init_network(m, addr, port), false, udp_endpoint(addr, port)) == Some(addr),
{
}

/// After a client that announced a UDP port leaves, datagrams from that
/// endpoint are attributed to nobody.
pub proof fn lemma_forgotten_udp_unresolved(m: AddressMaps, addr: u64, port: u16)
    ensures
        spec_resolve(
            spec_forget(spec_init_network(m, addr, port), addr),
            false,
            udp_endpoint(addr, port),
        ) is None,
{
}

/// TCP messages are always attributed to their sender.
pub proof fn lemma_tcp_resolves_to_sender(m: AddressMaps, addr: u64)
    ensures
        spec_resolve(m, true, addr) == Some(addr),
{
}

} // verus!
