//! The sender's table of connected clients and the routing of outgoing
//! packets.
//!
//! Each connected client is known by its TCP endpoint. A client that has
//! announced a UDP port also receives UDP packets, at its address and that
//! port; before that, UDP packets to it are dropped.

use vstd::prelude::*;
use std::collections::HashMap;

use crate::addr::{with_port, endpoint_ip, endpoint_port};
use crate::packet::NetworkPacket;

verus! {

broadcast use vstd::std_specs::hash::group_hash_axioms;

/// What to do with an outgoing packet for one of its endpoints.
#[derive(Debug, Clone, Copy, PartialEq, Eq, Structural)]
pub enum SendAction {
    /// Write the TCP frame to the connection of this client.
    Tcp(u64),
    /// Send the UDP datagram to this endpoint.
    Udp(u64),
    /// The endpoint is not a connected client; nothing is sent.
    Missing(u64),
}

/// What routing a packet to endpoint `a` does, given the clients' UDP ports
/// (0 when not announced yet). UDP to a client without a port sends nothing.
pub open spec fn route_one(ports: Map<u64, u16>, is_tcp: bool, a: u64) -> Seq<SendAction> {
    if !ports.contains_key(a) {
        seq![SendAction::Missing(a)]
    } else if is_tcp {
        seq![SendAction::Tcp(a)]
    } else if ports[a] == 0 {
        seq![]
    } else {
        seq![SendAction::Udp(((endpoint_ip(a) * 65536) + ports[a]) as u64)]
    }
}

/// What routing a packet to each of `addrs`, in order, does.
pub open spec fn spec_route(ports: Map<u64, u16>, is_tcp: bool, addrs: Seq<u64>) -> Seq<SendAction>
    decreases addrs.len(),
{
    if addrs.len() == 0 {
        seq![]
    } else {
        spec_route(ports, is_tcp, addrs.drop_last()) + route_one(ports, is_tcp, addrs.last())
    }
}

/// The table after a client connects at `addr`: no UDP port yet.
pub open spec fn spec_join(ports: Map<u64, u16>, addr: u64) -> Map<u64, u16> {
    ports.insert(addr, 0)
}

/// The table after the client at `addr` disconnects.
pub open spec fn spec_leave(ports: Map<u64, u16>, addr: u64) -> Map<u64, u16> {
    ports.remove(addr)
}

/// The table after the client at `addr` announces UDP port `port`: only the
/// first announcement of a connected client counts.
pub open spec fn spec_init_udp(ports: Map<u64, u16>, addr: u64, port: u16) -> Map<u64, u16> {
    if ports.contains_key(addr) && ports[addr] == 0 {
        ports.insert(addr, port)
    } else {
        ports
    }
}

/// The clients the sender can write to, with the UDP port each announced.
pub struct SenderClients {
    udp_ports: HashMap<u64, u16>,
}

impl View for SenderClients {
    type V = Map<u64, u16>;

    closed spec fn view(&self) -> Map<u64, u16> {
        self.udp_ports@
    }
}

impl SenderClients {
    /// No clients.
    pub fn new() -> (s: Self)
        ensures
            s@ == Map::<u64, u16>::empty(),
    {
        SenderClients { udp_ports: HashMap::new() }
    }

    /// A client connected; it has no UDP port yet.
    pub fn join(&mut self, addr: u64)
        ensures
            final(self)@ == spec_join(old(self)@, addr),
    {
        self.udp_ports.insert(addr, 0);
    }

    /// A client disconnected.
    pub fn leave(&mut self, addr: u64)
        ensures
            final(self)@ == spec_leave(old(self)@, addr),
    {
        self.udp_ports.remove(&addr);
    }

    /// A client announced its UDP port. Only the first announcement of a
    /// connected client counts.
    pub fn init_udp(&mut self, addr: u64, udp_port: u16)
        ensures
            final(self)@ == spec_init_udp(old(self)@, addr, udp_port),
    {
        let current = match self.udp_ports.get(&addr) {
            Some(p) => Some(*p),
            None => None,
        };
        match current {
            Some(p) => {
                if p == 0 {
                    self.udp_ports.insert(addr, udp_port);
                }
            },
            None => {},
        }
    }

    /// The UDP port of a client, if it is connected.
    pub fn udp_port(&self, addr: u64) -> (p: Option<u16>)
        ensures
            p == if self@.contains_key(addr) {
                Some(self@[addr])
            } else {
                None::<u16>
            },
    {
        match self.udp_ports.get(&addr) {
            Some(p) => Some(*p),
            None => None,
        }
    }

    /// What to do for each endpoint of an outgoing packet, in order.
    pub fn route(&self, packet: &NetworkPacket) -> (actions: Vec<SendAction>)
        ensures
            actions@ == spec_route(self@, packet.is_tcp, packet.addrs@),
    {
        let mut actions: Vec<SendAction> = Vec::new();
        let mut i: usize = 0;
        while i < packet.addrs.len()
            invariant
                0 <= i <= packet.addrs@.len(),
                actions@ == spec_route(self@, packet.is_tcp, packet.addrs@.take(i as int)),
            decreases packet.addrs@.len() - i,
        {
            let a = packet.addrs[i];
            let ghost before = actions@;
            match self.udp_port(a) {
                None => {
                    actions.push(SendAction::Missing(a));
                },
                Some(port) => {
                    if packet.is_tcp {
                        actions.push(SendAction::Tcp(a));
                    } else if port != 0 {
                        let dest = with_port(a, port);
                        assert(dest as int == endpoint_ip(a) * 65536 + port);
                        actions.push(SendAction::Udp(dest));
                    }
                },
            }
            proof {
                let t = packet.addrs@.take(i + 1);
                assert(t.drop_last() =~= packet.addrs@.take(i as int));
                assert(t.last() == a);
                assert(actions@ =~= before + route_one(self@, packet.is_tcp, a));
            }
            i = i + 1;
        }
        assert(packet.addrs@.take(packet.addrs@.len() as int) =~= packet.addrs@);
        actions
    }
}

/// Routing a packet for one endpoint is routing it for that endpoint.
pub proof fn lemma_route_single(ports: Map<u64, u16>, is_tcp: bool, a: u64)
    ensures
        spec_route(ports, is_tcp, seq![a]) == route_one(ports, is_tcp, a),
{
    assert(seq![a].drop_last() =~= Seq::<u64>::empty());
    assert(seq![a].last() == a);
    assert(spec_route(ports, is_tcp, Seq::<u64>::empty()) == Seq::<SendAction>::empty());
    assert(Seq::<SendAction>::empty() + route_one(ports, is_tcp, a) =~= route_one(ports, is_tcp, a));
}

/// A client that just connected gets TCP packets, and UDP packets for it
/// are dropped until it announces a port.
pub proof fn lemma_new_client_routes(ports: Map<u64, u16>, addr: u64)
    ensures
        spec_route(spec_join(ports, addr), true, seq![addr]) == seq![SendAction::Tcp(addr)],
        spec_route(spec_join(ports, addr), false, seq![addr]) == Seq::<SendAction>::empty(),
{
    lemma_route_single(spec_join(ports, addr), true, addr);
    lemma_route_single(spec_join(ports, addr), false, addr);
}

/// Once a client has announced a nonzero UDP port, UDP packets for it go to
/// that port on its address, and later announcements change nothing.
pub proof fn lemma_announced_port_routes(ports: Map<u64, u16>, addr: u64, port: u16, later: u16)
    requires
        port != 0,
    ensures
        ({
            let t = spec_init_udp(spec_join(ports, addr), addr, port);
            &&& spec_route(t, false, seq![addr]) == seq![
                SendAction::Udp(((endpoint_ip(addr) * 65536) + port) as u64),
            ]
            &&& spec_init_udp(t, addr, later) == t
        }),
{
    let t = spec_init_udp(spec_join(ports, addr), addr, port);
    lemma_route_single(t, false, addr);
}

/// Nothing is sent to a client after it disconnects.
pub proof fn lemma_left_client_missing(ports: Map<u64, u16>, addr: u64, is_tcp: bool)
    ensures
        spec_route(spec_leave(ports, addr), is_tcp, seq![addr]) == seq![SendAction::Missing(addr)],
{
    lemma_route_single(spec_leave(ports, addr), is_tcp, addr);
}

/// Routing a packet for several endpoints is routing it for each, in order.
pub proof fn lemma_route_concat(ports: Map<u64, u16>, is_tcp: bool, a: Seq<u64>, b: Seq<u64>)
    ensures
        spec_route(ports, is_tcp, a + b) == spec_route(ports, is_tcp, a) + spec_route(
            ports,
            is_tcp,
            b,
        ),
    decreases b.len(),
{
    if b.len() == 0 {
        assert(a + b =~= a);
    } else {
        lemma_route_concat(ports, is_tcp, a, b.drop_last());
        assert((a + b).drop_last() =~= a + b.drop_last());
        assert((a + b).last() == b.last());
    }
}

} // verus!
