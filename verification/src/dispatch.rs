//! What the server does with each event the network hands it: a client
//! joins, leaves, announces its UDP port, or sends a message.
//!
//! A joining client's entity is spawned by the caller, which runs the
//! physics; the event carries the entity's id and quantised position.

use vstd::prelude::*;
use std::collections::HashMap;

use crate::address_book::{AddressBook, AddressMaps, spec_forget, spec_init_network, spec_resolve, udp_endpoint};
use crate::client::{ClientState, spec_feed_input};
use crate::data::{NetworkData, DataModel, DespawnData, PositionData};
use crate::packet::{NetworkPacket, PacketModel};
use crate::server_state::{ServerState, is_ordering, join_notices, packets_view};

verus! {

/// An event from the network.
#[derive(Debug)]
pub enum ServerEvent {
    /// A client connected at `addr`; its entity `player_id` was spawned at
    /// `player_pos`.
    Join { addr: u64, player_id: u32, player_pos: PositionData },
    /// The client at this endpoint disconnected.
    Leave(u64),
    /// The client at this endpoint announced this UDP port.
    InitNetwork(u64, u16),
    /// A message arrived.
    Data(NetworkPacket),
}

/// What handling an event calls for.
#[derive(Debug)]
pub struct Reaction {
    /// The packets to send, in order.
    pub packets: Vec<NetworkPacket>,
    /// The entity to despawn, when a connected client left.
    pub despawned: Option<u32>,
    /// The client that sent a message the server does not handle.
    pub unhandled: Option<u64>,
}

/// The address pairing after an event.
pub open spec fn book_step(m: AddressMaps, ev: ServerEvent) -> AddressMaps {
    match ev {
        ServerEvent::Leave(a) => spec_forget(m, a),
        ServerEvent::InitNetwork(a, p) => spec_init_network(m, a, p),
        _ => m,
    }
}

/// The clients after an event, given the address pairing before it. A
/// message is attributed through the pairing; only input changes anything,
/// and only for a connected client.
pub open spec fn clients_step(c: Map<u64, ClientState>, m: AddressMaps, ev: ServerEvent) -> Map<
    u64,
    ClientState,
> {
    match ev {
        ServerEvent::Join { addr, player_id, player_pos } => c.insert(
            addr,
            ClientState { id: player_id, input: 0, input_sequence: 0 },
        ),
        ServerEvent::Leave(a) => c.remove(a),
        ServerEvent::InitNetwork(_, _) => c,
        ServerEvent::Data(p) => match spec_resolve(m, p.is_tcp, p.addrs@[0]) {
            Some(a) => match p.data {
                NetworkData::Input(d) => if c.contains_key(a) {
                    c.insert(a, spec_feed_input(c[a], d))
                } else {
                    c
                },
                _ => c,
            },
            None => c,
        },
    }
}

/// Handles one event: updates the clients and the address pairing and
/// returns what to send, which entity to despawn, and who sent a message
/// the server does not handle. A message from a UDP endpoint that no client
/// announced is dropped.
pub fn handle_event(
    state: &mut ServerState,
    book: &mut AddressBook,
    event: ServerEvent,
    positions: &HashMap<u32, PositionData>,
) -> (r: Reaction)
    requires
        event is Data ==> event->Data_0.addrs@.len() > 0,
    ensures
        final(book)@ == book_step(old(book)@, event),
        final(state).tick_id == old(state).tick_id,
        final(state).clients@ == clients_step(old(state).clients@, old(book)@, event),
        match event {
            ServerEvent::Join { addr, player_id, player_pos } => {
                &&& r.despawned is None
                &&& r.unhandled is None
                &&& exists|ks1: Seq<u64>, ks2: Seq<u64>|
                    #![trigger is_ordering(ks1, final(state).clients@.dom()), is_ordering(ks2, final(state).clients@.dom())]
                    is_ordering(ks1, final(state).clients@.dom()) && is_ordering(
                        ks2,
                        final(state).clients@.dom(),
                    ) && packets_view(r.packets@) == join_notices(
                        ks1,
                        ks2,
                        final(state).clients@,
                        positions@,
                        addr,
                        player_id,
                        player_pos,
                        old(state).tick_id,
                    )
            },
            ServerEvent::Leave(addr) => {
                &&& r.unhandled is None
                &&& !old(state).clients@.contains_key(addr) ==> r.despawned is None
                    && r.packets@.len() == 0
                &&& old(state).clients@.contains_key(addr) ==> {
                    &&& r.despawned == Some(old(state).clients@[addr].id)
                    &&& exists|ks: Seq<u64>|
                        #[trigger] is_ordering(ks, final(state).clients@.dom()) && packets_view(
                            r.packets@,
                        ) == if ks.len() > 0 {
                            seq![
                                PacketModel {
                                    is_tcp: true,
                                    addrs: ks,
                                    tick_id: old(state).tick_id,
                                    data: DataModel::Despawn(
                                        DespawnData { entity_id: old(state).clients@[addr].id },
                                    ),
                                },
                            ]
                        } else {
                            Seq::<PacketModel>::empty()
                        }
                }
            },
            ServerEvent::InitNetwork(_, _) => {
                &&& r.packets@.len() == 0
                &&& r.despawned is None
                &&& r.unhandled is None
            },
            ServerEvent::Data(p) => {
                &&& r.packets@.len() == 0
                &&& r.despawned is None
                &&& r.unhandled == match spec_resolve(old(book)@, p.is_tcp, p.addrs@[0]) {
                    Some(a) => if p.data is Input {
                        None
                    } else {
                        Some(a)
                    },
                    None => None::<u64>,
                }
            },
        },
{
    match event {
        ServerEvent::Join { addr, player_id, player_pos } => {
            let packets = state.join(addr, player_id, player_pos, positions);
            Reaction { packets, despawned: None, unhandled: None }
        },
        ServerEvent::Leave(addr) => {
            book.forget(addr);
            let (despawned, packet) = state.leave(addr);
            let mut packets: Vec<NetworkPacket> = Vec::new();
            match packet {
                Some(p) => {
                    packets.push(p);
                },
                None => {},
            }
            proof {
                if old(state).clients@.contains_key(addr) {
                    let ks = choose|ks: Seq<u64>|
                        #[trigger] is_ordering(ks, state.clients@.dom()) && crate::server_state::packet_view(
                            packet,
                        ) == if ks.len() > 0 {
                            Some(
                                PacketModel {
                                    is_tcp: true,
                                    addrs: ks,
                                    tick_id: old(state).tick_id,
                                    data: DataModel::Despawn(
                                        DespawnData { entity_id: old(state).clients@[addr].id },
                                    ),
                                },
                            )
                        } else {
                            None
                        };
                    if ks.len() > 0 {
                        assert(packets_view(packets@) =~= seq![packet.unwrap()@]);
                    } else {
                        assert(packets_view(packets@) =~= Seq::<PacketModel>::empty());
                    }
                }
            }
            Reaction { packets, despawned, unhandled: None }
        },
        ServerEvent::InitNetwork(addr, port) => {
            book.init_network(addr, port);
            Reaction { packets: Vec::new(), despawned: None, unhandled: None }
        },
        ServerEvent::Data(packet) => {
            let from = packet.get_addr();
            match book.resolve(packet.is_tcp, from) {
                Some(a) => {
                    let handled = state.data(&packet, a);
                    let unhandled = if handled {
                        None
                    } else {
                        Some(a)
                    };
                    Reaction { packets: Vec::new(), despawned: None, unhandled }
                },
                None => Reaction { packets: Vec::new(), despawned: None, unhandled: None },
            }
        },
    }
}

/// The address pairing after a run of events.
pub open spec fn books_after(m: AddressMaps, evs: Seq<ServerEvent>) -> AddressMaps
    decreases evs.len(),
{
    if evs.len() == 0 {
        m
    } else {
        book_step(books_after(m, evs.drop_last()), evs.last())
    }
}

/// The clients after a run of events.
pub open spec fn clients_after(c: Map<u64, ClientState>, m: AddressMaps, evs: Seq<ServerEvent>) -> Map<
    u64,
    ClientState,
>
    decreases evs.len(),
{
    if evs.len() == 0 {
        c
    } else {
        clients_step(
            clients_after(c, m, evs.drop_last()),
            books_after(m, evs.drop_last()),
            evs.last(),
        )
    }
}

/// Whether an event, on pairing `m`, leaves UDP endpoint `u` with client
/// `a`: it is not `a` leaving, nor another client leaving whose pair is
/// `u`, nor another client announcing `u` as its own.
pub open spec fn keeps_attribution(m: AddressMaps, ev: ServerEvent, a: u64, u: u64) -> bool {
    match ev {
        ServerEvent::Leave(b) => b != a && !(m.tcp_to_udp.contains_key(b) && m.tcp_to_udp[b] == u),
        ServerEvent::InitNetwork(b, p) => b == a || udp_endpoint(b, p) != u,
        _ => true,
    }
}

/// Once client `a` is connected and UDP endpoint `u` is attributed to it,
/// any run of events that keeps the attribution leaves `a` connected and
/// `u` attributed to `a`: a UDP message from `u` then reaches `a`.
pub proof fn lemma_attribution_persists(
    c: Map<u64, ClientState>,
    m: AddressMaps,
    evs: Seq<ServerEvent>,
    a: u64,
    u: u64,
)
    requires
        c.contains_key(a),
        spec_resolve(m, false, u) == Some(a),
        forall|i: int|
            0 <= i < evs.len() ==> #[trigger] keeps_attribution(
                books_after(m, evs.take(i)),
                evs[i],
                a,
                u,
            ),
    ensures
        clients_after(c, m, evs).contains_key(a),
        spec_resolve(books_after(m, evs), false, u) == Some(a),
    decreases evs.len(),
{
    if evs.len() > 0 {
        let init = evs.drop_last();
        assert forall|i: int| 0 <= i < init.len() implies #[trigger] keeps_attribution(
            books_after(m, init.take(i)),
            init[i],
            a,
            u,
        ) by {
            assert(init.take(i) =~= evs.take(i));
            assert(keeps_attribution(books_after(m, evs.take(i)), evs[i], a, u));
        }
        lemma_attribution_persists(c, m, init, a, u);
        assert(evs.take(evs.len() - 1) =~= init);
        assert(keeps_attribution(books_after(m, evs.take(evs.len() - 1)), evs[evs.len() - 1], a, u));
    }
}

/// Client `a` joins as entity `player_id` and announces UDP port `q`.
pub open spec fn join_and_announce(a: u64, player_id: u32, player_pos: PositionData, q: u16) -> Seq<
    ServerEvent,
> {
    seq![ServerEvent::Join { addr: a, player_id, player_pos }, ServerEvent::InitNetwork(a, q)]
}

/// A client that joined at `a` and announced UDP port `q` has its UDP input
/// taken as its own after any run of events that keeps the attribution.
pub proof fn lemma_udp_input_reaches_client(
    c: Map<u64, ClientState>,
    m: AddressMaps,
    a: u64,
    player_id: u32,
    player_pos: PositionData,
    q: u16,
    evs: Seq<ServerEvent>,
    p: NetworkPacket,
)
    requires
        !p.is_tcp,
        p.addrs@ == seq![udp_endpoint(a, q)],
        p.data is Input,
        forall|i: int|
            0 <= i < evs.len() ==> #[trigger] keeps_attribution(
                books_after(books_after(m, join_and_announce(a, player_id, player_pos, q)), evs.take(i)),
                evs[i],
                a,
                udp_endpoint(a, q),
            ),
    ensures
        ({
            let all = join_and_announce(a, player_id, player_pos, q) + evs;
            let before = clients_after(c, m, all);
            let after = clients_after(c, m, all.push(ServerEvent::Data(p)));
            &&& before.contains_key(a)
            &&& after == before.insert(a, spec_feed_input(before[a], p.data->Input_0))
        }),
{
    let u = udp_endpoint(a, q);
    let pre = join_and_announce(a, player_id, player_pos, q);
    let all = pre + evs;
    let j = seq![ServerEvent::Join { addr: a, player_id, player_pos }];
    assert(pre.drop_last() =~= j);
    assert(j.drop_last() =~= Seq::<ServerEvent>::empty());
    assert(j.len() == 1 && j.last() == ServerEvent::Join { addr: a, player_id, player_pos });
    assert(clients_after(c, m, j.drop_last()) == c);
    assert(books_after(m, j.drop_last()) == m);
    assert(pre.last() == ServerEvent::InitNetwork(a, q));
    assert(clients_after(c, m, j) == c.insert(
        a,
        ClientState { id: player_id, input: 0, input_sequence: 0 },
    ));
    assert(books_after(m, j) == m);
    let c2 = clients_after(c, m, pre);
    let m2 = books_after(m, pre);
    assert(c2 == clients_after(c, m, j));
    assert(m2 == spec_init_network(m, a, q));
    assert(c2.contains_key(a));
    assert(spec_resolve(m2, false, u) == Some(a));
    assert forall|i: int| 0 <= i < evs.len() implies #[trigger] keeps_attribution(
        books_after(m2, evs.take(i)),
        evs[i],
        a,
        u,
    ) by {
    }
    lemma_attribution_persists(c2, m2, evs, a, u);
    lemma_after_concat(c, m, pre, evs);
    assert(all.push(ServerEvent::Data(p)).drop_last() =~= all);
}

/// Running two stretches of events one after the other is running them
/// joined.
pub proof fn lemma_after_concat(
    c: Map<u64, ClientState>,
    m: AddressMaps,
    a: Seq<ServerEvent>,
    b: Seq<ServerEvent>,
)
    ensures
        books_after(m, a + b) == books_after(books_after(m, a), b),
        clients_after(c, m, a + b) == clients_after(clients_after(c, m, a), books_after(m, a), b),
    decreases b.len(),
{
    if b.len() == 0 {
        assert(a + b =~= a);
    } else {
        lemma_after_concat(c, m, a, b.drop_last());
        assert((a + b).drop_last() =~= a + b.drop_last());
        assert((a + b).last() == b.last());
    }
}

/// Input from a client is taken as that client's input whichever way it
/// came: over TCP from the client's own endpoint, or over UDP from the
/// endpoint its pairing names. The client is fed the input by its sequence
/// rule and every other client stays as it was; input from a UDP endpoint
/// that no client announced changes nothing.
pub proof fn lemma_input_is_attributed(
    c: Map<u64, ClientState>,
    m: AddressMaps,
    p: NetworkPacket,
    d: crate::data::InputData,
)
    requires
        p.addrs@.len() > 0,
        p.data == NetworkData::Input(d),
    ensures
        p.is_tcp && c.contains_key(p.addrs@[0]) ==> clients_step(c, m, ServerEvent::Data(p))
            == c.insert(p.addrs@[0], spec_feed_input(c[p.addrs@[0]], d)),
        !p.is_tcp && m.udp_to_tcp.contains_key(p.addrs@[0]) && c.contains_key(
            m.udp_to_tcp[p.addrs@[0]],
        ) ==> clients_step(c, m, ServerEvent::Data(p)) == c.insert(
            m.udp_to_tcp[p.addrs@[0]],
            spec_feed_input(c[m.udp_to_tcp[p.addrs@[0]]], d),
        ),
        !p.is_tcp && !m.udp_to_tcp.contains_key(p.addrs@[0]) ==> clients_step(
            c,
            m,
            ServerEvent::Data(p),
        ) == c,
{
}

} // verus!
