//! The server's table of connected clients and the messages it sends when
//! clients join, leave, and at every tick.
//!
//! Entity positions come from the physics zone, already quantised, as a map
//! from entity id to position. Clients are kept in a hash map, so the order
//! in which they are visited is not fixed; the contracts state the messages
//! for some order in which every client appears exactly once, and the same
//! order is used for all the messages of one call.

use vstd::prelude::*;
use vstd::std_specs::iter::IteratorSpec;
use std::collections::HashMap;

use crate::client::{ClientState, spec_feed_input};
use crate::data::{
    InputData, NetworkData, DataModel, PositionData, EntityType, JoinData, SpawnData, DespawnData,
    EntitySnapshotData, EntitySpecificSnapshotData, PlayerSnapshotData, SnapshotData,
};
use crate::packet::{NetworkPacket, PacketModel};

verus! {

broadcast use vstd::std_specs::hash::group_hash_axioms;

/// `ks` lists every element of `dom` exactly once.
pub open spec fn is_ordering(ks: Seq<u64>, dom: Set<u64>) -> bool {
    ks.no_duplicates() && ks.to_set() == dom
}

/// `ks` without the endpoint `a`.
pub open spec fn without(ks: Seq<u64>, a: u64) -> Seq<u64>
    decreases ks.len(),
{
    if ks.len() == 0 {
        seq![]
    } else if ks.last() == a {
        without(ks.drop_last(), a)
    } else {
        without(ks.drop_last(), a).push(ks.last())
    }
}

/// The packet telling the client at `addr` that entity `id` is at `pos`.
pub open spec fn spawn_notice(addr: u64, tick: u32, id: u32, pos: PositionData) -> PacketModel {
    PacketModel {
        is_tcp: true,
        addrs: seq![addr],
        tick_id: tick,
        data: DataModel::Spawn(SpawnData { entity_type: EntityType::Player, entity_id: id, pos }),
    }
}

/// The spawn notices a new player (entity `player_id`, at `addr`) gets of
/// the players at `ks` whose entities have a position.
pub open spec fn existing_player_spawns(
    ks: Seq<u64>,
    clients: Map<u64, ClientState>,
    positions: Map<u32, PositionData>,
    player_id: u32,
    addr: u64,
    tick: u32,
) -> Seq<PacketModel>
    decreases ks.len(),
{
    if ks.len() == 0 {
        seq![]
    } else {
        let prev = existing_player_spawns(ks.drop_last(), clients, positions, player_id, addr, tick);
        let c = clients[ks.last()];
        if c.id != player_id && positions.contains_key(c.id) {
            prev.push(spawn_notice(addr, tick, c.id, positions[c.id]))
        } else {
            prev
        }
    }
}

/// The join message for the client at `addr`, which controls entity
/// `player_id` at `pos`.
pub open spec fn join_notice(addr: u64, tick: u32, player_id: u32, pos: PositionData) -> PacketModel {
    PacketModel {
        is_tcp: true,
        addrs: seq![addr],
        tick_id: tick,
        data: DataModel::Join(JoinData { player_id, pos }),
    }
}

/// The spawn message of the new player for the clients at `ks` other than
/// the new one, if there are any.
pub open spec fn new_player_spawn(
    ks: Seq<u64>,
    addr: u64,
    player_id: u32,
    pos: PositionData,
    tick: u32,
) -> Option<PacketModel> {
    let others = without(ks, addr);
    if others.len() > 0 {
        Some(
            PacketModel {
                is_tcp: true,
                addrs: others,
                tick_id: tick,
                data: DataModel::Spawn(
                    SpawnData { entity_type: EntityType::Player, entity_id: player_id, pos },
                ),
            },
        )
    } else {
        None
    }
}

/// The packets of an optional packet: none or one.
pub open spec fn option_seq(p: Option<PacketModel>) -> Seq<PacketModel> {
    match p {
        Some(p) => seq![p],
        None => seq![],
    }
}

/// The messages sent when the client at `addr` joins as entity `player_id`
/// at `pos`: its own join message, a spawn message for each other player
/// (visiting the clients in the order `ks1`), and, if there are other
/// clients, one spawn message of the new player to all of them (listed in
/// the order `ks2`).
pub open spec fn join_notices(
    ks1: Seq<u64>,
    ks2: Seq<u64>,
    clients: Map<u64, ClientState>,
    positions: Map<u32, PositionData>,
    addr: u64,
    player_id: u32,
    pos: PositionData,
    tick: u32,
) -> Seq<PacketModel> {
    seq![join_notice(addr, tick, player_id, pos)] + existing_player_spawns(
        ks1,
        clients,
        positions,
        player_id,
        addr,
        tick,
    ) + option_seq(new_player_spawn(ks2, addr, player_id, pos, tick))
}

/// The snapshot entries of the clients at `ks` whose entities have a position.
pub open spec fn snapshot_entities(
    ks: Seq<u64>,
    clients: Map<u64, ClientState>,
    positions: Map<u32, PositionData>,
) -> Seq<EntitySnapshotData>
    decreases ks.len(),
{
    if ks.len() == 0 {
        seq![]
    } else {
        let prev = snapshot_entities(ks.drop_last(), clients, positions);
        let c = clients[ks.last()];
        if positions.contains_key(c.id) {
            prev.push(
                EntitySnapshotData {
                    id: c.id,
                    pos: positions[c.id],
                    data: EntitySpecificSnapshotData::Player(
                        PlayerSnapshotData { input_sequence: c.input_sequence },
                    ),
                },
            )
        } else {
            prev
        }
    }
}

/// The value of an optional packet.
pub open spec fn packet_view(p: Option<NetworkPacket>) -> Option<PacketModel> {
    match p {
        Some(p) => Some(p@),
        None => None,
    }
}

/// The values of a sequence of packets.
pub open spec fn packets_view(v: Seq<NetworkPacket>) -> Seq<PacketModel> {
    v.map_values(|p: NetworkPacket| p@)
}

/// The connected clients, by endpoint, and the current tick.
pub struct ServerState {
    pub tick_id: u32,
    pub clients: HashMap<u64, ClientState>,
}

impl ServerState {
    /// No clients, tick zero.
    pub fn new() -> (s: Self)
        ensures
            s.tick_id == 0,
            s.clients@ == Map::<u64, ClientState>::empty(),
    {
        ServerState { tick_id: 0, clients: HashMap::new() }
    }

    /// Ends a tick.
    pub fn tick(&mut self)
        requires
            old(self).tick_id < u32::MAX,
        ensures
            final(self).tick_id == old(self).tick_id + 1,
            final(self).clients@ == old(self).clients@,
    {
        self.tick_id = self.tick_id + 1;
    }

    /// The endpoints of all clients, each once.
    pub fn get_client_addrs(&self) -> (v: Vec<u64>)
        ensures
            is_ordering(v@, self.clients@.dom()),
    {
        let mut v: Vec<u64> = Vec::new();
        let ghost ks = vstd::std_specs::hash::spec_keys_iter(&self.clients).remaining();
        for k in it: self.clients.keys()
            invariant
                it.seq() == ks,
                v@ == it.seq().take(it.index()).unref(),
        {
            v.push(*k);
            assert(it.seq().take(it.index() + 1).unref() =~= v@);
        }
        assert(ks.take(ks.len() as int) =~= ks);
        assert(v@ == ks.unref());
        assert(ks.unref().no_duplicates()) by {
            assert forall|i: int, j: int|
                0 <= i < ks.len() && 0 <= j < ks.len() && i != j implies ks.unref()[i]
                != ks.unref()[j] by {
                assert(ks[i] != ks[j]);
            }
        }
        v
    }

    /// Passes an input message to the client at `addr`, if connected.
    pub fn input_data(&mut self, addr: u64, data: &InputData)
        ensures
            final(self).tick_id == old(self).tick_id,
            final(self).clients@ == if old(self).clients@.contains_key(addr) {
                old(self).clients@.insert(addr, spec_feed_input(old(self).clients@[addr], *data))
            } else {
                old(self).clients@
            },
    {
        let current = match self.clients.get(&addr) {
            Some(c) => Some(*c),
            None => None,
        };
        match current {
            Some(c) => {
                let mut c = c;
                c.feed_input(data);
                self.clients.insert(addr, c);
            },
            None => {},
        }
    }

    /// Handles a message from the client at `addr`. Only input is handled;
    /// for anything else nothing changes and `false` is returned.
    pub fn data(&mut self, packet: &NetworkPacket, addr: u64) -> (handled: bool)
        ensures
            handled == packet.data is Input,
            final(self).tick_id == old(self).tick_id,
            final(self).clients@ == match packet.data {
                NetworkData::Input(d) => if old(self).clients@.contains_key(addr) {
                    old(self).clients@.insert(addr, spec_feed_input(old(self).clients@[addr], d))
                } else {
                    old(self).clients@
                },
                _ => old(self).clients@,
            },
    {
        match &packet.data {
            NetworkData::Input(d) => {
                self.input_data(addr, d);
                true
            },
            _ => false,
        }
    }

    /// The join message for the new client at `addr`: the entity it
    /// controls and where that entity is.
    pub fn notify_new_player_of_new_player(
        &self,
        addr: u64,
        player_id: u32,
        player_pos: PositionData,
    ) -> (p: NetworkPacket)
        ensures
            p@ == join_notice(addr, self.tick_id, player_id, player_pos),
    {
        let tick = self.tick_id;
        NetworkPacket::unicast(
            true,
            addr,
            tick,
            NetworkData::Join(JoinData { player_id, pos: player_pos }),
        )
    }

    /// The spawn messages telling the new client at `addr` (entity
    /// `player_id`) about every other client whose entity has a position.
    pub fn notify_new_player_of_existing_players(
        &self,
        addr: u64,
        player_id: u32,
        positions: &HashMap<u32, PositionData>,
    ) -> (packets: Vec<NetworkPacket>)
        ensures
            exists|ks: Seq<u64>|
                #[trigger] is_ordering(ks, self.clients@.dom()) && packets_view(packets@)
                    == existing_player_spawns(
                    ks,
                    self.clients@,
                    positions@,
                    player_id,
                    addr,
                    self.tick_id,
                ),
    {
        let tick = self.tick_id;
        let addrs = self.get_client_addrs();
        let mut packets: Vec<NetworkPacket> = Vec::new();
        let mut i: usize = 0;
        assert(packets_view(packets@) =~= Seq::<PacketModel>::empty());
        while i < addrs.len()
            invariant
                is_ordering(addrs@, self.clients@.dom()),
                0 <= i <= addrs@.len(),
                tick == self.tick_id,
                packets_view(packets@) == existing_player_spawns(
                    addrs@.take(i as int),
                    self.clients@,
                    positions@,
                    player_id,
                    addr,
                    tick,
                ),
            decreases addrs@.len() - i,
        {
            let a = addrs[i];
            assert(addrs@.to_set().contains(a));
            let ghost before = packets_view(packets@);
            let c = match self.clients.get(&a) {
                Some(c) => *c,
                None => {
                    assert(false);
                    ClientState::new(0)
                },
            };
            if c.id != player_id {
                match positions.get(&c.id) {
                    Some(pos) => {
                        packets.push(
                            NetworkPacket::unicast(
                                true,
                                addr,
                                tick,
                                NetworkData::Spawn(
                                    SpawnData {
                                        entity_type: EntityType::Player,
                                        entity_id: c.id,
                                        pos: *pos,
                                    },
                                ),
                            ),
                        );
                    },
                    None => {},
                }
            }
            proof {
                let t = addrs@.take(i + 1);
                assert(t.drop_last() =~= addrs@.take(i as int));
                assert(t.last() == a);
                if c.id != player_id && positions@.contains_key(c.id) {
                    assert(packets_view(packets@) =~= before.push(
                        spawn_notice(addr, tick, c.id, positions@[c.id]),
                    ));
                } else {
                    assert(packets_view(packets@) =~= before);
                }
            }
            i = i + 1;
        }
        assert(addrs@.take(addrs@.len() as int) =~= addrs@);
        packets
    }

    /// The spawn message telling every client other than the new one at
    /// `addr` about the new entity `player_id`, if there is any other client.
    pub fn notify_existing_players_of_new_player(
        &self,
        addr: u64,
        player_id: u32,
        player_pos: PositionData,
    ) -> (r: Option<NetworkPacket>)
        requires
            self.clients@.contains_key(addr),
        ensures
            exists|ks: Seq<u64>|
                #[trigger] is_ordering(ks, self.clients@.dom()) && packet_view(r)
                    == new_player_spawn(ks, addr, player_id, player_pos, self.tick_id),
    {
        let tick = self.tick_id;
        let addrs = self.get_client_addrs();
        let others = without_addr(&addrs, addr);
        if others.len() != 0 {
            let p = NetworkPacket::multicast(
                true,
                others,
                tick,
                NetworkData::Spawn(
                    SpawnData { entity_type: EntityType::Player, entity_id: player_id, pos: player_pos },
                ),
            );
            assert(packet_view(Some(p)) == Some(p@));
            Some(p)
        } else {
            assert(packet_view(None) == None::<PacketModel>);
            None
        }
    }

    /// A client joined at `addr` and controls the new entity `player_id` at
    /// `player_pos`. Returns the messages to send, in order: the join
    /// message, the spawns of the other players for it, and the spawn of the
    /// new player for the others.
    pub fn join(
        &mut self,
        addr: u64,
        player_id: u32,
        player_pos: PositionData,
        positions: &HashMap<u32, PositionData>,
    ) -> (packets: Vec<NetworkPacket>)
        ensures
            final(self).tick_id == old(self).tick_id,
            final(self).clients@ == old(self).clients@.insert(
                addr,
                ClientState { id: player_id, input: 0, input_sequence: 0 },
            ),
            exists|ks1: Seq<u64>, ks2: Seq<u64>|
                #![trigger is_ordering(ks1, final(self).clients@.dom()), is_ordering(ks2, final(self).clients@.dom())]
                is_ordering(ks1, final(self).clients@.dom()) && is_ordering(
                    ks2,
                    final(self).clients@.dom(),
                ) && packets_view(packets@) == join_notices(
                    ks1,
                    ks2,
                    final(self).clients@,
                    positions@,
                    addr,
                    player_id,
                    player_pos,
                    old(self).tick_id,
                ),
    {
        self.clients.insert(addr, ClientState::new(player_id));
        let first = self.notify_new_player_of_new_player(addr, player_id, player_pos);
        let mut packets: Vec<NetworkPacket> = Vec::new();
        packets.push(first);
        let mut existing = self.notify_new_player_of_existing_players(addr, player_id, positions);
        let ghost existing_view = packets_view(existing@);
        let ghost head = packets_view(packets@);
        packets.append(&mut existing);
        assert(packets_view(packets@) =~= head + existing_view);
        let last = self.notify_existing_players_of_new_player(addr, player_id, player_pos);
        let ghost mid = packets_view(packets@);
        match last {
            Some(p) => {
                packets.push(p);
                assert(packets_view(packets@) =~= mid.push(p@));
            },
            None => {},
        }
        let ghost ks1 = choose|ks: Seq<u64>|
            #[trigger] is_ordering(ks, self.clients@.dom()) && existing_view == existing_player_spawns(
                ks,
                self.clients@,
                positions@,
                player_id,
                addr,
                self.tick_id,
            );
        let ghost ks2 = choose|ks: Seq<u64>|
            #[trigger] is_ordering(ks, self.clients@.dom()) && packet_view(last) == new_player_spawn(
                ks,
                addr,
                player_id,
                player_pos,
                self.tick_id,
            );
        assert(packets_view(packets@) =~= join_notices(
            ks1,
            ks2,
            self.clients@,
            positions@,
            addr,
            player_id,
            player_pos,
            self.tick_id,
        ));
        packets
    }

    /// The client at `addr` left. If it was connected, it is removed and
    /// the id of its entity is returned, with the despawn message for the
    /// remaining clients if there are any.
    pub fn leave(&mut self, addr: u64) -> (r: (Option<u32>, Option<NetworkPacket>))
        ensures
            final(self).tick_id == old(self).tick_id,
            !old(self).clients@.contains_key(addr) ==> {
                &&& final(self).clients@ == old(self).clients@
                &&& r.0 is None
                &&& r.1 is None
            },
            old(self).clients@.contains_key(addr) ==> {
                &&& final(self).clients@ == old(self).clients@.remove(addr)
                &&& r.0 == Some(old(self).clients@[addr].id)
                &&& exists|ks: Seq<u64>|
                    #[trigger] is_ordering(ks, final(self).clients@.dom()) && packet_view(r.1) == if ks.len()
                        > 0 {
                        Some(
                            PacketModel {
                                is_tcp: true,
                                addrs: ks,
                                tick_id: old(self).tick_id,
                                data: DataModel::Despawn(
                                    DespawnData { entity_id: old(self).clients@[addr].id },
                                ),
                            },
                        )
                    } else {
                        None
                    }
            },
    {
        match self.clients.remove(&addr) {
            Some(client) => {
                let tick = self.tick_id;
                let addrs = self.get_client_addrs();
                if addrs.len() != 0 {
                    let p = NetworkPacket::multicast(
                        true,
                        addrs,
                        tick,
                        NetworkData::Despawn(DespawnData { entity_id: client.id }),
                    );
                    assert(packet_view(Some(p)) == Some(p@));
                    (Some(client.id), Some(p))
                } else {
                    assert(packet_view(None) == None::<PacketModel>);
                    (Some(client.id), None)
                }
            },
            None => (None, None),
        }
    }

    /// The snapshot sent over UDP to every client at the end of a tick: one
    /// entry per client whose entity has a position. Nothing is sent when no
    /// client is connected.
    pub fn tick_net_out(&self, positions: &HashMap<u32, PositionData>) -> (r: Option<NetworkPacket>)
        ensures
            exists|ks: Seq<u64>|
                #[trigger] is_ordering(ks, self.clients@.dom()) && packet_view(r) == if ks.len()
                    == 0 {
                    None
                } else {
                    Some(
                        PacketModel {
                            is_tcp: false,
                            addrs: ks,
                            tick_id: self.tick_id,
                            data: DataModel::Snapshot(snapshot_entities(ks, self.clients@, positions@)),
                        },
                    )
                },
    {
        let addrs = self.get_client_addrs();
        if addrs.len() == 0 {
            assert(packet_view(None) == None::<PacketModel>);
            return None;
        }
        let mut entities: Vec<EntitySnapshotData> = Vec::new();
        let mut i: usize = 0;
        while i < addrs.len()
            invariant
                is_ordering(addrs@, self.clients@.dom()),
                0 <= i <= addrs@.len(),
                entities@ == snapshot_entities(addrs@.take(i as int), self.clients@, positions@),
            decreases addrs@.len() - i,
        {
            let a = addrs[i];
            assert(addrs@.to_set().contains(a));
            let c = match self.clients.get(&a) {
                Some(c) => *c,
                None => {
                    assert(false);
                    ClientState::new(0)
                },
            };
            match positions.get(&c.id) {
                Some(pos) => {
                    entities.push(
                        EntitySnapshotData {
                            id: c.id,
                            pos: *pos,
                            data: EntitySpecificSnapshotData::Player(
                                PlayerSnapshotData { input_sequence: c.input_sequence },
                            ),
                        },
                    );
                },
                None => {},
            }
            proof {
                let t = addrs@.take(i + 1);
                assert(t.drop_last() =~= addrs@.take(i as int));
                assert(t.last() == a);
            }
            i = i + 1;
        }
        assert(addrs@.take(addrs@.len() as int) =~= addrs@);
        let tick = self.tick_id;
        let p = NetworkPacket::multicast(
            false,
            addrs,
            tick,
            NetworkData::Snapshot(SnapshotData { entity_snapshots: entities }),
        );
        assert(packet_view(Some(p)) == Some(p@));
        Some(p)
    }
}

/// The endpoints of `addrs` other than `a`, in order.
pub fn without_addr(addrs: &Vec<u64>, a: u64) -> (v: Vec<u64>)
    ensures
        v@ == without(addrs@, a),
{
    let mut v: Vec<u64> = Vec::new();
    let mut i: usize = 0;
    while i < addrs.len()
        invariant
            0 <= i <= addrs@.len(),
            v@ == without(addrs@.take(i as int), a),
        decreases addrs@.len() - i,
    {
        let x = addrs[i];
        if x != a {
            v.push(x);
        }
        proof {
            let t = addrs@.take(i + 1);
            assert(t.drop_last() =~= addrs@.take(i as int));
            assert(t.last() == x);
        }
        i = i + 1;
    }
    assert(addrs@.take(addrs@.len() as int) =~= addrs@);
    v
}

/// A client that joins and then leaves leaves the table of clients as it
/// was, and leaving reports the entity it was given on joining.
pub proof fn lemma_leave_undoes_join(clients: Map<u64, ClientState>, addr: u64, player_id: u32)
    requires
        !clients.contains_key(addr),
    ensures
        ({
            let joined = clients.insert(addr, ClientState { id: player_id, input: 0, input_sequence: 0 });
            &&& joined.contains_key(addr)
            &&& joined[addr].id == player_id
            &&& joined.remove(addr) == clients
        }),
{
    let joined = clients.insert(addr, ClientState { id: player_id, input: 0, input_sequence: 0 });
    assert(joined.remove(addr) =~= clients);
}

/// Which clients a new player `player_id` is told about: those controlling
/// another entity that has a position.
pub open spec fn shown_to_new_player(
    clients: Map<u64, ClientState>,
    positions: Map<u32, PositionData>,
    player_id: u32,
) -> spec_fn(u64) -> bool {
    |k: u64| clients[k].id != player_id && positions.contains_key(clients[k].id)
}

/// Which clients appear in a snapshot: those whose entity has a position.
pub open spec fn in_snapshot(clients: Map<u64, ClientState>, positions: Map<u32, PositionData>) -> spec_fn(
    u64,
) -> bool {
    |k: u64| positions.contains_key(clients[k].id)
}

/// The spawn notices a new player gets, visiting the clients at `ks`: one
/// for each client shown to it and no other, each sent over TCP to the new
/// client alone and naming that client's entity at its position.
pub proof fn lemma_existing_player_spawns_cover(
    ks: Seq<u64>,
    clients: Map<u64, ClientState>,
    positions: Map<u32, PositionData>,
    player_id: u32,
    addr: u64,
    tick: u32,
)
    ensures
        ({
            let s = existing_player_spawns(ks, clients, positions, player_id, addr, tick);
            let shown = shown_to_new_player(clients, positions, player_id);
            &&& s.len() == ks.filter(shown).len()
            &&& forall|i: int|
                0 <= i < ks.len() && shown(#[trigger] ks[i]) ==> exists|j: int|
                    0 <= j < s.len() && s[j] == (PacketModel {
                        is_tcp: true,
                        addrs: seq![addr],
                        tick_id: tick,
                        data: DataModel::Spawn(
                            SpawnData {
                                entity_type: EntityType::Player,
                                entity_id: clients[ks[i]].id,
                                pos: positions[clients[ks[i]].id],
                            },
                        ),
                    })
            &&& forall|j: int|
                #![trigger s[j]]
                0 <= j < s.len() ==> exists|i: int|
                    0 <= i < ks.len() && shown(#[trigger] ks[i]) && s[j] == (PacketModel {
                        is_tcp: true,
                        addrs: seq![addr],
                        tick_id: tick,
                        data: DataModel::Spawn(
                            SpawnData {
                                entity_type: EntityType::Player,
                                entity_id: clients[ks[i]].id,
                                pos: positions[clients[ks[i]].id],
                            },
                        ),
                    })
        }),
    decreases ks.len(),
{
    let shown = shown_to_new_player(clients, positions, player_id);
    let s = existing_player_spawns(ks, clients, positions, player_id, addr, tick);
    reveal(Seq::filter);
    if ks.len() > 0 {
        let init = ks.drop_last();
        lemma_existing_player_spawns_cover(init, clients, positions, player_id, addr, tick);
        let prev = existing_player_spawns(init, clients, positions, player_id, addr, tick);
        let n = ks.len() - 1;
        assert forall|i: int| 0 <= i < ks.len() && shown(#[trigger] ks[i]) implies exists|j: int|
            0 <= j < s.len() && s[j] == (PacketModel {
                is_tcp: true,
                addrs: seq![addr],
                tick_id: tick,
                data: DataModel::Spawn(
                    SpawnData {
                        entity_type: EntityType::Player,
                        entity_id: clients[ks[i]].id,
                        pos: positions[clients[ks[i]].id],
                    },
                ),
            }) by {
            if i < n {
                assert(init[i] == ks[i]);
                assert(shown(init[i]));
                let j = choose|j: int|
                    0 <= j < prev.len() && prev[j] == (PacketModel {
                        is_tcp: true,
                        addrs: seq![addr],
                        tick_id: tick,
                        data: DataModel::Spawn(
                            SpawnData {
                                entity_type: EntityType::Player,
                                entity_id: clients[init[i]].id,
                                pos: positions[clients[init[i]].id],
                            },
                        ),
                    });
                assert(s[j] == prev[j]);
            } else {
                assert(s[prev.len() as int] == spawn_notice(
                    addr,
                    tick,
                    clients[ks[i]].id,
                    positions[clients[ks[i]].id],
                ));
            }
        }
        assert forall|j: int| #![trigger s[j]] 0 <= j < s.len() implies exists|i: int|
            0 <= i < ks.len() && shown(#[trigger] ks[i]) && s[j] == (PacketModel {
                is_tcp: true,
                addrs: seq![addr],
                tick_id: tick,
                data: DataModel::Spawn(
                    SpawnData {
                        entity_type: EntityType::Player,
                        entity_id: clients[ks[i]].id,
                        pos: positions[clients[ks[i]].id],
                    },
                ),
            }) by {
            if j < prev.len() {
                let i = choose|i: int|
                    0 <= i < init.len() && shown(#[trigger] init[i]) && prev[j] == (PacketModel {
                        is_tcp: true,
                        addrs: seq![addr],
                        tick_id: tick,
                        data: DataModel::Spawn(
                            SpawnData {
                                entity_type: EntityType::Player,
                                entity_id: clients[init[i]].id,
                                pos: positions[clients[init[i]].id],
                            },
                        ),
                    });
                assert(ks[i] == init[i]);
                assert(s[j] == prev[j]);
            } else {
                assert(ks[n] == ks.last());
                assert(shown(ks[n]));
            }
        }
    }
}

/// The snapshot entries of the clients at `ks`: one for each client whose
/// entity has a position and no other, each naming that client's entity,
/// its position and the sequence number of its latest input.
pub proof fn lemma_snapshot_entities_cover(
    ks: Seq<u64>,
    clients: Map<u64, ClientState>,
    positions: Map<u32, PositionData>,
)
    ensures
        ({
            let s = snapshot_entities(ks, clients, positions);
            let shown = in_snapshot(clients, positions);
            &&& s.len() == ks.filter(shown).len()
            &&& forall|i: int|
                0 <= i < ks.len() && shown(#[trigger] ks[i]) ==> exists|j: int|
                    0 <= j < s.len() && s[j] == (EntitySnapshotData {
                        id: clients[ks[i]].id,
                        pos: positions[clients[ks[i]].id],
                        data: EntitySpecificSnapshotData::Player(
                            PlayerSnapshotData { input_sequence: clients[ks[i]].input_sequence },
                        ),
                    })
            &&& forall|j: int|
                #![trigger s[j]]
                0 <= j < s.len() ==> exists|i: int|
                    0 <= i < ks.len() && shown(#[trigger] ks[i]) && s[j] == (EntitySnapshotData {
                        id: clients[ks[i]].id,
                        pos: positions[clients[ks[i]].id],
                        data: EntitySpecificSnapshotData::Player(
                            PlayerSnapshotData { input_sequence: clients[ks[i]].input_sequence },
                        ),
                    })
        }),
    decreases ks.len(),
{
    let shown = in_snapshot(clients, positions);
    let s = snapshot_entities(ks, clients, positions);
    reveal(Seq::filter);
    if ks.len() > 0 {
        let init = ks.drop_last();
        lemma_snapshot_entities_cover(init, clients, positions);
        let prev = snapshot_entities(init, clients, positions);
        let n = ks.len() - 1;
        assert forall|i: int| 0 <= i < ks.len() && shown(#[trigger] ks[i]) implies exists|j: int|
            0 <= j < s.len() && s[j] == (EntitySnapshotData {
                id: clients[ks[i]].id,
                pos: positions[clients[ks[i]].id],
                data: EntitySpecificSnapshotData::Player(
                    PlayerSnapshotData { input_sequence: clients[ks[i]].input_sequence },
                ),
            }) by {
            if i < n {
                assert(init[i] == ks[i]);
                assert(shown(init[i]));
                let j = choose|j: int|
                    0 <= j < prev.len() && prev[j] == (EntitySnapshotData {
                        id: clients[init[i]].id,
                        pos: positions[clients[init[i]].id],
                        data: EntitySpecificSnapshotData::Player(
                            PlayerSnapshotData { input_sequence: clients[init[i]].input_sequence },
                        ),
                    });
                assert(s[j] == prev[j]);
            } else {
                assert(s[prev.len() as int] == (EntitySnapshotData {
                    id: clients[ks[i]].id,
                    pos: positions[clients[ks[i]].id],
                    data: EntitySpecificSnapshotData::Player(
                        PlayerSnapshotData { input_sequence: clients[ks[i]].input_sequence },
                    ),
                }));
            }
        }
        assert forall|j: int| #![trigger s[j]] 0 <= j < s.len() implies exists|i: int|
            0 <= i < ks.len() && shown(#[trigger] ks[i]) && s[j] == (EntitySnapshotData {
                id: clients[ks[i]].id,
                pos: positions[clients[ks[i]].id],
                data: EntitySpecificSnapshotData::Player(
                    PlayerSnapshotData { input_sequence: clients[ks[i]].input_sequence },
                ),
            }) by {
            if j < prev.len() {
                let i = choose|i: int|
                    0 <= i < init.len() && shown(#[trigger] init[i]) && prev[j] == (
                    EntitySnapshotData {
                        id: clients[init[i]].id,
                        pos: positions[clients[init[i]].id],
                        data: EntitySpecificSnapshotData::Player(
                            PlayerSnapshotData { input_sequence: clients[init[i]].input_sequence },
                        ),
                    });
                assert(ks[i] == init[i]);
                assert(s[j] == prev[j]);
            } else {
                assert(ks[n] == ks.last());
                assert(shown(ks[n]));
            }
        }
    }
}

/// Filtering a list of distinct endpoints keeps them distinct and takes
/// nothing from outside the list.
proof fn lemma_filter_distinct(ks: Seq<u64>, pred: spec_fn(u64) -> bool)
    requires
        ks.no_duplicates(),
    ensures
        ks.filter(pred).no_duplicates(),
        forall|j: int| 0 <= j < ks.filter(pred).len() ==> ks.contains(#[trigger] ks.filter(pred)[j]),
    decreases ks.len(),
{
    reveal(Seq::filter);
    if ks.len() > 0 {
        let init = ks.drop_last();
        assert(init.no_duplicates());
        lemma_filter_distinct(init, pred);
        let fi = init.filter(pred);
        let f = ks.filter(pred);
        assert forall|j: int| 0 <= j < f.len() implies ks.contains(#[trigger] f[j]) by {
            if j < fi.len() {
                assert(f[j] == fi[j]);
                assert(init.contains(fi[j]));
                let i = choose|i: int| 0 <= i < init.len() && init[i] == fi[j];
                assert(ks[i] == init[i]);
            } else {
                assert(ks[ks.len() - 1] == ks.last());
            }
        }
        if pred(ks.last()) {
            assert forall|a: int, b: int| 0 <= a < f.len() && 0 <= b < f.len() && a != b implies f[a]
                != f[b] by {
                if a < fi.len() && b < fi.len() {
                    assert(f[a] == fi[a] && f[b] == fi[b]);
                } else {
                    let x = if a < fi.len() { a } else { b };
                    if x < fi.len() {
                        assert(init.contains(fi[x]));
                        let i = choose|i: int| 0 <= i < init.len() && init[i] == fi[x];
                        assert(ks[i] == init[i]);
                        assert(ks[ks.len() - 1] == ks.last());
                        assert(f[x] == fi[x]);
                    }
                }
            }
        }
    }
}

/// Over an ordering of a set of endpoints, filtering the list counts the
/// endpoints of the set that pass.
proof fn lemma_filter_counts_set(ks: Seq<u64>, dom: Set<u64>, pred: spec_fn(u64) -> bool)
    requires
        is_ordering(ks, dom),
    ensures
        ks.filter(pred).len() == dom.filter(pred).len(),
{
    lemma_filter_distinct(ks, pred);
    ks.filter_lemma(pred);
    let f = ks.filter(pred);
    assert forall|k: u64| f.to_set().contains(k) <==> dom.filter(pred).contains(k) by {
        if f.to_set().contains(k) {
            let j = choose|j: int| 0 <= j < f.len() && f[j] == k;
            assert(pred(f[j]));
            assert(ks.contains(f[j]));
            assert(ks.to_set().contains(k));
        }
        if dom.filter(pred).contains(k) {
            assert(ks.to_set().contains(k));
            let i = choose|i: int| 0 <= i < ks.len() && ks[i] == k;
            assert(f.contains(ks[i]));
        }
    }
    assert(f.to_set() =~= dom.filter(pred));
    f.unique_seq_to_set();
}

/// When a client joins at `addr` as `player_id`, it is first sent its own
/// join message, and then told of every other connected client whose entity
/// has a position: for each of them a spawn of its entity at its position is
/// sent to the new client, and as many such spawns are sent as there are
/// such clients.
pub proof fn lemma_join_announces_every_player(
    ks1: Seq<u64>,
    ks2: Seq<u64>,
    clients: Map<u64, ClientState>,
    positions: Map<u32, PositionData>,
    addr: u64,
    player_id: u32,
    pos: PositionData,
    tick: u32,
)
    requires
        is_ordering(ks1, clients.dom()),
    ensures
        ({
            let n = join_notices(ks1, ks2, clients, positions, addr, player_id, pos, tick);
            let shown = shown_to_new_player(clients, positions, player_id);
            &&& n[0] == (PacketModel {
                is_tcp: true,
                addrs: seq![addr],
                tick_id: tick,
                data: DataModel::Join(JoinData { player_id, pos }),
            })
            &&& existing_player_spawns(ks1, clients, positions, player_id, addr, tick).len()
                == clients.dom().filter(shown).len()
            &&& forall|k: u64|
                #[trigger] clients.contains_key(k) && clients[k].id != player_id
                    && positions.contains_key(clients[k].id) ==> exists|j: int|
                    1 <= j < n.len() && n[j] == (PacketModel {
                        is_tcp: true,
                        addrs: seq![addr],
                        tick_id: tick,
                        data: DataModel::Spawn(
                            SpawnData {
                                entity_type: EntityType::Player,
                                entity_id: clients[k].id,
                                pos: positions[clients[k].id],
                            },
                        ),
                    })
        }),
{
    let n = join_notices(ks1, ks2, clients, positions, addr, player_id, pos, tick);
    let sp = existing_player_spawns(ks1, clients, positions, player_id, addr, tick);
    let shown = shown_to_new_player(clients, positions, player_id);
    lemma_existing_player_spawns_cover(ks1, clients, positions, player_id, addr, tick);
    lemma_filter_counts_set(ks1, clients.dom(), shown);
    assert forall|k: u64|
        #[trigger] clients.contains_key(k) && clients[k].id != player_id && positions.contains_key(
            clients[k].id,
        ) implies exists|j: int|
        1 <= j < n.len() && n[j] == (PacketModel {
            is_tcp: true,
            addrs: seq![addr],
            tick_id: tick,
            data: DataModel::Spawn(
                SpawnData {
                    entity_type: EntityType::Player,
                    entity_id: clients[k].id,
                    pos: positions[clients[k].id],
                },
            ),
        }) by {
        assert(ks1.to_set().contains(k));
        let i = choose|i: int| 0 <= i < ks1.len() && ks1[i] == k;
        assert(shown(ks1[i]));
        let j = choose|j: int|
            0 <= j < sp.len() && sp[j] == (PacketModel {
                is_tcp: true,
                addrs: seq![addr],
                tick_id: tick,
                data: DataModel::Spawn(
                    SpawnData {
                        entity_type: EntityType::Player,
                        entity_id: clients[ks1[i]].id,
                        pos: positions[clients[ks1[i]].id],
                    },
                ),
            });
        assert(n[j + 1] == sp[j]);
    }
}

/// The snapshot sent at the end of a tick lists, for every connected client
/// whose entity has a position, that entity at its position with the
/// sequence number of the client's latest input, and it has as many entries
/// as there are such clients.
pub proof fn lemma_snapshot_lists_every_player(
    ks: Seq<u64>,
    clients: Map<u64, ClientState>,
    positions: Map<u32, PositionData>,
)
    requires
        is_ordering(ks, clients.dom()),
    ensures
        ({
            let s = snapshot_entities(ks, clients, positions);
            &&& s.len() == clients.dom().filter(in_snapshot(clients, positions)).len()
            &&& forall|k: u64|
                #[trigger] clients.contains_key(k) && positions.contains_key(clients[k].id)
                    ==> exists|j: int|
                    0 <= j < s.len() && s[j] == (EntitySnapshotData {
                        id: clients[k].id,
                        pos: positions[clients[k].id],
                        data: EntitySpecificSnapshotData::Player(
                            PlayerSnapshotData { input_sequence: clients[k].input_sequence },
                        ),
                    })
        }),
{
    let shown = in_snapshot(clients, positions);
    lemma_snapshot_entities_cover(ks, clients, positions);
    lemma_filter_counts_set(ks, clients.dom(), shown);
    assert forall|k: u64|
        #[trigger] clients.contains_key(k) && positions.contains_key(clients[k].id) implies exists|
        j: int,
    |
        0 <= j < snapshot_entities(ks, clients, positions).len() && snapshot_entities(
            ks,
            clients,
            positions,
        )[j] == (EntitySnapshotData {
            id: clients[k].id,
            pos: positions[clients[k].id],
            data: EntitySpecificSnapshotData::Player(
                PlayerSnapshotData { input_sequence: clients[k].input_sequence },
            ),
        }) by {
        assert(ks.to_set().contains(k));
        let i = choose|i: int| 0 <= i < ks.len() && ks[i] == k;
        assert(shown(ks[i]));
    }
}

} // verus!
