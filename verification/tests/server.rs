use std::collections::HashMap;

use efficax::client::ClientState;
use efficax::data::{
    DespawnData, EntitySnapshotData, EntitySpecificSnapshotData, EntityType, InputData, JoinData,
    NetworkData, PlayerSnapshotData, PositionData, SnapshotData, SpawnData,
};
use efficax::handle::ServerHandle;
use efficax::id_gen::IdGen;
use efficax::packet::NetworkPacket;
use efficax::server_state::{without_addr, ServerState};
use efficax::state::EfficaxState;
use efficax::timing::{must_wait, next_carryover, TICK_PERIOD_NANOS};

#[test]
fn id_gen_counts_up() {
    let mut g = IdGen::new(5);
    assert_eq!(g.get(), 5);
    assert_eq!(g.get(), 6);
}

#[test]
fn efficax_state_ticks() {
    let mut s = EfficaxState::new();
    s.tick();
    s.tick();
    assert_eq!(s.tick_id, 2);
}

#[test]
fn handle_stops_all_copies() {
    let h = ServerHandle::new();
    let other = h.get_new_handle();
    let third = other.get_handle();
    assert!(h.is_running());
    third.stop();
    assert!(!h.is_running());
    assert!(!other.is_running());
}

#[test]
fn input_sequence_rules() {
    let mut c = ClientState::new(3);
    c.feed_input(&InputData { input: 12, input_sequence: 10 });
    assert_eq!((c.input, c.input_sequence), (3, 10));
    c.feed_input(&InputData { input: 5, input_sequence: 9 });
    assert_eq!((c.input, c.input_sequence), (3, 10));
    c.feed_input(&InputData { input: 5, input_sequence: 200 });
    assert_eq!((c.input, c.input_sequence), (5, 200));
    c.feed_input(&InputData { input: 7, input_sequence: 2 });
    assert_eq!((c.input, c.input_sequence), (7, 2));
    c.feed_input(&InputData { input: 1, input_sequence: 2 });
    assert_eq!((c.input, c.input_sequence), (1, 2));
    assert_eq!(c.id, 3);
}

fn pos(x: u16, y: u16) -> PositionData {
    PositionData { x, y }
}

#[test]
fn first_player_joins_alone() {
    let mut s = ServerState::new();
    let positions = HashMap::from([(0u32, pos(1, 2))]);
    let packets = s.join(100, 0, pos(1, 2), &positions);
    assert_eq!(
        packets,
        vec![NetworkPacket::unicast(true, 100, 0, NetworkData::Join(JoinData { player_id: 0, pos: pos(1, 2) }))]
    );
    assert_eq!(s.clients.get(&100), Some(&ClientState::new(0)));
}

#[test]
fn second_player_learns_of_first() {
    let mut s = ServerState::new();
    let mut positions = HashMap::from([(0u32, pos(1, 2))]);
    s.join(100, 0, pos(1, 2), &positions);
    s.tick();
    positions.insert(1, pos(3, 4));
    let packets = s.join(200, 1, pos(3, 4), &positions);
    assert_eq!(
        packets,
        vec![
            NetworkPacket::unicast(true, 200, 1, NetworkData::Join(JoinData { player_id: 1, pos: pos(3, 4) })),
            NetworkPacket::unicast(
                true,
                200,
                1,
                NetworkData::Spawn(SpawnData { entity_type: EntityType::Player, entity_id: 0, pos: pos(1, 2) })
            ),
            NetworkPacket::multicast(
                true,
                vec![100],
                1,
                NetworkData::Spawn(SpawnData { entity_type: EntityType::Player, entity_id: 1, pos: pos(3, 4) })
            ),
        ]
    );
}

#[test]
fn leave_announces_despawn() {
    let mut s = ServerState::new();
    let positions = HashMap::new();
    s.join(100, 0, pos(0, 0), &positions);
    s.join(200, 1, pos(0, 0), &positions);
    let (id, packet) = s.leave(100);
    assert_eq!(id, Some(0));
    assert_eq!(
        packet,
        Some(NetworkPacket::multicast(true, vec![200], 0, NetworkData::Despawn(DespawnData { entity_id: 0 })))
    );
    let (id, packet) = s.leave(200);
    assert_eq!(id, Some(1));
    assert_eq!(packet, None);
    assert_eq!(s.leave(200), (None, None));
    assert!(s.clients.is_empty());
}

#[test]
fn snapshot_lists_clients_with_positions() {
    let mut s = ServerState::new();
    assert_eq!(s.tick_net_out(&HashMap::new()), None);
    s.join(100, 0, pos(0, 0), &HashMap::new());
    s.input_data(100, &InputData { input: 2, input_sequence: 4 });
    let positions = HashMap::from([(0u32, pos(9, 9))]);
    assert_eq!(
        s.tick_net_out(&positions),
        Some(NetworkPacket::multicast(
            false,
            vec![100],
            0,
            NetworkData::Snapshot(SnapshotData {
                entity_snapshots: vec![EntitySnapshotData {
                    id: 0,
                    pos: pos(9, 9),
                    data: EntitySpecificSnapshotData::Player(PlayerSnapshotData { input_sequence: 4 }),
                }],
            })
        ))
    );
    assert_eq!(
        s.tick_net_out(&HashMap::new()),
        Some(NetworkPacket::multicast(false, vec![100], 0, NetworkData::Snapshot(SnapshotData { entity_snapshots: vec![] })))
    );
}

#[test]
fn data_handles_only_input() {
    let mut s = ServerState::new();
    s.join(100, 0, pos(0, 0), &HashMap::new());
    let input = NetworkPacket::unicast(false, 100, 0, NetworkData::Input(InputData { input: 4, input_sequence: 1 }));
    assert!(s.data(&input, 100));
    assert_eq!(s.clients.get(&100).unwrap().input, 4);
    let other = NetworkPacket::unicast(true, 100, 0, NetworkData::InitUDP(1));
    assert!(!s.data(&other, 100));
    assert!(s.data(&input, 999));
}

#[test]
fn packets_carry_the_tick_id() {
    let mut s = ServerState::new();
    for _ in 0..257 {
        s.tick();
    }
    let p = s.notify_new_player_of_new_player(1, 2, pos(0, 0));
    assert_eq!(p.tick_id, 257);
}

#[test]
fn without_addr_drops_one_endpoint() {
    assert_eq!(without_addr(&vec![1, 2, 3], 2), vec![1, 3]);
    assert_eq!(without_addr(&vec![1, 2, 3], 5), vec![1, 2, 3]);
}

#[test]
fn tick_timing() {
    assert!(must_wait(10, 5, TICK_PERIOD_NANOS));
    assert!(!must_wait(TICK_PERIOD_NANOS - 5, 5, TICK_PERIOD_NANOS));
    assert_eq!(next_carryover(TICK_PERIOD_NANOS, 7, TICK_PERIOD_NANOS), 7);
}

#[test]
fn join_then_leave_restores_clients() {
    let mut s = ServerState::new();
    s.join(100, 0, pos(0, 0), &HashMap::new());
    let before = s.clients.clone();
    s.join(300, 7, pos(5, 5), &HashMap::new());
    let (id, _) = s.leave(300);
    assert_eq!(id, Some(7));
    assert_eq!(s.clients, before);
}
