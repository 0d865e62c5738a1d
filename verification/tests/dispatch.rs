use std::collections::HashMap;

use efficax::address_book::AddressBook;
use efficax::addr::{endpoint, with_port};
use efficax::client::ClientState;
use efficax::data::{ChatData, DespawnData, InputData, NetworkData, PositionData};
use efficax::dispatch::{handle_event, ServerEvent};
use efficax::packet::NetworkPacket;
use efficax::server_state::ServerState;

fn join(state: &mut ServerState, book: &mut AddressBook, addr: u64, id: u32) {
    let positions = HashMap::from([(id, PositionData { x: 1, y: 1 })]);
    let r = handle_event(
        state,
        book,
        ServerEvent::Join { addr, player_id: id, player_pos: PositionData { x: 1, y: 1 } },
        &positions,
    );
    assert!(r.despawned.is_none() && r.unhandled.is_none());
}

fn udp_input(from: u64, input: u8, seq: u8) -> ServerEvent {
    ServerEvent::Data(NetworkPacket::unicast(false, from, 0, NetworkData::Input(InputData { input, input_sequence: seq })))
}

#[test]
fn udp_input_reaches_the_announcing_client() {
    let mut state = ServerState::new();
    let mut book = AddressBook::new();
    let a = endpoint(0x7f00_0001, 5000);
    let b = endpoint(0x7f00_0002, 5000);
    let none = HashMap::new();
    join(&mut state, &mut book, a, 0);
    handle_event(&mut state, &mut book, ServerEvent::InitNetwork(a, 6000), &none);
    join(&mut state, &mut book, b, 1);
    handle_event(&mut state, &mut book, ServerEvent::InitNetwork(b, 6001), &none);
    let r = handle_event(&mut state, &mut book, udp_input(with_port(a, 6000), 3, 1), &none);
    assert!(r.packets.is_empty() && r.unhandled.is_none());
    assert_eq!(state.clients.get(&a), Some(&ClientState { id: 0, input: 3, input_sequence: 1 }));
    assert_eq!(state.clients.get(&b), Some(&ClientState::new(1)));
}

#[test]
fn unannounced_udp_is_dropped_and_leaving_stops_attribution() {
    let mut state = ServerState::new();
    let mut book = AddressBook::new();
    let a = endpoint(0x0a00_0001, 4000);
    let none = HashMap::new();
    join(&mut state, &mut book, a, 7);
    handle_event(&mut state, &mut book, udp_input(with_port(a, 4001), 5, 1), &none);
    assert_eq!(state.clients.get(&a), Some(&ClientState::new(7)));
    handle_event(&mut state, &mut book, ServerEvent::InitNetwork(a, 4001), &none);
    let r = handle_event(&mut state, &mut book, ServerEvent::Leave(a), &none);
    assert_eq!(r.despawned, Some(7));
    assert!(r.packets.is_empty());
    assert_eq!(book.resolve(false, with_port(a, 4001)), None);
    handle_event(&mut state, &mut book, udp_input(with_port(a, 4001), 5, 1), &none);
    assert!(state.clients.is_empty());
}

#[test]
fn leave_despawns_and_tells_the_others() {
    let mut state = ServerState::new();
    let mut book = AddressBook::new();
    join(&mut state, &mut book, 100, 0);
    join(&mut state, &mut book, 200, 1);
    let r = handle_event(&mut state, &mut book, ServerEvent::Leave(100), &HashMap::new());
    assert_eq!(r.despawned, Some(0));
    assert_eq!(
        r.packets,
        vec![NetworkPacket::multicast(true, vec![200], 0, NetworkData::Despawn(DespawnData { entity_id: 0 }))]
    );
    let r = handle_event(&mut state, &mut book, ServerEvent::Leave(100), &HashMap::new());
    assert_eq!(r.despawned, None);
    assert!(r.packets.is_empty());
}

#[test]
fn chat_over_tcp_is_reported_unhandled() {
    let mut state = ServerState::new();
    let mut book = AddressBook::new();
    join(&mut state, &mut book, 100, 0);
    let chat = NetworkPacket::unicast(true, 100, 0, NetworkData::Chat(ChatData { message: "hi".to_string() }));
    let r = handle_event(&mut state, &mut book, ServerEvent::Data(chat), &HashMap::new());
    assert_eq!(r.unhandled, Some(100));
    assert_eq!(state.clients.get(&100), Some(&ClientState::new(0)));
}
