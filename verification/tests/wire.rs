use efficax::codec::DecodeError;
use efficax::data::{
    decode, ChatData, DespawnData, EntitySnapshotData, EntitySpecificSnapshotData, EntityType,
    InputData, JoinData, NetworkData, PlayerSnapshotData, PositionData, SnapshotData, SpawnData,
};
use efficax::packet::{encode_packet, udp_payload, FrameError, NetworkPacket};

#[test]
fn encode_join_is_tag_id_then_position() {
    let d = NetworkData::Join(JoinData { player_id: 0x01020304, pos: PositionData { x: 0x1122, y: 0x3344 } });
    assert_eq!(d.encode(), vec![4, 0x04, 0x03, 0x02, 0x01, 0x22, 0x11, 0x44, 0x33]);
}

#[test]
fn encode_spawn_carries_entity_type() {
    let d = NetworkData::Spawn(SpawnData {
        entity_type: EntityType::Player,
        entity_id: 7,
        pos: PositionData { x: 1, y: 2 },
    });
    assert_eq!(d.encode(), vec![5, 0, 7, 0, 0, 0, 1, 0, 2, 0]);
}

#[test]
fn encode_despawn() {
    let d = NetworkData::Despawn(DespawnData { entity_id: 258 });
    assert_eq!(d.encode(), vec![6, 2, 1, 0, 0]);
}

#[test]
fn encode_chat_has_u64_length_prefix() {
    let d = NetworkData::Chat(ChatData { message: "hé".to_string() });
    assert_eq!(d.encode(), vec![1, 3, 0, 0, 0, 0, 0, 0, 0, b'h', 0xc3, 0xa9]);
}

#[test]
fn encode_snapshot_lists_entities() {
    let d = NetworkData::Snapshot(SnapshotData {
        entity_snapshots: vec![
            EntitySnapshotData {
                id: 1,
                pos: PositionData { x: 2, y: 3 },
                data: EntitySpecificSnapshotData::Player(PlayerSnapshotData { input_sequence: 9 }),
            },
            EntitySnapshotData { id: 4, pos: PositionData { x: 5, y: 6 }, data: EntitySpecificSnapshotData::NoData },
        ],
    });
    assert_eq!(
        d.encode(),
        vec![2, 2, 1, 0, 0, 0, 2, 0, 3, 0, 0, 9, 4, 0, 0, 0, 5, 0, 6, 0, 0]
    );
}

#[test]
fn encode_empty_snapshot() {
    let d = NetworkData::Snapshot(SnapshotData { entity_snapshots: vec![] });
    assert_eq!(d.encode(), vec![2, 0]);
}

#[test]
fn tags_of_messages() {
    assert_eq!(NetworkData::Input(InputData { input: 0, input_sequence: 0 }).as_u8(), 0);
    assert_eq!(NetworkData::InitUDP(1).as_u8(), 3);
    assert_eq!(EntityType::Player.as_u8(), 0);
    assert_eq!(EntitySpecificSnapshotData::NoData.as_u8(), 0);
    assert_eq!(EntitySpecificSnapshotData::Player(PlayerSnapshotData { input_sequence: 1 }).as_u8(), 0);
}

#[test]
fn decode_input() {
    assert_eq!(
        decode(&[0, 5, 7, 99]),
        Ok((NetworkData::Input(InputData { input: 5, input_sequence: 7 }), 3))
    );
}

#[test]
fn decode_init_udp_little_endian_port() {
    assert_eq!(decode(&[3, 0x90, 0x1f]), Ok((NetworkData::InitUDP(8080), 3)));
}

#[test]
fn decode_chat() {
    let bytes = [1, 2, 0, 0, 0, 0, 0, 0, 0, b'o', b'k', 1, 2];
    assert_eq!(
        decode(&bytes),
        Ok((NetworkData::Chat(ChatData { message: "ok".to_string() }), 11))
    );
}

#[test]
fn decode_errors() {
    assert_eq!(decode(&[]), Err(DecodeError::UnexpectedEnd));
    assert_eq!(decode(&[0, 1]), Err(DecodeError::UnexpectedEnd));
    assert_eq!(decode(&[3, 1]), Err(DecodeError::UnexpectedEnd));
    assert_eq!(decode(&[2, 0]), Err(DecodeError::UnexpectedVariant { found: 2 }));
    assert_eq!(decode(&[9]), Err(DecodeError::UnexpectedVariant { found: 9 }));
    assert_eq!(decode(&[1, 0, 0, 0]), Err(DecodeError::UnexpectedEnd));
    assert_eq!(
        decode(&[1, 0xff, 0xff, 0xff, 0xff, 0xff, 0xff, 0xff, 0xff, b'a']),
        Err(DecodeError::UnexpectedEnd)
    );
    assert_eq!(decode(&[1, 5, 0, 0, 0, 0, 0, 0, 0, b'a']), Err(DecodeError::UnexpectedEnd));
    assert_eq!(decode(&[1, 1, 0, 0, 0, 0, 0, 0, 0, 0xff]), Err(DecodeError::Utf8));
}

#[test]
fn chat_roundtrip() {
    let d = NetworkData::Chat(ChatData { message: "hello, wörld".to_string() });
    let bytes = d.encode();
    assert_eq!(decode(&bytes), Ok((d, bytes.len())));
}

#[test]
fn packet_frame_has_length_and_tick() {
    let p = NetworkPacket::unicast(true, 42, 0x0102_0309, NetworkData::Despawn(DespawnData { entity_id: 1 }));
    let frame = encode_packet(&p).unwrap();
    assert_eq!(frame, vec![5, 0, 9, 3, 2, 1, 6, 1, 0, 0, 0]);
    assert_eq!(udp_payload(&frame), &[9, 3, 2, 1, 6, 1, 0, 0, 0][..]);
}

#[test]
fn packet_frame_refusals() {
    let p = NetworkPacket::unicast(false, 1, 0, NetworkData::InitUDP(5));
    assert_eq!(encode_packet(&p), Err(FrameError::Unsupported));
    let p = NetworkPacket::unicast(false, 1, 0, NetworkData::Input(InputData { input: 1, input_sequence: 1 }));
    assert_eq!(encode_packet(&p), Err(FrameError::Unsupported));
    let long = "x".repeat(4090);
    let p = NetworkPacket::unicast(true, 1, 0, NetworkData::Chat(ChatData { message: long }));
    assert_eq!(encode_packet(&p), Err(FrameError::TooLarge));
    let one = EntitySnapshotData { id: 1, pos: PositionData { x: 0, y: 0 }, data: EntitySpecificSnapshotData::NoData };
    let p = NetworkPacket::unicast(false, 1, 0, NetworkData::Snapshot(SnapshotData { entity_snapshots: vec![one; 256] }));
    assert_eq!(encode_packet(&p), Err(FrameError::TooManyEntities));
    let p = NetworkPacket::unicast(false, 1, 0, NetworkData::Snapshot(SnapshotData { entity_snapshots: vec![one; 255] }));
    let frame = encode_packet(&p).unwrap();
    assert_eq!(frame[7], 255);
    let fits = "x".repeat(4090 - 9);
    let p = NetworkPacket::unicast(true, 1, 0, NetworkData::Chat(ChatData { message: fits }));
    assert_eq!(encode_packet(&p).unwrap().len(), 4096);
}

#[test]
fn packet_constructors() {
    let p = NetworkPacket::multicast(false, vec![3, 4], 2, NetworkData::InitUDP(1));
    assert_eq!(p.addrs, vec![3, 4]);
    assert_eq!(p.get_addr(), 3);
    assert!(!p.is_tcp);
    let q = NetworkPacket::unicast(true, 8, 1, NetworkData::InitUDP(1));
    assert_eq!(q.addrs, vec![8]);
}
