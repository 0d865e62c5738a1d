//! The messages exchanged between server and clients, and their wire format.
//!
//! Every message starts with a one-byte variant tag. The server encodes the
//! variants that it sends (chat, snapshot, join, spawn, despawn) and decodes
//! the variants that clients send (input, chat, UDP initialisation).

use vstd::prelude::*;
use vstd::utf8::*;
use vstd::slice::slice_subrange;

use crate::codec::{
    DecodeError, le_u16, le_u32, string_bytes, u16_from_le, u64_from_le, spec_decode_string,
    lemma_string_roundtrip, encode_u8, encode_u16, encode_u32, encode_string, decode_u8, decode_u16,
    decode_u64, decode_string,
};

verus! {

/// Tag byte of an input message.
pub const INPUT: u8 = 0;
/// Tag byte of a chat message.
pub const CHAT: u8 = 1;
/// Tag byte of a snapshot message.
pub const SNAPSHOT: u8 = 2;
/// Tag byte of a UDP initialisation message.
pub const INIT_UDP: u8 = 3;
/// Tag byte of a join message.
pub const JOIN: u8 = 4;
/// Tag byte of a spawn message.
pub const SPAWN: u8 = 5;
/// Tag byte of a despawn message.
pub const DESPAWN: u8 = 6;

/// Tag byte of an entity snapshot that carries nothing specific.
pub const SNAPSHOT_NONE: u8 = 0;
/// Tag byte of an entity snapshot that carries player data (variant 0 of
/// the schema, the only one the server sends).
pub const SNAPSHOT_PLAYER: u8 = 0;

/// Tag byte of the player entity type.
pub const ENTITY_PLAYER: u8 = 0;

/// A client's directional input and the sequence number it was sent with.
#[derive(Debug, Clone, Copy, PartialEq, Eq, Structural)]
pub struct InputData {
    pub input: u8,
    pub input_sequence: u8,
}

/// A chat line.
#[derive(Debug, Clone, PartialEq, Eq)]
pub struct ChatData {
    pub message: String,
}

/// A position quantised to 16 bits per axis.
#[derive(Debug, Clone, Copy, PartialEq, Eq, Structural)]
pub struct PositionData {
    pub x: u16,
    pub y: u16,
}

/// The kinds of entity that can be spawned.
#[derive(Debug, Clone, Copy, PartialEq, Eq, Structural)]
pub enum EntityType {
    Player,
}

/// Player-specific part of an entity snapshot.
#[derive(Debug, Clone, Copy, PartialEq, Eq, Structural)]
pub struct PlayerSnapshotData {
    pub input_sequence: u8,
}

/// The part of an entity snapshot that depends on the kind of entity.
#[derive(Debug, Clone, Copy, PartialEq, Eq, Structural)]
pub enum EntitySpecificSnapshotData {
    NoData,
    Player(PlayerSnapshotData),
}

/// The state of one entity in a snapshot.
#[derive(Debug, Clone, Copy, PartialEq, Eq, Structural)]
pub struct EntitySnapshotData {
    pub id: u32,
    pub pos: PositionData,
    pub data: EntitySpecificSnapshotData,
}

/// The state of the entities near a client at one tick.
#[derive(Debug, Clone, PartialEq, Eq)]
pub struct SnapshotData {
    pub entity_snapshots: Vec<EntitySnapshotData>,
}

/// Tells a new client which entity it controls and where it is.
#[derive(Debug, Clone, Copy, PartialEq, Eq, Structural)]
pub struct JoinData {
    pub player_id: u32,
    pub pos: PositionData,
}

/// Announces a new entity.
#[derive(Debug, Clone, Copy, PartialEq, Eq, Structural)]
pub struct SpawnData {
    pub entity_type: EntityType,
    pub entity_id: u32,
    pub pos: PositionData,
}

/// Announces that an entity is gone.
#[derive(Debug, Clone, Copy, PartialEq, Eq, Structural)]
pub struct DespawnData {
    pub entity_id: u32,
}

/// A message between server and client.
#[derive(Debug, Clone, PartialEq, Eq)]
pub enum NetworkData {
    Input(InputData),
    Chat(ChatData),
    Snapshot(SnapshotData),
    InitUDP(u16),
    Join(JoinData),
    Spawn(SpawnData),
    Despawn(DespawnData),
}

/// The mathematical value of a `NetworkData`: strings as character
/// sequences and vectors as sequences.
pub enum DataModel {
    Input(InputData),
    Chat(Seq<char>),
    Snapshot(Seq<EntitySnapshotData>),
    InitUdp(u16),
    Join(JoinData),
    Spawn(SpawnData),
    Despawn(DespawnData),
}

impl View for NetworkData {
    type V = DataModel;

    open spec fn view(&self) -> DataModel {
        match self {
            NetworkData::Input(d) => DataModel::Input(*d),
            NetworkData::Chat(c) => DataModel::Chat(c.message@),
            NetworkData::Snapshot(s) => DataModel::Snapshot(s.entity_snapshots@),
            NetworkData::InitUDP(p) => DataModel::InitUdp(*p),
            NetworkData::Join(j) => DataModel::Join(*j),
            NetworkData::Spawn(s) => DataModel::Spawn(*s),
            NetworkData::Despawn(d) => DataModel::Despawn(*d),
        }
    }
}

/// The tag byte of each variant.
pub open spec fn model_tag(d: DataModel) -> u8 {
    match d {
        DataModel::Input(_) => INPUT,
        DataModel::Chat(_) => CHAT,
        DataModel::Snapshot(_) => SNAPSHOT,
        DataModel::InitUdp(_) => INIT_UDP,
        DataModel::Join(_) => JOIN,
        DataModel::Spawn(_) => SPAWN,
        DataModel::Despawn(_) => DESPAWN,
    }
}

/// The server only sends, and so only encodes, these variants.
pub open spec fn model_encodable(d: DataModel) -> bool {
    !(d is Input) && !(d is InitUdp)
}

/// The most entities a snapshot can list: its count is one byte.
pub const MAX_SNAPSHOT_ENTITIES: usize = 255;

/// Whether every count in the message fits its byte: a snapshot lists at
/// most `MAX_SNAPSHOT_ENTITIES` entities.
pub open spec fn model_counts_fit(d: DataModel) -> bool {
    d is Snapshot ==> d->Snapshot_0.len() <= MAX_SNAPSHOT_ENTITIES
}

/// The bytes of a position: x, then y, each little endian.
pub open spec fn position_bytes(p: PositionData) -> Seq<u8> {
    le_u16(p.x) + le_u16(p.y)
}

/// The bytes of the entity-specific part of a snapshot.
pub open spec fn entity_specific_bytes(d: EntitySpecificSnapshotData) -> Seq<u8> {
    match d {
        EntitySpecificSnapshotData::NoData => seq![SNAPSHOT_NONE],
        EntitySpecificSnapshotData::Player(p) => seq![SNAPSHOT_PLAYER, p.input_sequence],
    }
}

/// The bytes of one entity snapshot: id, position, specific part.
pub open spec fn entity_snapshot_bytes(e: EntitySnapshotData) -> Seq<u8> {
    le_u32(e.id) + position_bytes(e.pos) + entity_specific_bytes(e.data)
}

/// The bytes of a sequence of entity snapshots, one after the other.
pub open spec fn snapshots_bytes(s: Seq<EntitySnapshotData>) -> Seq<u8>
    decreases s.len(),
{
    if s.len() == 0 {
        seq![]
    } else {
        snapshots_bytes(s.drop_last()) + entity_snapshot_bytes(s.last())
    }
}

/// The encoding of an entity type: its tag byte.
pub open spec fn entity_type_byte(t: EntityType) -> u8 {
    match t {
        EntityType::Player => ENTITY_PLAYER,
    }
}

/// The wire encoding of a message the server sends: the tag byte, then the
/// fields in order. A snapshot carries its entity count in one byte, so it
/// lists at most `MAX_SNAPSHOT_ENTITIES` entities. Input and UDP
/// initialisation are never encoded.
pub open spec fn spec_encode(d: DataModel) -> Seq<u8> {
    match d {
        DataModel::Chat(m) => seq![CHAT] + string_bytes(m),
        DataModel::Snapshot(s) => seq![SNAPSHOT, s.len() as u8] + snapshots_bytes(s),
        DataModel::Join(j) => seq![JOIN] + le_u32(j.player_id) + position_bytes(j.pos),
        DataModel::Spawn(s) => seq![SPAWN, entity_type_byte(s.entity_type)] + le_u32(s.entity_id)
            + position_bytes(s.pos),
        DataModel::Despawn(x) => seq![DESPAWN] + le_u32(x.entity_id),
        _ => seq![],
    }
}

/// What decoding `b` gives: the message and the number of bytes read, or
/// the reason it fails. Clients send input (tag, input, sequence), chat
/// (tag, string) and UDP initialisation (tag, little-endian port); any other
/// tag is refused.
pub open spec fn spec_decode(b: Seq<u8>) -> Result<(DataModel, nat), DecodeError> {
    if b.len() < 1 {
        Err(DecodeError::UnexpectedEnd)
    } else if b[0] == INPUT {
        if b.len() < 3 {
            Err(DecodeError::UnexpectedEnd)
        } else {
            Ok((DataModel::Input(InputData { input: b[1], input_sequence: b[2] }), 3))
        }
    } else if b[0] == CHAT {
        match spec_decode_string(b.skip(1)) {
            Ok((m, n)) => Ok((DataModel::Chat(m), n + 1)),
            Err(e) => Err(e),
        }
    } else if b[0] == INIT_UDP {
        if b.len() < 3 {
            Err(DecodeError::UnexpectedEnd)
        } else {
            Ok((DataModel::InitUdp(u16_from_le(b[1], b[2])), 3))
        }
    } else {
        Err(DecodeError::UnexpectedVariant { found: b[0] as u32 })
    }
}

impl EntityType {
    /// The tag byte of this entity type.
    pub fn as_u8(&self) -> (b: u8)
        ensures
            b == entity_type_byte(*self),
    {
        match self {
            EntityType::Player => ENTITY_PLAYER,
        }
    }
}

impl EntitySpecificSnapshotData {
    /// The tag byte of this snapshot part.
    pub fn as_u8(&self) -> (b: u8)
        ensures
            b == entity_specific_bytes(*self)[0],
    {
        match self {
            EntitySpecificSnapshotData::NoData => SNAPSHOT_NONE,
            EntitySpecificSnapshotData::Player(_) => SNAPSHOT_PLAYER,
        }
    }
}

impl PositionData {
    fn encode_into(&self, out: &mut Vec<u8>)
        ensures
            final(out)@ == old(out)@ + position_bytes(*self),
    {
        let mut x = encode_u16(self.x);
        let mut y = encode_u16(self.y);
        out.append(&mut x);
        out.append(&mut y);
    }
}

impl EntitySnapshotData {
    fn encode_into(&self, out: &mut Vec<u8>)
        ensures
            final(out)@ == old(out)@ + entity_snapshot_bytes(*self),
    {
        let mut id = encode_u32(self.id);
        out.append(&mut id);
        self.pos.encode_into(out);
        let mut tag = encode_u8(self.data.as_u8());
        out.append(&mut tag);
        match self.data {
            EntitySpecificSnapshotData::NoData => {},
            EntitySpecificSnapshotData::Player(p) => {
                let mut seq = encode_u8(p.input_sequence);
                out.append(&mut seq);
            },
        }
        assert(out@ =~= old(out)@ + entity_snapshot_bytes(*self));
    }
}

impl SnapshotData {
    fn encode_into(&self, out: &mut Vec<u8>)
        requires
            self.entity_snapshots@.len() <= MAX_SNAPSHOT_ENTITIES,
        ensures
            final(out)@ == old(out)@ + seq![self.entity_snapshots@.len() as u8]
                + snapshots_bytes(self.entity_snapshots@),
    {
        let count = self.entity_snapshots.len();
        let mut len_byte = encode_u8(count as u8);
        out.append(&mut len_byte);
        let ghost start = out@;
        let mut i: usize = 0;
        while i < count
            invariant
                count == self.entity_snapshots@.len(),
                0 <= i <= count,
                out@ == start + snapshots_bytes(self.entity_snapshots@.take(i as int)),
            decreases count - i,
        {
            self.entity_snapshots[i].encode_into(out);
            proof {
                let s = self.entity_snapshots@;
                assert(s.take(i + 1).drop_last() =~= s.take(i as int));
                assert(s.take(i + 1).last() == s[i as int]);
            }
            i = i + 1;
        }
        assert(self.entity_snapshots@.take(count as int) =~= self.entity_snapshots@);
    }
}

impl NetworkData {
    /// Whether the server can encode this message.
    pub open spec fn is_encodable(&self) -> bool {
        model_encodable(self@)
    }

    /// Whether every count in this message fits its byte.
    pub open spec fn counts_fit(&self) -> bool {
        model_counts_fit(self@)
    }

    /// The tag byte of this message.
    pub fn as_u8(&self) -> (b: u8)
        ensures
            b == model_tag(self@),
    {
        match self {
            NetworkData::Input(_) => INPUT,
            NetworkData::Chat(_) => CHAT,
            NetworkData::Snapshot(_) => SNAPSHOT,
            NetworkData::InitUDP(_) => INIT_UDP,
            NetworkData::Join(_) => JOIN,
            NetworkData::Spawn(_) => SPAWN,
            NetworkData::Despawn(_) => DESPAWN,
        }
    }

    /// The wire encoding of a message that the server sends.
    pub fn encode(&self) -> (bytes: Vec<u8>)
        requires
            self.is_encodable(),
            self.counts_fit(),
        ensures
            bytes@ == spec_encode(self@),
    {
        let mut out = encode_u8(self.as_u8());
        match self {
            NetworkData::Chat(c) => {
                let mut s = encode_string(c.message.as_str());
                out.append(&mut s);
            },
            NetworkData::Snapshot(s) => {
                s.encode_into(&mut out);
            },
            NetworkData::Join(j) => {
                let mut id = encode_u32(j.player_id);
                out.append(&mut id);
                j.pos.encode_into(&mut out);
            },
            NetworkData::Spawn(s) => {
                let mut t = encode_u8(s.entity_type.as_u8());
                out.append(&mut t);
                let mut id = encode_u32(s.entity_id);
                out.append(&mut id);
                s.pos.encode_into(&mut out);
            },
            NetworkData::Despawn(d) => {
                let mut id = encode_u32(d.entity_id);
                out.append(&mut id);
            },
            _ => {},
        }
        assert(out@ =~= spec_encode(self@));
        out
    }
}

/// Decodes one message from the front of `bytes`, returning it with the
/// number of bytes it occupied. A chat string whose declared length exceeds
/// the bytes that follow is refused as `UnexpectedEnd` before any allocation.
pub fn decode(bytes: &[u8]) -> (r: Result<(NetworkData, usize), DecodeError>)
    ensures
        match r {
            Ok((d, n)) => spec_decode(bytes@) == Ok::<(DataModel, nat), DecodeError>(
                (d@, n as nat),
            ),
            Err(e) => spec_decode(bytes@) == Err::<(DataModel, nat), DecodeError>(e),
        },
{
    let tag = match decode_u8(bytes) {
        Ok((t, _)) => t,
        Err(e) => {
            return Err(e);
        },
    };
    let rest = slice_subrange(bytes, 1, bytes.len());
    assert(rest@ =~= bytes@.skip(1));
    if tag == INPUT {
        let input = match decode_u8(rest) {
            Ok((v, _)) => v,
            Err(e) => {
                return Err(e);
            },
        };
        let rest2 = slice_subrange(rest, 1, rest.len());
        let input_sequence = match decode_u8(rest2) {
            Ok((v, _)) => v,
            Err(e) => {
                return Err(e);
            },
        };
        Ok((NetworkData::Input(InputData { input, input_sequence }), 3))
    } else if tag == CHAT {
        match decode_u64(rest) {
            Ok((declared, _)) => {
                if declared > (rest.len() - 8) as u64 {
                    return Err(DecodeError::UnexpectedEnd);
                }
            },
            Err(e) => {
                return Err(e);
            },
        }
        match decode_string(rest) {
            Ok((message, n)) => Ok((NetworkData::Chat(ChatData { message }), n + 1)),
            Err(e) => Err(e),
        }
    } else if tag == INIT_UDP {
        match decode_u16(rest) {
            Ok((port, _)) => Ok((NetworkData::InitUDP(port), 3)),
            Err(e) => Err(e),
        }
    } else {
        Err(DecodeError::UnexpectedVariant { found: tag as u32 })
    }
}

/// Decoding a successful prefix reports how many bytes it read, and the
/// same message comes out whatever bytes follow them.
pub proof fn lemma_decode_ignores_trailing_bytes(b: Seq<u8>, extra: Seq<u8>)
    requires
        spec_decode(b) is Ok,
    ensures
        ({
            let (d, n) = spec_decode(b)->Ok_0;
            &&& 1 <= n <= b.len()
            &&& spec_decode(b + extra) == spec_decode(b)
            &&& spec_decode(b.take(n as int)) == spec_decode(b)
        }),
{
    let (d, n) = spec_decode(b)->Ok_0;
    let be = b + extra;
    let bt = b.take(n as int);
    assert(be[0] == b[0]);
    assert(bt[0] == b[0]);
    if b[0] == CHAT {
        let r = b.skip(1);
        assert(be.skip(1) =~= r + extra);
        let l = u64_from_le(r);
        assert(be.skip(1)[0] == r[0] && be.skip(1)[1] == r[1] && be.skip(1)[2] == r[2]
            && be.skip(1)[3] == r[3] && be.skip(1)[4] == r[4] && be.skip(1)[5] == r[5]
            && be.skip(1)[6] == r[6] && be.skip(1)[7] == r[7]);
        assert(bt.skip(1)[0] == r[0] && bt.skip(1)[1] == r[1] && bt.skip(1)[2] == r[2]
            && bt.skip(1)[3] == r[3] && bt.skip(1)[4] == r[4] && bt.skip(1)[5] == r[5]
            && bt.skip(1)[6] == r[6] && bt.skip(1)[7] == r[7]);
        assert(be.skip(1).subrange(8, 8 + l) =~= r.subrange(8, 8 + l));
        assert(bt.skip(1).subrange(8, 8 + l) =~= r.subrange(8, 8 + l));
    }
}

/// A chat message comes back unchanged from its own encoding, whatever
/// bytes follow it.
pub proof fn lemma_chat_roundtrip(m: Seq<char>, rest: Seq<u8>)
    requires
        encode_utf8(m).len() <= u64::MAX,
    ensures
        spec_decode(spec_encode(DataModel::Chat(m)) + rest) == Ok::<(DataModel, nat), DecodeError>(
            (DataModel::Chat(m), spec_encode(DataModel::Chat(m)).len()),
        ),
{
    let b = spec_encode(DataModel::Chat(m)) + rest;
    assert(b.skip(1) =~= string_bytes(m) + rest);
    lemma_string_roundtrip(m, rest);
}

/// Four little-endian bytes read back as a number.
proof fn lemma_le_u32_value(v: u32)
    ensures
        ((v & 0xff) as u8) as int + 256 * (((v >> 8u32) & 0xff) as u8) as int + 65536 * (((v
            >> 16u32) & 0xff) as u8) as int + 16777216 * (((v >> 24u32) & 0xff) as u8) as int
            == v as int,
{
    assert(((v & 0xff) as u8) as u32 + 256u32 * (((v >> 8u32) & 0xff) as u8) as u32 + 65536u32
        * (((v >> 16u32) & 0xff) as u8) as u32 + 16777216u32 * (((v >> 24u32) & 0xff) as u8) as u32
        == v) by (bit_vector);
}

/// Two little-endian bytes read back as a number.
proof fn lemma_le_u16_value(v: u16)
    ensures
        ((v & 0xff) as u8) as int + 256 * (((v >> 8u16) & 0xff) as u8) as int == v as int,
{
    assert(((v & 0xff) as u8) as u16 + 256u16 * (((v >> 8u16) & 0xff) as u8) as u16 == v)
        by (bit_vector);
}

/// The messages about entities carry every field in full: a spawn is its
/// tag 5, the entity type 0 of a player, the entity id in four
/// little-endian bytes, then x and y in two little-endian bytes each; a join
/// is its tag 4, the player id, then the position; a despawn is its tag 6
/// and the entity id. Reading the bytes back gives every field, whatever
/// its value.
pub proof fn lemma_entity_messages_carry_fields(s: SpawnData, j: JoinData, x: DespawnData)
    ensures
        ({
            let b = spec_encode(DataModel::Spawn(s));
            &&& b.len() == 10
            &&& b[0] == 5 && b[1] == 0
            &&& b[2] + 256 * b[3] + 65536 * b[4] + 16777216 * b[5] == s.entity_id
            &&& b[6] + 256 * b[7] == s.pos.x
            &&& b[8] + 256 * b[9] == s.pos.y
        }),
        ({
            let b = spec_encode(DataModel::Join(j));
            &&& b.len() == 9
            &&& b[0] == 4
            &&& b[1] + 256 * b[2] + 65536 * b[3] + 16777216 * b[4] == j.player_id
            &&& b[5] + 256 * b[6] == j.pos.x
            &&& b[7] + 256 * b[8] == j.pos.y
        }),
        ({
            let b = spec_encode(DataModel::Despawn(x));
            &&& b.len() == 5
            &&& b[0] == 6
            &&& b[1] + 256 * b[2] + 65536 * b[3] + 16777216 * b[4] == x.entity_id
        }),
{
    lemma_le_u32_value(s.entity_id);
    lemma_le_u16_value(s.pos.x);
    lemma_le_u16_value(s.pos.y);
    lemma_le_u32_value(j.player_id);
    lemma_le_u16_value(j.pos.x);
    lemma_le_u16_value(j.pos.y);
    lemma_le_u32_value(x.entity_id);
    let bs = spec_encode(DataModel::Spawn(s));
    assert(bs =~= seq![5u8, 0u8] + le_u32(s.entity_id) + le_u16(s.pos.x) + le_u16(s.pos.y));
    let bj = spec_encode(DataModel::Join(j));
    assert(bj =~= seq![4u8] + le_u32(j.player_id) + le_u16(j.pos.x) + le_u16(j.pos.y));
    let bx = spec_encode(DataModel::Despawn(x));
    assert(bx =~= seq![6u8] + le_u32(x.entity_id));
}

} // verus!
