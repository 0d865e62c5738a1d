//! Outgoing packets and their framing on the wire.
//!
//! A frame sent over TCP is the payload length as a little-endian `u16`, the
//! tick id as a little-endian `u32`, then the encoded message. Over UDP the
//! same frame is sent without its two length bytes.

use vstd::prelude::*;
use vstd::slice::slice_subrange;

use crate::codec::{le_u16, le_u32, write_u16_le, encode_u32};
use crate::data::{NetworkData, DataModel, spec_encode, MAX_SNAPSHOT_ENTITIES};

verus! {

/// The size of the buffer a frame is built in.
pub const FRAME_BUF_SIZE: usize = 4096;

/// The largest encoded message that fits in a frame next to its header.
pub const MAX_PAYLOAD: usize = 4090;

/// A message addressed to one or more client endpoints, over TCP or UDP,
/// stamped with the tick it was produced in.
#[derive(Debug, Clone, PartialEq, Eq)]
pub struct NetworkPacket {
    pub is_tcp: bool,
    pub addrs: Vec<u64>,
    pub tick_id: u32,
    pub data: NetworkData,
}

/// The mathematical value of a packet.
pub struct PacketModel {
    pub is_tcp: bool,
    pub addrs: Seq<u64>,
    pub tick_id: u32,
    pub data: DataModel,
}

impl View for NetworkPacket {
    type V = PacketModel;

    open spec fn view(&self) -> PacketModel {
        PacketModel {
            is_tcp: self.is_tcp,
            addrs: self.addrs@,
            tick_id: self.tick_id,
            data: self.data@,
        }
    }
}

/// Why a packet could not be framed.
#[derive(Debug, Clone, Copy, PartialEq, Eq, Structural)]
pub enum FrameError {
    /// The server does not encode this kind of message.
    Unsupported,
    /// The encoded message does not fit in a frame.
    TooLarge,
    /// A snapshot lists more entities than its count byte can hold.
    TooManyEntities,
}

/// The TCP frame of an encoded message sent at tick `tick`.
pub open spec fn spec_frame(tick: u32, payload: Seq<u8>) -> Seq<u8> {
    le_u16(payload.len() as u16) + le_u32(tick) + payload
}

impl NetworkPacket {
    /// A packet for the single endpoint `addr`.
    pub fn unicast(is_tcp: bool, addr: u64, tick_id: u32, data: NetworkData) -> (p: Self)
        ensures
            p.is_tcp == is_tcp,
            p.addrs@ == seq![addr],
            p.tick_id == tick_id,
            p.data == data,
    {
        let mut addrs = Vec::new();
        addrs.push(addr);
        NetworkPacket { is_tcp, addrs, tick_id, data }
    }

    /// A packet for all the endpoints in `addrs`, in that order.
    pub fn multicast(is_tcp: bool, addrs: Vec<u64>, tick_id: u32, data: NetworkData) -> (p: Self)
        ensures
            p.is_tcp == is_tcp,
            p.addrs@ == addrs@,
            p.tick_id == tick_id,
            p.data == data,
    {
        NetworkPacket { is_tcp, addrs, tick_id, data }
    }

    /// The first endpoint the packet is addressed to.
    pub fn get_addr(&self) -> (a: u64)
        requires
            self.addrs@.len() > 0,
        ensures
            a == self.addrs@[0],
    {
        self.addrs[0]
    }
}

/// Frames a packet for TCP: length, tick id, encoded message. Messages the
/// server does not encode, snapshots of more than `MAX_SNAPSHOT_ENTITIES`
/// entities, and encodings longer than `MAX_PAYLOAD`, are refused.
pub fn encode_packet(packet: &NetworkPacket) -> (r: Result<Vec<u8>, FrameError>)
    ensures
        match r {
            Ok(frame) => packet.data.is_encodable() && packet.data.counts_fit() && spec_encode(
                packet.data@,
            ).len() <= MAX_PAYLOAD && frame@ == spec_frame(packet.tick_id, spec_encode(packet.data@)),
            Err(FrameError::Unsupported) => !packet.data.is_encodable(),
            Err(FrameError::TooManyEntities) => packet.data.is_encodable() && !packet.data.counts_fit(),
            Err(FrameError::TooLarge) => packet.data.is_encodable() && packet.data.counts_fit()
                && spec_encode(packet.data@).len() > MAX_PAYLOAD,
        },
{
    let supported = match &packet.data {
        NetworkData::Input(_) => false,
        NetworkData::InitUDP(_) => false,
        _ => true,
    };
    if !supported {
        return Err(FrameError::Unsupported);
    }
    let fits = match &packet.data {
        NetworkData::Snapshot(s) => s.entity_snapshots.len() <= MAX_SNAPSHOT_ENTITIES,
        _ => true,
    };
    if !fits {
        return Err(FrameError::TooManyEntities);
    }
    let mut payload = packet.data.encode();
    let len = payload.len();
    if len > MAX_PAYLOAD {
        return Err(FrameError::TooLarge);
    }
    let mut frame: Vec<u8> = Vec::new();
    frame.push(0);
    frame.push(0);
    write_u16_le(frame.as_mut_slice(), len as u16);
    let mut tick = encode_u32(packet.tick_id);
    frame.append(&mut tick);
    frame.append(&mut payload);
    assert(frame@ =~= spec_frame(packet.tick_id, spec_encode(packet.data@)));
    Ok(frame)
}

/// The datagram sent over UDP for a TCP frame: the frame without its length.
pub fn udp_payload(frame: &[u8]) -> (d: &[u8])
    requires
        frame@.len() >= 2,
    ensures
        d@ == frame@.skip(2),
{
    slice_subrange(frame, 2, frame.len())
}

} // verus!
