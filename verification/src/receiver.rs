//! Reassembly of client messages from a TCP byte stream.
//!
//! Clients send frames of a little-endian `u16` payload length followed by an
//! encoded message. Bytes arrive in arbitrary chunks; a `TcpReceiver` keeps
//! what has not been consumed yet and, after each chunk, decodes every frame
//! that is complete. UDP initialisation requests go to the sender, every other
//! message to the server.

use vstd::prelude::*;
use std::collections::VecDeque;

use crate::codec::{DecodeError, u16_from_le, le_u16, read_u16_le};
use crate::data::{NetworkData, DataModel, decode, spec_decode, spec_encode};

verus! {

/// The largest payload length a frame may declare.
pub const BUF_SIZE: usize = 4096;

/// The most bytes a connection may hold waiting for a frame to complete.
pub const RING_SIZE: usize = 8192;

/// Why a TCP connection has to be closed.
#[derive(Debug, Clone, Copy, PartialEq, Eq, Structural)]
pub enum ReceiveError {
    /// More than `RING_SIZE` bytes are waiting. What is bounded is the
    /// number of bytes held, not the capacity the buffer happens to have
    /// allocated, which depends on how the allocator grows it.
    RingOverflow,
    /// A frame declares an empty payload.
    PacketSizeTooSmall,
    /// A frame declares a payload longer than `BUF_SIZE`.
    PacketSizeTooLarge,
    /// A frame's payload is not a message.
    Unparsable(DecodeError),
}

/// A message taken from a TCP connection.
#[derive(Debug, Clone, PartialEq, Eq)]
pub enum Received {
    /// The client announces its UDP port; this goes to the sender.
    InitUdp(u16),
    /// Any other message; this goes to the server.
    Data(NetworkData),
}

/// The mathematical value of a `Received`.
pub enum ReceivedModel {
    InitUdp(u16),
    Data(DataModel),
}

impl View for Received {
    type V = ReceivedModel;

    open spec fn view(&self) -> ReceivedModel {
        match self {
            Received::InitUdp(p) => ReceivedModel::InitUdp(*p),
            Received::Data(d) => ReceivedModel::Data(d@),
        }
    }
}

/// Where a decoded message goes.
pub open spec fn route_received(d: DataModel) -> ReceivedModel {
    match d {
        DataModel::InitUdp(p) => ReceivedModel::InitUdp(p),
        _ => ReceivedModel::Data(d),
    }
}

/// The payload length that the frame at the front of `b` declares.
pub open spec fn declared_size(b: Seq<u8>) -> nat
    recommends
        b.len() >= 2,
{
    u16_from_le(b[0], b[1]) as nat
}

/// Whether `b` starts with a complete frame.
pub open spec fn has_complete_frame(b: Seq<u8>) -> bool {
    b.len() >= 2 && b.len() >= declared_size(b) + 2
}

/// Decodes the complete frames at the front of `b`: the messages in order,
/// the bytes left over, and the error that closes the connection, if any.
/// After a frame is decoded the bytes the decoder read, plus the two length
/// bytes, are dropped.
pub open spec fn spec_process(b: Seq<u8>) -> (Seq<ReceivedModel>, Seq<u8>, Option<ReceiveError>)
    decreases b.len(),
{
    if !has_complete_frame(b) {
        (seq![], b, None)
    } else {
        let size = declared_size(b);
        if size == 0 {
            (seq![], b, Some(ReceiveError::PacketSizeTooSmall))
        } else if size > BUF_SIZE {
            (seq![], b, Some(ReceiveError::PacketSizeTooLarge))
        } else {
            match spec_decode(b.subrange(2, size as int + 2)) {
                Ok((d, n)) => if n + 2 <= b.len() {
                    let rest = spec_process(b.skip(n as int + 2));
                    (seq![route_received(d)] + rest.0, rest.1, rest.2)
                } else {
                    (seq![], b, None)
                },
                Err(e) => (seq![], b, Some(ReceiveError::Unparsable(e))),
            }
        }
    }
}

/// The outcome of feeding a chunk to a receiver whose pending bytes are
/// `pending`.
pub open spec fn spec_feed(pending: Seq<u8>, chunk: Seq<u8>) -> (
    Seq<ReceivedModel>,
    Seq<u8>,
    Option<ReceiveError>,
) {
    let b = pending + chunk;
    if b.len() > RING_SIZE {
        (seq![], b, Some(ReceiveError::RingOverflow))
    } else {
        spec_process(b)
    }
}

/// The bytes a client sends for one message: its length, then the message.
pub open spec fn client_frame(payload: Seq<u8>) -> Seq<u8> {
    le_u16(payload.len() as u16) + payload
}

/// The receiving end of one TCP connection.
pub struct TcpReceiver {
    ring: VecDeque<u8>,
}

impl TcpReceiver {
    /// The bytes received but not consumed yet.
    pub closed spec fn pending(&self) -> Seq<u8> {
        self.ring@
    }

    /// A receiver with nothing pending.
    pub fn new() -> (r: Self)
        ensures
            r.pending() == Seq::<u8>::empty(),
    {
        TcpReceiver { ring: VecDeque::new() }
    }

    /// The number of bytes pending.
    pub fn pending_len(&self) -> (n: usize)
        ensures
            n == self.pending().len(),
    {
        self.ring.len()
    }

    /// Takes in a chunk of bytes and decodes every frame that is now
    /// complete. Returns the messages in the order they arrived, and the
    /// error that must close the connection, if any; the messages before an
    /// error are still delivered.
    pub fn feed(&mut self, chunk: &[u8]) -> (r: (Vec<Received>, Option<ReceiveError>))
        ensures
            ({
                let (items, rest, err) = spec_feed(old(self).pending(), chunk@);
                &&& r.0@.map_values(|x: Received| x@) == items
                &&& r.1 == err
                &&& final(self).pending() == rest
            }),
    {
        let mut k: usize = 0;
        let ghost old_ring = self.ring@;
        while k < chunk.len()
            invariant
                0 <= k <= chunk@.len(),
                self.ring@ == old_ring + chunk@.take(k as int),
            decreases chunk@.len() - k,
        {
            self.ring.push_back(chunk[k]);
            assert(chunk@.take(k + 1) =~= chunk@.take(k as int).push(chunk@[k as int]));
            k = k + 1;
        }
        assert(chunk@.take(chunk@.len() as int) =~= chunk@);
        let mut items: Vec<Received> = Vec::new();
        if self.ring.len() > RING_SIZE {
            return (items, Some(ReceiveError::RingOverflow));
        }
        let ghost b = self.ring@;
        let ghost mut start: int = 0;
        let mut err: Option<ReceiveError> = None;
        assert(b.skip(0) =~= b);
        assert(items@.map_values(|x: Received| x@) + spec_process(b).0 =~= spec_process(b).0);
        loop
            invariant_except_break
                b.len() <= RING_SIZE,
                0 <= start <= b.len(),
                self.ring@ == b.skip(start),
                err is None,
                spec_process(b).0 == items@.map_values(|x: Received| x@) + spec_process(
                    b.skip(start),
                ).0,
                spec_process(b).1 == spec_process(b.skip(start)).1,
                spec_process(b).2 == spec_process(b.skip(start)).2,
            ensures
                spec_process(b).0 == items@.map_values(|x: Received| x@),
                spec_process(b).1 == self.ring@,
                spec_process(b).2 == err,
            decreases b.len() - start,
        {
            let ghost cur = b.skip(start);
            let ghost done = items@.map_values(|x: Received| x@);
            let avail = self.ring.len();
            if avail < 2 {
                assert(done + Seq::<ReceivedModel>::empty() =~= done);
                break;
            }
            let mut header: Vec<u8> = Vec::new();
            header.push(self.ring[0]);
            header.push(self.ring[1]);
            let size = read_u16_le(header.as_slice()) as usize;
            assert(cur[0] == header@[0] && cur[1] == header@[1]);
            if avail < size + 2 {
                assert(done + Seq::<ReceivedModel>::empty() =~= done);
                break;
            }
            if size == 0 {
                assert(done + Seq::<ReceivedModel>::empty() =~= done);
                err = Some(ReceiveError::PacketSizeTooSmall);
                break;
            }
            if size > BUF_SIZE {
                assert(done + Seq::<ReceivedModel>::empty() =~= done);
                err = Some(ReceiveError::PacketSizeTooLarge);
                break;
            }
            let mut body: Vec<u8> = Vec::new();
            let mut k: usize = 0;
            while k < size
                invariant
                    0 <= k <= size,
                    size + 2 <= avail,
                    avail == cur.len(),
                    self.ring@ == cur,
                    body@ == cur.subrange(2, k + 2),
                decreases size - k,
            {
                body.push(self.ring[k + 2]);
                assert(cur.subrange(2, k + 3) =~= cur.subrange(2, k + 2).push(cur[k + 2]));
                k = k + 1;
            }
            assert(body@ =~= cur.subrange(2, size as int + 2));
            match decode(body.as_slice()) {
                Ok((d, n)) => {
                    proof {
                        crate::data::lemma_decode_ignores_trailing_bytes(body@, Seq::empty());
                        assert(cur.skip(n + 2) =~= b.skip(start + n + 2));
                    }
                    let item = match d {
                        NetworkData::InitUDP(p) => Received::InitUdp(p),
                        other => Received::Data(other),
                    };
                    let ghost prev = items@;
                    items.push(item);
                    proof {
                        assert(items@.map_values(|x: Received| x@) =~= prev.map_values(
                            |x: Received| x@,
                        ).push(route_received(d@)));
                        let tail = spec_process(b.skip(start + n + 2));
                        assert(prev.map_values(|x: Received| x@).push(route_received(d@)) + tail.0
                            =~= prev.map_values(|x: Received| x@) + (seq![route_received(d@)]
                            + tail.0));
                    }
                    let consumed = n + 2;
                    let mut j: usize = 0;
                    while j < consumed
                        invariant
                            0 <= j <= consumed,
                            consumed == n + 2,
                            consumed <= cur.len(),
                            self.ring@ == cur.skip(j as int),
                        decreases consumed - j,
                    {
                        self.ring.pop_front();
                        assert(cur.skip(j as int).subrange(1, cur.skip(j as int).len() as int)
                            =~= cur.skip(j + 1));
                        j = j + 1;
                    }
                    proof {
                        start = start + n + 2;
                    }
                },
                Err(e) => {
                    assert(done + Seq::<ReceivedModel>::empty() =~= done);
                    err = Some(ReceiveError::Unparsable(e));
                    break;
                },
            }
        }
        (items, err)
    }
}

/// Processing stops only where no complete frame is left, unless an error
/// closes the connection.
pub proof fn lemma_process_leaves_no_complete_frame(b: Seq<u8>)
    ensures
        spec_process(b).2 is None ==> !has_complete_frame(spec_process(b).1),
    decreases b.len(),
{
    if has_complete_frame(b) {
        let size = declared_size(b);
        if size != 0 && size <= BUF_SIZE {
            let body = b.subrange(2, size as int + 2);
            if spec_decode(body) is Ok {
                crate::data::lemma_decode_ignores_trailing_bytes(body, Seq::empty());
                let n = spec_decode(body)->Ok_0.1;
                lemma_process_leaves_no_complete_frame(b.skip(n as int + 2));
            }
        }
    }
}

/// A frame whose payload is exactly one message is delivered as that
/// message, and the stream goes on right after the frame.
pub proof fn lemma_frame_delivered(payload: Seq<u8>, d: DataModel, tail: Seq<u8>)
    requires
        1 <= payload.len() <= BUF_SIZE,
        spec_decode(payload) == Ok::<(DataModel, nat), DecodeError>((d, payload.len())),
    ensures
        ({
            let all = spec_process(client_frame(payload) + tail);
            let rest = spec_process(tail);
            &&& all.0 == seq![route_received(d)] + rest.0
            &&& all.1 == rest.1
            &&& all.2 == rest.2
        }),
{
    let b = client_frame(payload) + tail;
    let len = payload.len() as u16;
    crate::codec::lemma_le_u16_roundtrip(len);
    assert(b[0] == le_u16(len)[0] && b[1] == le_u16(len)[1]);
    assert(declared_size(b) == payload.len());
    assert(b.subrange(2, payload.len() as int + 2) =~= payload);
    assert(b.skip(payload.len() as int + 2) =~= tail);
}

/// A chat message framed by a client reaches the server intact.
pub proof fn lemma_chat_frame_delivered(m: Seq<char>, tail: Seq<u8>)
    requires
        1 <= spec_encode(DataModel::Chat(m)).len() <= BUF_SIZE,
    ensures
        ({
            let all = spec_process(client_frame(spec_encode(DataModel::Chat(m))) + tail);
            let rest = spec_process(tail);
            &&& all.0 == seq![ReceivedModel::Data(DataModel::Chat(m))] + rest.0
            &&& all.1 == rest.1
            &&& all.2 == rest.2
        }),
{
    let p = spec_encode(DataModel::Chat(m));
    crate::data::lemma_chat_roundtrip(m, Seq::empty());
    assert(p + Seq::<u8>::empty() =~= p);
    lemma_frame_delivered(p, DataModel::Chat(m), tail);
}

/// What processing leaves over is the end of its input.
pub proof fn lemma_process_rest_is_suffix(b: Seq<u8>)
    ensures
        spec_process(b).1.len() <= b.len(),
        spec_process(b).1 == b.skip(b.len() - spec_process(b).1.len()),
    decreases b.len(),
{
    if has_complete_frame(b) {
        let size = declared_size(b);
        if size != 0 && size <= BUF_SIZE {
            let body = b.subrange(2, size as int + 2);
            if spec_decode(body) is Ok {
                crate::data::lemma_decode_ignores_trailing_bytes(body, Seq::empty());
                let n = spec_decode(body)->Ok_0.1;
                let t = b.skip(n as int + 2);
                lemma_process_rest_is_suffix(t);
                let r = spec_process(t).1;
                assert(t.skip(t.len() - r.len()) =~= b.skip(b.len() - r.len()));
            } else {
                assert(b.skip(0) =~= b);
            }
        } else {
            assert(b.skip(0) =~= b);
        }
    } else {
        assert(b.skip(0) =~= b);
    }
}

/// Processing more bytes after a stretch that ended without error gives
/// the messages of that stretch, then those of what it left over followed
/// by the new bytes.
pub proof fn lemma_process_append(b: Seq<u8>, c: Seq<u8>)
    requires
        spec_process(b).2 is None,
    ensures
        ({
            let (m1, r1, _) = spec_process(b);
            let (m2, r2, e2) = spec_process(r1 + c);
            spec_process(b + c) == (m1 + m2, r2, e2)
        }),
    decreases b.len(),
{
    let bc = b + c;
    if !has_complete_frame(b) {
        assert(seq![] + spec_process(bc).0 =~= spec_process(bc).0);
    } else {
        let size = declared_size(b);
        assert(bc[0] == b[0] && bc[1] == b[1]);
        assert(declared_size(bc) == size);
        let body = b.subrange(2, size as int + 2);
        assert(bc.subrange(2, size as int + 2) =~= body);
        crate::data::lemma_decode_ignores_trailing_bytes(body, Seq::empty());
        let n = spec_decode(body)->Ok_0.1;
        let t = b.skip(n as int + 2);
        assert(bc.skip(n as int + 2) =~= t + c);
        lemma_process_append(t, c);
        let (m1, r1, _) = spec_process(b);
        let (m2, r2, e2) = spec_process(r1 + c);
        let d = spec_decode(body)->Ok_0.0;
        assert(seq![route_received(d)] + spec_process(t).0 + m2 =~= seq![route_received(d)] + (
        spec_process(t).0 + m2));
    }
}

/// However a stream is cut into chunks, the same messages come out in the
/// same order: feeding two chunks one after the other gives what feeding
/// them joined gives, as long as the first raises no error and the bytes
/// stay within `RING_SIZE`.
pub proof fn lemma_feed_split(pending: Seq<u8>, c1: Seq<u8>, c2: Seq<u8>)
    requires
        spec_feed(pending, c1).2 is None,
        (pending + c1 + c2).len() <= RING_SIZE,
    ensures
        ({
            let (m1, r1, _) = spec_feed(pending, c1);
            let (m2, r2, e2) = spec_feed(r1, c2);
            spec_feed(pending, c1 + c2) == (m1 + m2, r2, e2)
        }),
{
    let b = pending + c1;
    lemma_process_rest_is_suffix(b);
    assert(pending + (c1 + c2) =~= b + c2);
    lemma_process_append(b, c2);
}

/// The bytes of successive chunks, one after the other.
pub open spec fn joined(chunks: Seq<Seq<u8>>) -> Seq<u8>
    decreases chunks.len(),
{
    if chunks.len() == 0 {
        seq![]
    } else {
        joined(chunks.drop_last()) + chunks.last()
    }
}

/// What a receiver holding `pending` gives when fed `chunks` one after the
/// other, stopping at the first error, which closes the connection: the
/// messages of all the feeds in order, the bytes left, and the error.
pub open spec fn spec_feed_all(pending: Seq<u8>, chunks: Seq<Seq<u8>>) -> (
    Seq<ReceivedModel>,
    Seq<u8>,
    Option<ReceiveError>,
)
    decreases chunks.len(),
{
    if chunks.len() == 0 {
        (seq![], pending, None)
    } else {
        let (m, r, e) = spec_feed_all(pending, chunks.drop_last());
        if e is Some {
            (m, r, e)
        } else {
            let (m2, r2, e2) = spec_feed(r, chunks.last());
            (m + m2, r2, e2)
        }
    }
}

/// Once processing meets an error, bytes after it change neither the
/// messages before the error nor the error.
pub proof fn lemma_process_error_stays(b: Seq<u8>, c: Seq<u8>)
    requires
        spec_process(b).2 is Some,
    ensures
        spec_process(b + c).0 == spec_process(b).0,
        spec_process(b + c).2 == spec_process(b).2,
    decreases b.len(),
{
    let bc = b + c;
    let size = declared_size(b);
    assert(bc[0] == b[0] && bc[1] == b[1]);
    assert(declared_size(bc) == size);
    if size != 0 && size <= BUF_SIZE {
        let body = b.subrange(2, size as int + 2);
        assert(bc.subrange(2, size as int + 2) =~= body);
        if spec_decode(body) is Ok {
            crate::data::lemma_decode_ignores_trailing_bytes(body, Seq::empty());
            let n = spec_decode(body)->Ok_0.1;
            let t = b.skip(n as int + 2);
            assert(bc.skip(n as int + 2) =~= t + c);
            lemma_process_error_stays(t, c);
        }
    }
}

/// However a stream is cut into reads, the same messages come out, in the
/// same order, with the same error: feeding the chunks one after the other
/// gives what decoding all their bytes at once gives, and without an error
/// the same bytes are left. This holds whenever no feed overflows the
/// buffer, starting from bytes that hold no complete frame (as a new
/// receiver, and every receiver after a feed without error, does).
pub proof fn lemma_feed_any_split(pending: Seq<u8>, chunks: Seq<Seq<u8>>)
    requires
        !has_complete_frame(pending),
        spec_feed_all(pending, chunks).2 != Some(ReceiveError::RingOverflow),
    ensures
        ({
            let all = spec_feed_all(pending, chunks);
            let once = spec_process(pending + joined(chunks));
            &&& all.0 == once.0
            &&& all.2 == once.2
            &&& all.2 is None ==> all.1 == once.1
        }),
    decreases chunks.len(),
{
    if chunks.len() == 0 {
        assert(pending + joined(chunks) =~= pending);
    } else {
        let init = chunks.drop_last();
        let last = chunks.last();
        let (m, r, e) = spec_feed_all(pending, init);
        lemma_feed_any_split(pending, init);
        let b = pending + joined(init);
        assert(pending + joined(chunks) =~= b + last);
        if e is Some {
            lemma_process_error_stays(b, last);
        } else {
            lemma_process_append(b, last);
        }
    }
}

} // verus!
