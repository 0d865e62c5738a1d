//! Byte-level encodings of the primitive values carried by the wire format:
//! fixed-width little-endian integers and length-prefixed UTF-8 strings, as
//! bincode writes them under its legacy configuration, and the 16-bit frame
//! length that byteorder reads and writes.

use vstd::prelude::*;
use vstd::utf8::*;
use vstd::string::*;

verus! {

/// Why a byte sequence could not be decoded.
#[derive(Debug, Clone, Copy, PartialEq, Eq, Structural)]
pub enum DecodeError {
    /// The input ended before the value was complete.
    UnexpectedEnd,
    /// A variant tag that the type does not have.
    UnexpectedVariant { found: u32 },
    /// The bytes of a string are not valid UTF-8.
    Utf8,
    /// Any other failure of the underlying decoder.
    Other,
}

/// The two bytes of `v`, least significant first.
pub open spec fn le_u16(v: u16) -> Seq<u8> {
    seq![(v & 0xff) as u8, ((v >> 8u16) & 0xff) as u8]
}

/// The four bytes of `v`, least significant first.
pub open spec fn le_u32(v: u32) -> Seq<u8> {
    seq![
        (v & 0xff) as u8,
        ((v >> 8u32) & 0xff) as u8,
        ((v >> 16u32) & 0xff) as u8,
        ((v >> 24u32) & 0xff) as u8,
    ]
}

/// The eight bytes of `v`, least significant first.
pub open spec fn le_u64(v: u64) -> Seq<u8> {
    seq![
        (v & 0xff) as u8,
        ((v >> 8u64) & 0xff) as u8,
        ((v >> 16u64) & 0xff) as u8,
        ((v >> 24u64) & 0xff) as u8,
        ((v >> 32u64) & 0xff) as u8,
        ((v >> 40u64) & 0xff) as u8,
        ((v >> 48u64) & 0xff) as u8,
        ((v >> 56u64) & 0xff) as u8,
    ]
}

/// The 16-bit value whose little-endian bytes are `b0`, `b1`.
pub open spec fn u16_from_le(b0: u8, b1: u8) -> u16 {
    ((b0 as u16) | ((b1 as u16) << 8u16)) as u16
}

/// The 64-bit value whose little-endian bytes are the first eight of `b`.
pub open spec fn u64_from_le(b: Seq<u8>) -> u64
    recommends
        b.len() >= 8,
{
    ((b[0] as u64) | ((b[1] as u64) << 8u64) | ((b[2] as u64) << 16u64) | ((b[3] as u64) << 24u64)
        | ((b[4] as u64) << 32u64) | ((b[5] as u64) << 40u64) | ((b[6] as u64) << 48u64) | ((
    b[7] as u64) << 56u64)) as u64
}

/// A string as bincode's legacy configuration writes it: its UTF-8 byte
/// length as a little-endian `u64`, then the UTF-8 bytes.
pub open spec fn string_bytes(s: Seq<char>) -> Seq<u8> {
    le_u64(encode_utf8(s).len() as u64) + encode_utf8(s)
}

/// What bincode's legacy decoding of a `String` gives for `b`: the text and
/// the number of bytes it read, or why it failed.
pub open spec fn spec_decode_string(b: Seq<u8>) -> Result<(Seq<char>, nat), DecodeError> {
    if b.len() < 8 {
        Err(DecodeError::UnexpectedEnd)
    } else {
        let n = u64_from_le(b);
        if n > b.len() - 8 {
            Err(DecodeError::UnexpectedEnd)
        } else {
            let text = b.subrange(8, 8 + n);
            if valid_utf8(text) {
                Ok((decode_utf8(text), (8 + n) as nat))
            } else {
                Err(DecodeError::Utf8)
            }
        }
    }
}

/// Reading back the little-endian bytes of a 16-bit value gives the value.
pub proof fn lemma_le_u16_roundtrip(v: u16)
    ensures
        u16_from_le(le_u16(v)[0], le_u16(v)[1]) == v,
{
    let b0 = (v & 0xff) as u8;
    let b1 = ((v >> 8u16) & 0xff) as u8;
    assert(((b0 as u16) | ((b1 as u16) << 8u16)) == v) by (bit_vector)
        requires
            b0 == (v & 0xff) as u8,
            b1 == ((v >> 8u16) & 0xff) as u8,
    ;
}

/// Reading back the little-endian bytes of a 64-bit value gives the value.
pub proof fn lemma_le_u64_roundtrip(v: u64)
    ensures
        u64_from_le(le_u64(v)) == v,
{
    let b = le_u64(v);
    let b0 = (v & 0xff) as u8;
    let b1 = ((v >> 8u64) & 0xff) as u8;
    let b2 = ((v >> 16u64) & 0xff) as u8;
    let b3 = ((v >> 24u64) & 0xff) as u8;
    let b4 = ((v >> 32u64) & 0xff) as u8;
    let b5 = ((v >> 40u64) & 0xff) as u8;
    let b6 = ((v >> 48u64) & 0xff) as u8;
    let b7 = ((v >> 56u64) & 0xff) as u8;
    assert(b[0] == b0 && b[1] == b1 && b[2] == b2 && b[3] == b3 && b[4] == b4 && b[5] == b5
        && b[6] == b6 && b[7] == b7);
    assert(((b0 as u64) | ((b1 as u64) << 8u64) | ((b2 as u64) << 16u64) | ((b3 as u64) << 24u64)
        | ((b4 as u64) << 32u64) | ((b5 as u64) << 40u64) | ((b6 as u64) << 48u64) | ((b7 as u64)
        << 56u64)) == v) by (bit_vector)
        requires
            b0 == (v & 0xff) as u8,
            b1 == ((v >> 8u64) & 0xff) as u8,
            b2 == ((v >> 16u64) & 0xff) as u8,
            b3 == ((v >> 24u64) & 0xff) as u8,
            b4 == ((v >> 32u64) & 0xff) as u8,
            b5 == ((v >> 40u64) & 0xff) as u8,
            b6 == ((v >> 48u64) & 0xff) as u8,
            b7 == ((v >> 56u64) & 0xff) as u8,
    ;
}

/// Decoding the encoding of a string gives the string back, and reads
/// exactly the bytes of the encoding.
pub proof fn lemma_string_roundtrip(s: Seq<char>, rest: Seq<u8>)
    requires
        encode_utf8(s).len() <= u64::MAX,
    ensures
        spec_decode_string(string_bytes(s) + rest) == Ok::<(Seq<char>, nat), DecodeError>(
            (s, string_bytes(s).len()),
        ),
{
    let u = encode_utf8(s);
    let b = string_bytes(s) + rest;
    lemma_le_u64_roundtrip(u.len() as u64);
    assert(b.subrange(0, 8) =~= le_u64(u.len() as u64));
    assert(u64_from_le(b) == u64_from_le(le_u64(u.len() as u64)));
    assert(b.subrange(8, 8 + u.len() as int) =~= u);
    encode_utf8_valid_utf8(s);
    encode_utf8_decode_utf8(s);
}

/// `bincode::encode_to_vec` of a `u8` under the legacy configuration: the
/// single byte. Writing into a vector cannot fail, so the result is unwrapped.
#[verifier::external_body]
pub(crate) fn encode_u8(v: u8) -> (b: Vec<u8>)
    ensures
        b@ == seq![v],
{
    bincode::encode_to_vec(v, bincode::config::legacy()).unwrap()
}

/// `bincode::encode_to_vec` of a `u16` under the legacy configuration: two
/// bytes, little endian (fixed-width integers).
#[verifier::external_body]
pub(crate) fn encode_u16(v: u16) -> (b: Vec<u8>)
    ensures
        b@ == le_u16(v),
{
    bincode::encode_to_vec(v, bincode::config::legacy()).unwrap()
}

/// `bincode::encode_to_vec` of a `u32` under the legacy configuration: four
/// bytes, little endian.
#[verifier::external_body]
pub(crate) fn encode_u32(v: u32) -> (b: Vec<u8>)
    ensures
        b@ == le_u32(v),
{
    bincode::encode_to_vec(v, bincode::config::legacy()).unwrap()
}

/// `bincode::encode_to_vec` of a string under the legacy configuration: the
/// byte length as a little-endian `u64`, then the UTF-8 bytes.
#[verifier::external_body]
pub(crate) fn encode_string(s: &str) -> (b: Vec<u8>)
    ensures
        b@ == string_bytes(s@),
{
    bincode::encode_to_vec(s, bincode::config::legacy()).unwrap()
}

/// `bincode::decode_from_slice` of a `u8` under the legacy configuration:
/// the first byte, one byte read; `UnexpectedEnd` on empty input.
#[verifier::external_body]
pub(crate) fn decode_u8(bytes: &[u8]) -> (r: Result<(u8, usize), DecodeError>)
    ensures
        match r {
            Ok((v, n)) => bytes@.len() >= 1 && v == bytes@[0] && n == 1,
            Err(e) => bytes@.len() < 1 && e == DecodeError::UnexpectedEnd,
        },
{
    match bincode::decode_from_slice::<u8, _>(bytes, bincode::config::legacy()) {
        Ok(p) => Ok(p),
        Err(bincode::error::DecodeError::UnexpectedEnd { .. }) => Err(DecodeError::UnexpectedEnd),
        Err(_) => Err(DecodeError::Other),
    }
}

/// `bincode::decode_from_slice` of a `u16` under the legacy configuration:
/// the first two bytes read little endian; `UnexpectedEnd` when fewer.
#[verifier::external_body]
pub(crate) fn decode_u16(bytes: &[u8]) -> (r: Result<(u16, usize), DecodeError>)
    ensures
        match r {
            Ok((v, n)) => bytes@.len() >= 2 && v == u16_from_le(bytes@[0], bytes@[1]) && n == 2,
            Err(e) => bytes@.len() < 2 && e == DecodeError::UnexpectedEnd,
        },
{
    match bincode::decode_from_slice::<u16, _>(bytes, bincode::config::legacy()) {
        Ok(p) => Ok(p),
        Err(bincode::error::DecodeError::UnexpectedEnd { .. }) => Err(DecodeError::UnexpectedEnd),
        Err(_) => Err(DecodeError::Other),
    }
}

/// `bincode::decode_from_slice` of a `u64` under the legacy configuration:
/// the first eight bytes read little endian; `UnexpectedEnd` when fewer.
#[verifier::external_body]
pub(crate) fn decode_u64(bytes: &[u8]) -> (r: Result<(u64, usize), DecodeError>)
    ensures
        match r {
            Ok((v, n)) => bytes@.len() >= 8 && v == u64_from_le(bytes@) && n == 8,
            Err(e) => bytes@.len() < 8 && e == DecodeError::UnexpectedEnd,
        },
{
    match bincode::decode_from_slice::<u64, _>(bytes, bincode::config::legacy()) {
        Ok(p) => Ok(p),
        Err(bincode::error::DecodeError::UnexpectedEnd { .. }) => Err(DecodeError::UnexpectedEnd),
        Err(_) => Err(DecodeError::Other),
    }
}

/// `bincode::decode_from_slice` of a `String` under the legacy configuration.
/// bincode allocates the declared number of bytes before reading them, so the
/// declared length must not exceed what the input holds (a larger one would
/// make the allocation itself fail); under that condition the result is
/// `spec_decode_string`.
#[verifier::external_body]
pub(crate) fn decode_string(bytes: &[u8]) -> (r: Result<(String, usize), DecodeError>)
    requires
        bytes@.len() >= 8 ==> u64_from_le(bytes@) <= bytes@.len() - 8,
    ensures
        match r {
            Ok((s, n)) => spec_decode_string(bytes@) == Ok::<(Seq<char>, nat), DecodeError>(
                (s@, n as nat),
            ),
            Err(e) => spec_decode_string(bytes@) == Err::<(Seq<char>, nat), DecodeError>(e),
        },
{
    match bincode::decode_from_slice::<String, _>(bytes, bincode::config::legacy()) {
        Ok(p) => Ok(p),
        Err(bincode::error::DecodeError::UnexpectedEnd { .. }) => Err(DecodeError::UnexpectedEnd),
        Err(bincode::error::DecodeError::Utf8 { .. }) => Err(DecodeError::Utf8),
        Err(_) => Err(DecodeError::Other),
    }
}

/// `byteorder::LittleEndian::read_u16`: the first two bytes, little endian.
#[verifier::external_body]
pub(crate) fn read_u16_le(buf: &[u8]) -> (v: u16)
    requires
        buf@.len() >= 2,
    ensures
        v == u16_from_le(buf@[0], buf@[1]),
{
    <byteorder::LittleEndian as byteorder::ByteOrder>::read_u16(buf)
}

/// `byteorder::LittleEndian::write_u16`: overwrites the first two bytes with
/// the little-endian bytes of `n` and leaves the rest.
#[verifier::external_body]
pub(crate) fn write_u16_le(buf: &mut [u8], n: u16)
    requires
        old(buf)@.len() >= 2,
    ensures
        final(buf)@ == le_u16(n) + old(buf)@.skip(2),
{
    <byteorder::LittleEndian as byteorder::ByteOrder>::write_u16(buf, n)
}

} // verus!
