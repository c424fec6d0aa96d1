//! The fixed 21-byte packet header and its byte layout.
use vstd::prelude::*;
use crate::endian::{le_bytes, le_value, lemma_le_bytes_len, lemma_le_round_trip, lemma_span_values, push_le, read_le};
use crate::error::PacketError;

verus! {

/// Number of bytes in an encoded header.
pub const HEADER_LEN: usize = 21;

/// Metadata that precedes a payload on the wire.
#[derive(Clone, Copy, Debug, PartialEq, Eq, Structural)]
pub struct PacketHeader {
    /// Application-defined message kind.
    pub message_type: u8,
    /// Sequence number of the packet.
    pub sequence: u32,
    /// Opaque identifier of the sender.
    pub player_id: u64,
    /// Number of payload bytes that follow the header.
    pub payload_size: u32,
    /// Checksum over the payload bytes.
    pub checksum: u32,
}

/// The 21 bytes of a header: message type, then sequence, sender, payload size
/// and checksum, each least significant byte first.
pub open spec fn header_bytes(h: PacketHeader) -> Seq<u8> {
    seq![h.message_type] + le_bytes(h.sequence as nat, 4) + le_bytes(h.player_id as nat, 8)
        + le_bytes(h.payload_size as nat, 4) + le_bytes(h.checksum as nat, 4)
}

/// The header read from the first 21 bytes of `b`.
pub open spec fn header_of(b: Seq<u8>) -> PacketHeader
    recommends
        b.len() >= 21,
{
    PacketHeader {
        message_type: b[0],
        sequence: le_value(b.subrange(1, 5)) as u32,
        player_id: le_value(b.subrange(5, 13)) as u64,
        payload_size: le_value(b.subrange(13, 17)) as u32,
        checksum: le_value(b.subrange(17, 21)) as u32,
    }
}

/// Decoding a header: it fails exactly when fewer than 21 bytes are given;
/// bytes after the first 21 are not read.
pub open spec fn decode_header(b: Seq<u8>) -> Result<PacketHeader, PacketError> {
    if b.len() < 21 {
        Err(PacketError::InsufficientBytes)
    } else {
        Ok(header_of(b))
    }
}

pub proof fn lemma_header_bytes_len(h: PacketHeader)
    ensures
        header_bytes(h).len() == 21,
{
    lemma_le_bytes_len(h.sequence as nat, 4);
    lemma_le_bytes_len(h.player_id as nat, 8);
    lemma_le_bytes_len(h.payload_size as nat, 4);
    lemma_le_bytes_len(h.checksum as nat, 4);
}

/// Decoding the encoding of any header, with or without bytes after it, gives
/// that header back.
pub proof fn lemma_header_round_trip(h: PacketHeader, rest: Seq<u8>)
    ensures
        decode_header(header_bytes(h)) == Ok::<PacketHeader, PacketError>(h),
        decode_header(header_bytes(h) + rest) == Ok::<PacketHeader, PacketError>(h),
{
    lemma_span_values();
    lemma_header_bytes_len(h);
    let b1 = le_bytes(h.sequence as nat, 4);
    let b2 = le_bytes(h.player_id as nat, 8);
    let b3 = le_bytes(h.payload_size as nat, 4);
    let b4 = le_bytes(h.checksum as nat, 4);
    lemma_le_bytes_len(h.sequence as nat, 4);
    lemma_le_bytes_len(h.player_id as nat, 8);
    lemma_le_bytes_len(h.payload_size as nat, 4);
    lemma_le_bytes_len(h.checksum as nat, 4);
    lemma_le_round_trip(h.sequence as nat, 4);
    lemma_le_round_trip(h.player_id as nat, 8);
    lemma_le_round_trip(h.payload_size as nat, 4);
    lemma_le_round_trip(h.checksum as nat, 4);
    let e = header_bytes(h);
    let f = header_bytes(h) + rest;
    assert(e.subrange(1, 5) =~= b1);
    assert(e.subrange(5, 13) =~= b2);
    assert(e.subrange(13, 17) =~= b3);
    assert(e.subrange(17, 21) =~= b4);
    assert(f.subrange(0, 21) =~= e);
    assert(f.subrange(1, 5) =~= b1);
    assert(f.subrange(5, 13) =~= b2);
    assert(f.subrange(13, 17) =~= b3);
    assert(f.subrange(17, 21) =~= b4);
    assert(header_of(e) == h);
    assert(header_of(f) == h);
}

impl PacketHeader {
    /// Encodes the header into its 21 bytes.
    pub fn to_bytes(&self) -> (r: Vec<u8>)
        ensures
            r@ == header_bytes(*self),
            r@.len() == HEADER_LEN,
    {
        proof {
            lemma_span_values();
            lemma_header_bytes_len(*self);
        }
        let mut buffer: Vec<u8> = Vec::new();
        buffer.push(self.message_type);
        push_le(&mut buffer, self.sequence as u64, 4);
        push_le(&mut buffer, self.player_id, 8);
        push_le(&mut buffer, self.payload_size as u64, 4);
        push_le(&mut buffer, self.checksum as u64, 4);
        assert(buffer@ =~= header_bytes(*self));
        buffer
    }

    /// Decodes a header from the first 21 bytes of `bytes`; fails with
    /// `InsufficientBytes` when there are fewer.
    pub fn from_bytes(bytes: &[u8]) -> (r: Result<Self, PacketError>)
        ensures
            r == decode_header(bytes@),
            bytes@.len() < HEADER_LEN <==> r == Err::<Self, PacketError>(PacketError::InsufficientBytes),
            bytes@.len() >= HEADER_LEN <==> r is Ok,
    {
        if bytes.len() < HEADER_LEN {
            return Err(PacketError::InsufficientBytes);
        }
        proof {
            lemma_span_values();
        }
        let message_type: u8 = bytes[0];
        let sequence: u32 = read_le(bytes, 1, 4) as u32;
        let player_id: u64 = read_le(bytes, 5, 8);
        let payload_size: u32 = read_le(bytes, 13, 4) as u32;
        let checksum: u32 = read_le(bytes, 17, 4) as u32;
        Ok(PacketHeader { message_type, sequence, player_id, payload_size, checksum })
    }
}

} // verus!
