//! A header paired with its payload: construction, encoding and decoding.
use vstd::prelude::*;
use crate::checksum::{byte_sum, checksum_of};
use crate::error::PacketError;
use crate::header::{
    decode_header, header_bytes, header_of, lemma_header_bytes_len, lemma_header_round_trip,
    PacketHeader, HEADER_LEN,
};

verus! {

/// A header followed by its payload bytes.
#[derive(Clone, Debug)]
pub struct Packet {
    /// The packet's header.
    pub header: PacketHeader,
    /// The bytes that follow the header.
    pub payload: Vec<u8>,
}

impl View for Packet {
    type V = (PacketHeader, Seq<u8>);

    open spec fn view(&self) -> (PacketHeader, Seq<u8>) {
        (self.header, self.payload@)
    }
}

/// The header that `Packet::new` builds for a payload: its length and checksum
/// are taken from the payload.
pub open spec fn new_header(message_type: u8, sequence: u32, player_id: u64, payload: Seq<u8>) -> PacketHeader {
    PacketHeader {
        message_type,
        sequence,
        player_id,
        payload_size: payload.len() as u32,
        checksum: checksum_of(payload),
    }
}

/// The wire form of a packet: the header's 21 bytes, then the payload.
pub open spec fn packet_bytes(h: PacketHeader, payload: Seq<u8>) -> Seq<u8> {
    header_bytes(h) + payload
}

/// Decoding a packet: too short for a header is `InsufficientBytes`; a header
/// whose payload size differs from the number of bytes after it is
/// `PayloadSizeMismatch`; otherwise the header and the rest of the bytes.
/// The checksum is not compared.
pub open spec fn decode_packet(b: Seq<u8>) -> Result<(PacketHeader, Seq<u8>), PacketError> {
    if b.len() < 21 {
        Err(PacketError::InsufficientBytes)
    } else if b.len() - 21 != header_of(b).payload_size {
        Err(PacketError::PayloadSizeMismatch)
    } else {
        Ok((header_of(b), b.subrange(21, b.len() as int)))
    }
}

/// Decoding the wire form of a header and a payload whose length it declares
/// gives both back.
pub proof fn lemma_packet_round_trip(h: PacketHeader, payload: Seq<u8>)
    requires
        h.payload_size == payload.len(),
    ensures
        decode_packet(packet_bytes(h, payload)) == Ok::<(PacketHeader, Seq<u8>), PacketError>((h, payload)),
{
    lemma_header_round_trip(h, payload);
    lemma_header_bytes_len(h);
    let b = packet_bytes(h, payload);
    assert(decode_header(b) == Ok::<PacketHeader, PacketError>(header_of(b)));
    assert(b.subrange(21, b.len() as int) =~= payload);
}

/// A packet built from any message type, sequence, sender and payload that
/// fits the size field decodes, after encoding, to the same fields and payload.
pub proof fn lemma_new_round_trip(message_type: u8, sequence: u32, player_id: u64, payload: Seq<u8>)
    requires
        payload.len() <= u32::MAX,
    ensures
        ({
            let h = new_header(message_type, sequence, player_id, payload);
            &&& decode_packet(packet_bytes(h, payload)) == Ok::<(PacketHeader, Seq<u8>), PacketError>((h, payload))
            &&& h.message_type == message_type
            &&& h.sequence == sequence
            &&& h.player_id == player_id
        }),
{
    lemma_packet_round_trip(new_header(message_type, sequence, player_id, payload), payload);
}

/// Cutting bytes off the payload of a correctly encoded packet makes decoding
/// fail with `PayloadSizeMismatch`.
pub proof fn lemma_truncated_payload_mismatch(h: PacketHeader, payload: Seq<u8>, cut: int)
    requires
        h.payload_size == payload.len(),
        21 <= cut < 21 + payload.len(),
    ensures
        decode_packet(packet_bytes(h, payload).subrange(0, cut)) == Err::<(PacketHeader, Seq<u8>), PacketError>(
            PacketError::PayloadSizeMismatch,
        ),
{
    let kept = payload.subrange(0, cut - 21);
    lemma_header_round_trip(h, kept);
    lemma_header_bytes_len(h);
    assert(packet_bytes(h, payload).subrange(0, cut) =~= header_bytes(h) + kept);
}

/// Adding bytes after a correctly encoded packet makes decoding fail with
/// `PayloadSizeMismatch`.
pub proof fn lemma_padded_payload_mismatch(h: PacketHeader, payload: Seq<u8>, extra: Seq<u8>)
    requires
        h.payload_size == payload.len(),
        extra.len() > 0,
    ensures
        decode_packet(packet_bytes(h, payload) + extra) == Err::<(PacketHeader, Seq<u8>), PacketError>(
            PacketError::PayloadSizeMismatch,
        ),
{
    lemma_header_round_trip(h, payload + extra);
    lemma_header_bytes_len(h);
    assert(packet_bytes(h, payload) + extra =~= header_bytes(h) + (payload + extra));
}

impl Packet {
    /// A packet is well formed when its header declares its payload's length.
    pub open spec fn wf(&self) -> bool {
        self.header.payload_size == self.payload@.len()
    }

    /// Encodes the packet: the header's 21 bytes followed by the payload.
    pub fn to_bytes(&self) -> (r: Vec<u8>)
        ensures
            r@ == packet_bytes(self.header, self.payload@),
    {
        let mut buffer: Vec<u8> = self.header.to_bytes();
        let ghost head = buffer@;
        let n: usize = self.payload.len();
        let mut i: usize = 0;
        while i < n
            invariant
                n == self.payload@.len(),
                i <= n,
                buffer@ == head + self.payload@.subrange(0, i as int),
            decreases n - i,
        {
            buffer.push(self.payload[i]);
            i = i + 1;
            assert(buffer@ =~= head + self.payload@.subrange(0, i as int));
        }
        assert(self.payload@.subrange(0, n as int) =~= self.payload@);
        buffer
    }

    /// Decodes a packet; the payload size in the header must equal the number
    /// of bytes after it. The checksum is carried over as it was read.
    pub fn from_bytes(bytes: &[u8]) -> (r: Result<Self, PacketError>)
        ensures
            match r {
                Ok(p) => decode_packet(bytes@) == Ok::<(PacketHeader, Seq<u8>), PacketError>(p@),
                Err(e) => decode_packet(bytes@) == Err::<(PacketHeader, Seq<u8>), PacketError>(e),
            },
            r is Ok ==> r->Ok_0.wf(),
    {
        let len: usize = bytes.len();
        if len < HEADER_LEN {
            return Err(PacketError::InsufficientBytes);
        }
        let header: PacketHeader = match PacketHeader::from_bytes(bytes) {
            Ok(h) => h,
            Err(e) => return Err(e),
        };
        if len - HEADER_LEN != header.payload_size as usize {
            return Err(PacketError::PayloadSizeMismatch);
        }
        let mut payload: Vec<u8> = Vec::new();
        let mut i: usize = HEADER_LEN;
        while i < len
            invariant
                len == bytes@.len(),
                HEADER_LEN <= i <= len,
                payload@ == bytes@.subrange(21, i as int),
            decreases len - i,
        {
            payload.push(bytes[i]);
            i = i + 1;
            assert(payload@ =~= bytes@.subrange(21, i as int));
        }
        Ok(Packet { header, payload })
    }

    /// The checksum of a payload: the sum of its byte values, wrapping at 2^32.
    pub fn calculate_checksum(payload: &[u8]) -> (r: u32)
        ensures
            r == checksum_of(payload@),
    {
        let n: usize = payload.len();
        let mut sum: u32 = 0;
        let mut i: usize = 0;
        assert(payload@.subrange(0, 0) =~= Seq::<u8>::empty());
        while i < n
            invariant
                n == payload@.len(),
                i <= n,
                sum == checksum_of(payload@.subrange(0, i as int)),
            decreases n - i,
        {
            let b: u8 = payload[i];
            proof {
                let next = payload@.subrange(0, i + 1);
                assert(next.drop_last() =~= payload@.subrange(0, i as int));
                let prev = byte_sum(payload@.subrange(0, i as int)) as int;
                vstd::arithmetic::div_mod::lemma_add_mod_noop(prev, b as int, 0x1_0000_0000);
                vstd::arithmetic::div_mod::lemma_small_mod(b as nat, 0x1_0000_0000);
            }
            sum = ((sum as u64 + b as u64) % 0x1_0000_0000) as u32;
            i = i + 1;
        }
        assert(payload@.subrange(0, n as int) =~= payload@);
        sum
    }

    /// Builds a packet whose header declares the payload's length and checksum.
    pub fn new(message_type: u8, sequence: u32, player_id: u64, payload: Vec<u8>) -> (r: Self)
        requires
            payload@.len() <= u32::MAX,
        ensures
            r.header == new_header(message_type, sequence, player_id, payload@),
            r.payload@ == payload@,
            r.wf(),
    {
        let payload_size: u32 = payload.len() as u32;
        let checksum: u32 = Self::calculate_checksum(payload.as_slice());
        let header = PacketHeader { message_type, sequence, player_id, payload_size, checksum };
        Packet { header, payload }
    }

    /// Whether the header's checksum matches the checksum of the payload.
    pub fn verify_checksum(&self) -> (r: bool)
        ensures
            r == (self.header.checksum == checksum_of(self.payload@)),
    {
        Self::calculate_checksum(self.payload.as_slice()) == self.header.checksum
    }
}

} // verus!
