//! A fixed-layout binary wire format for point-to-point messages: a 21-byte
//! header followed by a payload, with an additive checksum over the payload.
pub mod checksum;
pub mod endian;
pub mod error;
pub mod header;
pub mod packet;

pub use checksum::{byte_sum, checksum_of, lemma_checksum_order_independent};
pub use endian::{le_bytes, le_value, span};
pub use error::PacketError;
pub use header::{decode_header, header_bytes, header_of, lemma_header_round_trip, PacketHeader, HEADER_LEN};
pub use packet::{
    decode_packet, lemma_new_round_trip, lemma_packet_round_trip, lemma_padded_payload_mismatch,
    lemma_truncated_payload_mismatch, new_header, packet_bytes, Packet,
};
