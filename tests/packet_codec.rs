use packet::{Packet, PacketError, PacketHeader, HEADER_LEN};

fn sample_header() -> PacketHeader {
    PacketHeader {
        message_type: 0xAB,
        sequence: 0x0403_0201,
        player_id: 0x1122_3344_5566_7788,
        payload_size: 0xDEAD_BEEF,
        checksum: 0x0000_0100,
    }
}

#[test]
fn new_packet_scenario_a() {
    let packet = Packet::new(1, 42, 12345, vec![1, 2, 3, 4, 5]);
    assert_eq!(packet.header.checksum, 15);
    assert_eq!(packet.header.payload_size, 5);
    assert_eq!(packet.header.message_type, 1);
    assert_eq!(packet.header.sequence, 42);
    assert_eq!(packet.header.player_id, 12345);
    let bytes = packet.to_bytes();
    assert_eq!(bytes.len(), 26);
    assert_eq!(
        bytes,
        vec![1, 42, 0, 0, 0, 0x39, 0x30, 0, 0, 0, 0, 0, 0, 5, 0, 0, 0, 15, 0, 0, 0, 1, 2, 3, 4, 5]
    );
}

#[test]
fn empty_packet_scenario_b() {
    let packet = Packet::new(0, 0, 0, vec![]);
    assert_eq!(packet.header.checksum, 0);
    assert_eq!(packet.header.payload_size, 0);
    let bytes = packet.to_bytes();
    assert_eq!(bytes.len(), 21);
    let decoded = Packet::from_bytes(&bytes).unwrap();
    assert!(decoded.payload.is_empty());
    assert_eq!(decoded.header, packet.header);
}

#[test]
fn twenty_bytes_scenario_c() {
    let bytes = vec![0u8; 20];
    assert_eq!(Packet::from_bytes(&bytes).unwrap_err(), PacketError::InsufficientBytes);
    assert_eq!(PacketHeader::from_bytes(&bytes).unwrap_err(), PacketError::InsufficientBytes);
}

#[test]
fn truncated_payload_scenario_d() {
    let packet = Packet::new(1, 42, 12345, vec![1, 2, 3, 4, 5]);
    let mut bytes = packet.to_bytes();
    bytes.pop();
    assert_eq!(Packet::from_bytes(&bytes).unwrap_err(), PacketError::PayloadSizeMismatch);
}

#[test]
fn padded_payload_is_rejected() {
    let packet = Packet::new(7, 9, 99, vec![10, 20, 30]);
    let mut bytes = packet.to_bytes();
    bytes.push(0);
    assert_eq!(Packet::from_bytes(&bytes).unwrap_err(), PacketError::PayloadSizeMismatch);
}

#[test]
fn header_claiming_a_payload_with_none_after_it_is_rejected() {
    let mut h = sample_header();
    h.payload_size = 1;
    let bytes = h.to_bytes();
    assert_eq!(Packet::from_bytes(&bytes).unwrap_err(), PacketError::PayloadSizeMismatch);
}

#[test]
fn packet_round_trip() {
    let payload: Vec<u8> = (0..=255u8).collect();
    let packet = Packet::new(200, u32::MAX, u64::MAX, payload.clone());
    let decoded = Packet::from_bytes(&packet.to_bytes()).unwrap();
    assert_eq!(decoded.header, packet.header);
    assert_eq!(decoded.header.message_type, 200);
    assert_eq!(decoded.header.sequence, u32::MAX);
    assert_eq!(decoded.header.player_id, u64::MAX);
    assert_eq!(decoded.header.payload_size, 256);
    assert_eq!(decoded.header.checksum, 255 * 256 / 2);
    assert_eq!(decoded.payload, payload);
}

#[test]
fn header_layout_is_little_endian() {
    let bytes = sample_header().to_bytes();
    assert_eq!(bytes.len(), HEADER_LEN);
    assert_eq!(
        bytes,
        vec![
            0xAB, 0x01, 0x02, 0x03, 0x04, 0x88, 0x77, 0x66, 0x55, 0x44, 0x33, 0x22, 0x11, 0xEF, 0xBE,
            0xAD, 0xDE, 0x00, 0x01, 0x00, 0x00
        ]
    );
}

#[test]
fn header_round_trip() {
    let h = sample_header();
    assert_eq!(PacketHeader::from_bytes(&h.to_bytes()).unwrap(), h);
    let zero = PacketHeader { message_type: 0, sequence: 0, player_id: 0, payload_size: 0, checksum: 0 };
    assert_eq!(PacketHeader::from_bytes(&zero.to_bytes()).unwrap(), zero);
}

#[test]
fn header_decode_ignores_trailing_bytes() {
    let h = sample_header();
    let mut bytes = h.to_bytes();
    bytes.extend_from_slice(&[9, 9, 9]);
    assert_eq!(PacketHeader::from_bytes(&bytes).unwrap(), h);
}

#[test]
fn header_decode_of_exactly_21_bytes_succeeds() {
    let bytes = vec![0xFFu8; 21];
    let h = PacketHeader::from_bytes(&bytes).unwrap();
    assert_eq!(h.message_type, 0xFF);
    assert_eq!(h.sequence, u32::MAX);
    assert_eq!(h.player_id, u64::MAX);
    assert_eq!(h.payload_size, u32::MAX);
    assert_eq!(h.checksum, u32::MAX);
}

#[test]
fn header_decode_of_empty_buffer_fails() {
    assert_eq!(PacketHeader::from_bytes(&[]).unwrap_err(), PacketError::InsufficientBytes);
    assert_eq!(Packet::from_bytes(&[]).unwrap_err(), PacketError::InsufficientBytes);
}

#[test]
fn checksum_of_empty_is_zero() {
    assert_eq!(Packet::calculate_checksum(&[]), 0);
}

#[test]
fn checksum_ignores_order() {
    assert_eq!(Packet::calculate_checksum(&[1, 2, 3]), 6);
    assert_eq!(Packet::calculate_checksum(&[3, 2, 1]), 6);
    assert_eq!(Packet::calculate_checksum(&[200, 100, 7, 0]), Packet::calculate_checksum(&[0, 7, 200, 100]));
}

#[test]
fn checksum_wraps_at_two_to_the_32() {
    let payload = vec![255u8; 16_843_010];
    assert_eq!(Packet::calculate_checksum(&payload), 254);
}

#[test]
fn decode_keeps_a_wrong_checksum() {
    let packet = Packet::new(3, 4, 5, vec![1, 1, 1]);
    let mut bytes = packet.to_bytes();
    bytes[17] = 0x7F;
    let decoded = Packet::from_bytes(&bytes).unwrap();
    assert_eq!(decoded.header.checksum, 0x7F);
    assert!(!decoded.verify_checksum());
    assert!(packet.verify_checksum());
}
