use packet_scan::{Packet, BIT_MASKS};

fn header_id(packet: &Packet) -> u32 {
    u32::from_be_bytes([packet.0[0], packet.0[1], packet.0[2], packet.0[3]])
}

#[test]
fn byte_count_is_four_kibibytes() {
    assert_eq!(Packet::BYTE_COUNT, 4096);
    assert_eq!(Packet::benign(7).0.len(), Packet::BYTE_COUNT);
}

#[test]
fn benign_carries_id_big_endian_and_zero_payload() {
    let packet = Packet::benign(0x0102_0304);
    assert_eq!(&packet.0[0..4], &[1, 2, 3, 4]);
    assert!(packet.0[4..].iter().all(|b| *b == 0));
}

#[test]
fn suspicious_sets_first_payload_byte() {
    let packet = Packet::suspicious(0xdead_beef);
    assert_eq!(&packet.0[0..4], &[0xde, 0xad, 0xbe, 0xef]);
    assert_eq!(packet.0[4], 1);
    assert!(packet.0[5..].iter().all(|b| *b == 0));
}

#[test]
fn intrusive_also_sets_last_byte() {
    let packet = Packet::intrusive(25565);
    assert_eq!(&packet.0[0..4], &[0, 0, 0x63, 0xdd]);
    assert_eq!(packet.0[4], 1);
    assert_eq!(packet.0[4095], 0x80);
    assert!(packet.0[5..4095].iter().all(|b| *b == 0));
}

#[test]
fn header_round_trips_for_every_kind() {
    for id in [0u32, 1, 255, 256, 65535, 0x00ff_ff00, 0x8000_0000, u32::MAX] {
        assert_eq!(header_id(&Packet::benign(id)), id);
        assert_eq!(header_id(&Packet::suspicious(id)), id);
        assert_eq!(header_id(&Packet::intrusive(id)), id);
    }
}

#[test]
fn bit_masks_are_single_bits_high_to_low() {
    assert_eq!(BIT_MASKS, [0x80, 0x40, 0x20, 0x10, 0x08, 0x04, 0x02, 0x01]);
}
