use packet_scan::closing::{flagged_packets, packets_to_bytes, readback_flags};
use packet_scan::Packet;

#[test]
fn readback_reads_low_byte_of_each_word() {
    let data = [1u8, 0, 0, 0, 0, 0, 0, 0, 0, 1, 0, 0, 7, 9, 9, 9, 5, 5];
    assert_eq!(readback_flags(&data), vec![true, false, false, true]);
    assert!(readback_flags(&[]).is_empty());
    assert!(readback_flags(&[1, 1, 1]).is_empty());
}

#[test]
fn flagged_packets_follow_verdicts() {
    let packets = [Packet::benign(10), Packet::benign(11), Packet::benign(12)];
    let hits = flagged_packets(&packets, &[false, true, true, true, false]);
    assert_eq!(hits.len(), 2);
    assert_eq!(hits[0].0[3], 11);
    assert_eq!(hits[1].0[3], 12);
    assert!(flagged_packets(&packets, &[false; 256]).is_empty());
    assert_eq!(flagged_packets(&packets, &[true; 3]).len(), 3);
}

#[test]
fn packets_to_bytes_concatenates() {
    let packets = [Packet::benign(1), Packet::intrusive(2)];
    let bytes = packets_to_bytes(&packets);
    assert_eq!(bytes.len(), 2 * Packet::BYTE_COUNT);
    assert_eq!(&bytes[..4096], &packets[0].0[..]);
    assert_eq!(&bytes[4096..], &packets[1].0[..]);
    assert_eq!(bytes[4096 + 4095], 0x80);
    assert!(packets_to_bytes(&[]).is_empty());
}
