use packet_scan::responder::delta_report;
use packet_scan::Packet;

fn with_first_byte(byte: u8) -> Packet {
    Packet::benign((byte as u32) << 24)
}

#[test]
fn report_measures_from_matching_start() {
    let starts = vec![
        (with_first_byte(5), 100u64),
        (with_first_byte(3), 200),
        (with_first_byte(1), 300),
    ];
    let analysed = vec![(with_first_byte(1), 350u64), (with_first_byte(5), 1000)];
    assert_eq!(delta_report(&starts, &analysed), vec![(1u8, 50u64), (5, 900)]);
}

#[test]
fn report_uses_only_the_first_id_byte() {
    let starts = vec![(Packet::benign(7), 10u64), (Packet::intrusive(8), 10)];
    let analysed = vec![(Packet::suspicious(8), 25u64)];
    assert_eq!(delta_report(&starts, &analysed), vec![(0u8, 15u64)]);
}

#[test]
fn empty_analysis_gives_empty_report() {
    let starts = vec![(Packet::benign(1), 1u64)];
    assert!(delta_report(&starts, &[]).is_empty());
}
