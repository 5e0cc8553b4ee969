use packet_scan::{PacketKind, Prefilter, Scenario};

#[test]
fn alternating_scenarios_alternate_intrusive_and_benign() {
    for scenario in [
        Scenario::Alternating25565,
        Scenario::Alternating1024LowLoad,
        Scenario::RampMid,
        Scenario::SamAndAlex,
        Scenario::Alternating8192,
        Scenario::Alternating8192Low,
    ] {
        assert_eq!(scenario.kind(0), PacketKind::Intrusive);
        assert_eq!(scenario.kind(1), PacketKind::Benign);
        assert_eq!(scenario.kind(1024), PacketKind::Intrusive);
        let packet = scenario.packet(6);
        assert_eq!(packet.0[3], 6);
        assert_eq!(packet.0[4095], 0x80);
        assert_eq!(scenario.packet(7).0[4], 0);
    }
}

#[test]
fn scenario_lengths() {
    assert_eq!(Scenario::Alternating25565.last_id(), 25565);
    assert_eq!(Scenario::Alternating1024LowLoad.last_id(), 1024);
    assert_eq!(Scenario::RampMid.last_id(), 2048);
    assert_eq!(Scenario::SamAndAlex.last_id(), 25565);
    assert_eq!(Scenario::Alternating8192.last_id(), 8192);
    assert_eq!(Scenario::Alternating8192Low.last_id(), 8192);
    assert_eq!(Scenario::TimeWack.last_id(), 8192);
}

#[test]
fn scenario_delays() {
    assert_eq!(Scenario::Alternating25565.delay_nanos(3), 50);
    assert_eq!(Scenario::Alternating1024LowLoad.delay_nanos(3), 2_000_000);
    assert_eq!(Scenario::RampMid.delay_nanos(1024), 2_000_000);
    assert_eq!(Scenario::RampMid.delay_nanos(1025), 500_000);
    assert_eq!(Scenario::RampMid.delay_nanos(1535), 500_000);
    assert_eq!(Scenario::RampMid.delay_nanos(1536), 2_000_000);
    assert_eq!(Scenario::SamAndAlex.delay_nanos(3), 1_000);
    assert_eq!(Scenario::Alternating8192.delay_nanos(3), 1_000);
    assert_eq!(Scenario::Alternating8192Low.delay_nanos(3), 100_000);
    assert_eq!(Scenario::TimeWack.delay_nanos(31), 1_000);
    assert_eq!(Scenario::TimeWack.delay_nanos(32), 100_000);
    assert_eq!(Scenario::TimeWack.delay_nanos(64), 1_000);
}

#[test]
fn time_wack_runs_of_thirty_two() {
    let s = Scenario::TimeWack;
    assert_eq!(s.kind(0), PacketKind::Intrusive);
    assert_eq!(s.kind(31), PacketKind::Intrusive);
    assert_eq!(s.kind(32), PacketKind::Suspicious);
    assert_eq!(s.kind(33), PacketKind::Benign);
    assert_eq!(s.kind(36), PacketKind::Suspicious);
    assert_eq!(s.kind(63), PacketKind::Benign);
    assert_eq!(s.kind(64), PacketKind::Intrusive);
    assert_eq!(s.packet(36).0[4], 1);
    assert_eq!(s.packet(36).0[4095], 0);
}

#[test]
fn prefilter_flags_all_but_benign_scenario_packets() {
    let s = Scenario::TimeWack;
    for id in 0..200u32 {
        let flagged = Prefilter::cpu_prefilter(&s.packet(id));
        assert_eq!(flagged, s.kind(id) != PacketKind::Benign);
    }
}
