use packet_scan::{InboxEvent, Packet, Prefilter, Workload, CPU_PARALLEL, GPU_PARALLEL};

fn packet_with(index: usize, value: u8) -> Packet {
    let mut packet = Packet::benign(0);
    packet.0[index] = value;
    packet
}

fn ids(packets: &[Packet]) -> Vec<u32> {
    packets
        .iter()
        .map(|p| u32::from_be_bytes([p.0[0], p.0[1], p.0[2], p.0[3]]))
        .collect()
}

#[test]
fn cpu_prefilter_classifies_kinds() {
    for id in [0u32, 1, 2, 1000, u32::MAX] {
        assert!(!Prefilter::cpu_prefilter(&Packet::benign(id)));
        assert!(Prefilter::cpu_prefilter(&Packet::suspicious(id)));
        assert!(Prefilter::cpu_prefilter(&Packet::intrusive(id)));
    }
}

#[test]
fn cpu_prefilter_scans_bytes_four_to_a_quarter() {
    assert!(!Prefilter::cpu_prefilter(&packet_with(3, 0xff)));
    assert!(Prefilter::cpu_prefilter(&packet_with(4, 0x80)));
    assert!(Prefilter::cpu_prefilter(&packet_with(1023, 0x01)));
    assert!(!Prefilter::cpu_prefilter(&packet_with(1024, 0xff)));
    assert!(!Prefilter::cpu_prefilter(&packet_with(4095, 0x80)));
    for bit in 0..8 {
        assert!(Prefilter::cpu_prefilter(&packet_with(600, 1u8 << bit)));
    }
}

#[test]
fn new_prefilter_runs_until_disconnected_and_drained() {
    let mut prefilter = Prefilter::new();
    assert!(prefilter.is_running());
    assert!(!prefilter.receive(InboxEvent::Empty));
    assert!(prefilter.is_running());
    assert!(prefilter.receive(InboxEvent::Received(Packet::benign(1))));
    assert!(!prefilter.receive(InboxEvent::Disconnected));
    assert!(prefilter.is_running());
    match prefilter.next_workload() {
        Workload::Cpu(batch) => assert_eq!(ids(&batch), vec![1]),
        Workload::Gpu(_) => panic!("a single packet goes to the CPU"),
    }
    assert!(!prefilter.is_running());
}

#[test]
fn small_queue_goes_to_cpu_four_at_a_time() {
    let mut prefilter = Prefilter::new();
    for id in 0..10 {
        assert!(prefilter.receive(InboxEvent::Received(Packet::benign(id))));
    }
    match prefilter.next_workload() {
        Workload::Cpu(batch) => {
            assert_eq!(batch.len(), CPU_PARALLEL);
            assert_eq!(ids(&batch), vec![0, 1, 2, 3]);
        }
        Workload::Gpu(_) => panic!("ten packets stay below the threshold"),
    }
    match prefilter.next_workload() {
        Workload::Cpu(batch) => assert_eq!(ids(&batch), vec![4, 5, 6, 7]),
        Workload::Gpu(_) => panic!("six packets stay below the threshold"),
    }
    match prefilter.next_workload() {
        Workload::Cpu(batch) => assert_eq!(ids(&batch), vec![8, 9]),
        Workload::Gpu(_) => panic!("two packets stay below the threshold"),
    }
    match prefilter.next_workload() {
        Workload::Cpu(batch) => assert!(batch.is_empty()),
        Workload::Gpu(_) => panic!("an empty queue stays below the threshold"),
    }
}

#[test]
fn threshold_sends_full_batches_to_gpu() {
    assert_eq!(Prefilter::THRESHOLD, 256);
    let mut prefilter = Prefilter::new();
    for id in 0..300 {
        prefilter.receive(InboxEvent::Received(Packet::benign(id)));
    }
    match prefilter.next_workload() {
        Workload::Gpu(batch) => {
            assert_eq!(batch.len(), GPU_PARALLEL);
            assert_eq!(ids(&batch), (0..256).collect::<Vec<u32>>());
        }
        Workload::Cpu(_) => panic!("300 packets reach the threshold"),
    }
    match prefilter.next_workload() {
        Workload::Cpu(batch) => assert_eq!(ids(&batch), vec![256, 257, 258, 259]),
        Workload::Gpu(_) => panic!("44 packets stay below the threshold"),
    }
}

#[test]
fn exactly_threshold_goes_to_gpu() {
    let mut prefilter = Prefilter::new();
    for id in 0..256 {
        prefilter.receive(InboxEvent::Received(Packet::benign(id)));
    }
    match prefilter.next_workload() {
        Workload::Gpu(batch) => assert_eq!(batch.len(), 256),
        Workload::Cpu(_) => panic!("256 packets reach the threshold"),
    }
    assert!(prefilter.is_running());
}

#[test]
fn cpu_scan_keeps_flagged_packets_in_order() {
    let workload = vec![
        Packet::benign(1),
        Packet::suspicious(2),
        Packet::benign(3),
        Packet::intrusive(4),
    ];
    assert_eq!(ids(&Prefilter::cpu_scan(workload)), vec![2, 4]);
    assert!(Prefilter::cpu_scan(vec![Packet::benign(5), Packet::benign(6)]).is_empty());
    assert!(Prefilter::cpu_scan(Vec::new()).is_empty());
}

#[test]
fn cpu_scan_of_many_packets_preserves_order() {
    let workload: Vec<Packet> = (0..200u32)
        .map(|id| if id % 3 == 0 { Packet::suspicious(id) } else { Packet::benign(id) })
        .collect();
    let expected: Vec<u32> = (0..200u32).filter(|id| id % 3 == 0).collect();
    assert_eq!(ids(&Prefilter::cpu_scan(workload)), expected);
}
