use burstshark::burst::Burst;
use burstshark::capture::{CaptureType, Dispatcher};
use burstshark::record::Packet;

const SEC: u64 = 1_000_000_000;

fn ip_packet(time: u64, src: &str, dst: &str, src_port: u16, dst_port: u16, len: u32) -> Packet {
    Packet {
        time,
        src: src.as_bytes().to_vec(),
        dst: dst.as_bytes().to_vec(),
        data_len: len,
        src_port,
        dst_port,
        seq_number: None,
    }
}

fn wlan_packet(time: u64, src: &str, dst: &str, len: u32, seq: u16) -> Packet {
    Packet {
        time,
        src: src.as_bytes().to_vec(),
        dst: dst.as_bytes().to_vec(),
        data_len: len,
        src_port: 0,
        dst_port: 0,
        seq_number: Some(seq),
    }
}

fn check_burst(
    b: &Burst,
    src: &str,
    dst: &str,
    start: u64,
    end: u64,
    num_packets: u16,
    size: u32,
) {
    assert_eq!(b.src, src.as_bytes().to_vec());
    assert_eq!(b.dst, dst.as_bytes().to_vec());
    assert_eq!(b.start, start);
    assert_eq!(b.end, end);
    assert_eq!(b.num_packets, num_packets);
    assert_eq!(b.size, size);
}

#[test]
fn engine_single_burst() {
    let mut d = Dispatcher::new(CaptureType::Ip { aggregate_ports: false }, SEC);
    d.handle_packet(&ip_packet(0, "A", "B", 1, 2, 100));
    d.handle_packet(&ip_packet(3 * SEC / 10, "A", "B", 1, 2, 200));
    d.handle_packet(&ip_packet(6 * SEC / 10, "A", "B", 1, 2, 100));
    d.quiet_elapse(2 * SEC);
    assert_eq!(d.emitted.len(), 1);
    check_burst(&d.emitted[0], "A", "B", 0, 6 * SEC / 10, 3, 400);
    assert_eq!(d.emitted[0].src_port, 1);
    assert_eq!(d.emitted[0].dst_port, 2);
}

#[test]
fn engine_quiet_splits() {
    let mut d = Dispatcher::new(CaptureType::Ip { aggregate_ports: false }, SEC);
    d.handle_packet(&ip_packet(0, "A", "B", 1, 2, 100));
    d.handle_packet(&ip_packet(25 * SEC / 10, "A", "B", 1, 2, 100));
    d.quiet_elapse(5 * SEC);
    assert_eq!(d.emitted.len(), 2);
    check_burst(&d.emitted[0], "A", "B", 0, 0, 1, 100);
    check_burst(&d.emitted[1], "A", "B", 25 * SEC / 10, 25 * SEC / 10, 1, 100);
}

#[test]
fn engine_two_flows_interleaved() {
    let mut d = Dispatcher::new(CaptureType::Ip { aggregate_ports: false }, SEC);
    d.handle_packet(&ip_packet(0, "A", "B", 1, 2, 50));
    d.handle_packet(&ip_packet(SEC / 10, "C", "D", 3, 4, 60));
    d.handle_packet(&ip_packet(2 * SEC / 10, "A", "B", 1, 2, 70));
    d.quiet_elapse(3 * SEC);
    assert_eq!(d.emitted.len(), 2);
    check_burst(&d.emitted[0], "A", "B", 0, 2 * SEC / 10, 2, 120);
    check_burst(&d.emitted[1], "C", "D", SEC / 10, SEC / 10, 1, 60);
}

#[test]
fn engine_wlan_retransmit() {
    let mode = CaptureType::Wlan { no_estimation: false, max_deviation: 50 };
    let mut d = Dispatcher::new(mode, SEC);
    d.handle_packet(&wlan_packet(0, "X", "Y", 100, 10));
    d.handle_packet(&wlan_packet(SEC / 10, "X", "Y", 100, 11));
    d.handle_packet(&wlan_packet(2 * SEC / 10, "X", "Y", 100, 10));
    d.quiet_elapse(2 * SEC);
    assert_eq!(d.emitted.len(), 1);
    // The retransmitted frame extends the end only.
    check_burst(&d.emitted[0], "X", "Y", 0, 2 * SEC / 10, 2, 200);
}

#[test]
fn engine_wlan_loss_estimation() {
    // Two lost frames between seq 10 and seq 13, priced at the mean of
    // the observed payloads: count += 2, size += 2 * (100 + 200) / 2.
    let mode = CaptureType::Wlan { no_estimation: false, max_deviation: 50 };
    let mut d = Dispatcher::new(mode, SEC);
    d.handle_packet(&wlan_packet(0, "X", "Y", 100, 10));
    d.handle_packet(&wlan_packet(SEC / 10, "X", "Y", 200, 13));
    d.quiet_elapse(2 * SEC);
    assert_eq!(d.emitted.len(), 1);
    check_burst(&d.emitted[0], "X", "Y", 0, SEC / 10, 3, 400);
}

#[test]
fn engine_wlan_loss_no_estimation() {
    let mode = CaptureType::Wlan { no_estimation: true, max_deviation: 50 };
    let mut d = Dispatcher::new(mode, SEC);
    d.handle_packet(&wlan_packet(0, "X", "Y", 100, 10));
    d.handle_packet(&wlan_packet(SEC / 10, "X", "Y", 200, 13));
    d.quiet_elapse(2 * SEC);
    assert_eq!(d.emitted.len(), 1);
    check_burst(&d.emitted[0], "X", "Y", 0, SEC / 10, 2, 300);
}

#[test]
fn engine_port_aggregation() {
    // Aggregation off: the two port pairs are distinct flows.
    let mut d_off = Dispatcher::new(CaptureType::Ip { aggregate_ports: false }, SEC);
    d_off.handle_packet(&ip_packet(0, "A", "B", 1, 2, 100));
    d_off.handle_packet(&ip_packet(SEC / 10, "A", "B", 9, 2, 100));
    d_off.quiet_elapse(3 * SEC);
    assert_eq!(d_off.emitted.len(), 2);

    // Aggregation on: the parser collapses ports to the sentinel, so
    // both packets belong to one flow.
    let mut d_on = Dispatcher::new(CaptureType::Ip { aggregate_ports: true }, SEC);
    d_on.handle_packet(&ip_packet(0, "A", "B", 0, 0, 100));
    d_on.handle_packet(&ip_packet(SEC / 10, "A", "B", 0, 0, 100));
    d_on.quiet_elapse(3 * SEC);
    assert_eq!(d_on.emitted.len(), 1);
    check_burst(&d_on.emitted[0], "A", "B", 0, SEC / 10, 2, 200);
    assert_eq!(d_on.emitted[0].src_port, 0);
    assert_eq!(d_on.emitted[0].dst_port, 0);
}

#[test]
fn engine_replay_deterministic() {
    // The same input twice gives identical bursts: no wall clock enters.
    let run = || {
        let mut d = Dispatcher::new(CaptureType::Ip { aggregate_ports: false }, SEC);
        d.handle_packet(&ip_packet(0, "A", "B", 1, 2, 100));
        d.handle_packet(&ip_packet(SEC / 2, "C", "D", 3, 4, 50));
        d.handle_packet(&ip_packet(3 * SEC, "A", "B", 1, 2, 70));
        d.quiet_elapse(9 * SEC);
        d.emitted
            .iter()
            .map(|b| (b.src.clone(), b.start, b.end, b.num_packets, b.size))
            .collect::<Vec<_>>()
    };
    assert_eq!(run(), run());
}

#[test]
fn engine_same_flow_bursts_separated() {
    // Consecutive bursts of one flow are separated by more than the
    // quiet interval.
    let mut d = Dispatcher::new(CaptureType::Ip { aggregate_ports: false }, SEC);
    d.handle_packet(&ip_packet(0, "A", "B", 1, 2, 100));
    d.handle_packet(&ip_packet(2 * SEC, "A", "B", 1, 2, 100));
    d.handle_packet(&ip_packet(5 * SEC, "A", "B", 1, 2, 100));
    d.quiet_elapse(9 * SEC);
    assert_eq!(d.emitted.len(), 3);
    for w in d.emitted.windows(2) {
        assert!(w[0].end < w[1].start);
        assert!(w[1].start - w[0].end > SEC);
    }
}

#[test]
fn engine_burst_invariants_positive() {
    // With every payload at least one byte, every emitted burst has
    // start <= end, packets >= 1 and size >= 1.
    let mut d = Dispatcher::new(CaptureType::Ip { aggregate_ports: false }, SEC);
    d.handle_packet(&ip_packet(0, "A", "B", 1, 2, 1));
    d.handle_packet(&ip_packet(SEC / 4, "A", "B", 1, 2, 1));
    d.handle_packet(&ip_packet(4 * SEC, "A", "B", 1, 2, 1));
    d.quiet_elapse(9 * SEC);
    assert_eq!(d.emitted.len(), 2);
    for b in &d.emitted {
        assert!(b.start <= b.end);
        assert!(b.num_packets >= 1);
        assert!(b.size >= 1);
    }
}

#[test]
fn engine_burst_span_bounded() {
    // A burst spans at most its number of inter-packet gaps times the
    // quiet interval.
    let mut d = Dispatcher::new(CaptureType::Ip { aggregate_ports: false }, SEC);
    d.handle_packet(&ip_packet(0, "A", "B", 1, 2, 10));
    d.handle_packet(&ip_packet(SEC, "A", "B", 1, 2, 10));
    d.handle_packet(&ip_packet(2 * SEC, "A", "B", 1, 2, 10));
    d.quiet_elapse(9 * SEC);
    assert_eq!(d.emitted.len(), 1);
    let b = &d.emitted[0];
    let gaps = (b.num_packets - 1) as u64;
    assert!(b.end - b.start <= gaps * SEC);
}

#[test]
fn engine_wlan_mean_within_observed() {
    // With estimation, size / packets lies between the least and the
    // greatest observed payload.
    let mode = CaptureType::Wlan { no_estimation: false, max_deviation: 50 };
    let mut d = Dispatcher::new(mode, SEC);
    d.handle_packet(&wlan_packet(0, "X", "Y", 100, 10));
    d.handle_packet(&wlan_packet(SEC / 10, "X", "Y", 200, 13));
    d.quiet_elapse(2 * SEC);
    let b = &d.emitted[0];
    let mean = b.size / b.num_packets as u32;
    assert!(100 <= mean && mean <= 200);
}

#[test]
fn engine_flow_key_matches_burst() {
    // The emitted burst carries exactly the fields its flow was keyed on.
    let mut d = Dispatcher::new(CaptureType::Ip { aggregate_ports: false }, SEC);
    d.handle_packet(&ip_packet(0, "10.0.0.1", "10.0.0.2", 1234, 80, 42));
    d.quiet_elapse(2 * SEC);
    let b = &d.emitted[0];
    assert_eq!(b.src, b"10.0.0.1".to_vec());
    assert_eq!(b.dst, b"10.0.0.2".to_vec());
    assert_eq!(b.src_port, 1234);
    assert_eq!(b.dst_port, 80);
}

#[test]
fn engine_reap_idle_removes_quiet_flows() {
    let mut d = Dispatcher::new(CaptureType::Ip { aggregate_ports: false }, SEC);
    d.handle_packet(&ip_packet(0, "A", "B", 1, 2, 100));
    d.quiet_elapse(2 * SEC);
    assert_eq!(d.flows.len(), 1);
    assert_eq!(d.emitted.len(), 1);
    // Not yet idle for longer than the threshold.
    d.reap_idle(10 * SEC);
    assert_eq!(d.flows.len(), 1);
    // Well past the 30 s flow-idle threshold since the last activity.
    d.reap_idle(40 * SEC);
    assert_eq!(d.flows.len(), 0);
    // A later packet recreates the flow.
    d.handle_packet(&ip_packet(50 * SEC, "A", "B", 1, 2, 100));
    assert_eq!(d.flows.len(), 1);
}

#[test]
fn engine_reap_spares_active_flows() {
    let mut d = Dispatcher::new(CaptureType::Ip { aggregate_ports: false }, SEC);
    d.handle_packet(&ip_packet(0, "A", "B", 1, 2, 100));
    // The burst is still in progress: the reaper must not touch it.
    d.reap_idle(40 * SEC);
    assert_eq!(d.flows.len(), 1);
    d.quiet_elapse(41 * SEC);
    assert_eq!(d.emitted.len(), 1);
}

#[test]
fn engine_can_take_rejects_counter_overflow() {
    let mut d = Dispatcher::new(CaptureType::Ip { aggregate_ports: false }, 10 * SEC);
    d.handle_packet(&ip_packet(0, "A", "B", 1, 2, u32::MAX));
    // One more byte would overflow the size counter within the burst.
    assert!(!d.can_take(&ip_packet(SEC, "A", "B", 1, 2, 1)));
    // Another flow is unaffected.
    assert!(d.can_take(&ip_packet(SEC, "C", "D", 1, 2, 1)));
    // A gap beyond the quiet interval closes the burst first, so the
    // packet can be taken.
    assert!(d.can_take(&ip_packet(20 * SEC, "A", "B", 1, 2, 1)));
    // Time never goes backwards.
    d.handle_packet(&ip_packet(5 * SEC, "C", "D", 1, 2, 1));
    assert!(!d.can_take(&ip_packet(SEC, "C", "D", 1, 2, 1)));
}

#[test]
fn engine_wlan_outlier_keeps_burst() {
    // A deviation at or beyond the window only advances the expected
    // number; the burst is unchanged.
    let mode = CaptureType::Wlan { no_estimation: false, max_deviation: 50 };
    let mut d = Dispatcher::new(mode, SEC);
    d.handle_packet(&wlan_packet(0, "X", "Y", 100, 10));
    d.handle_packet(&wlan_packet(SEC / 10, "X", "Y", 999, 400));
    d.quiet_elapse(2 * SEC);
    assert_eq!(d.emitted.len(), 1);
    check_burst(&d.emitted[0], "X", "Y", 0, 0, 1, 100);
}
