use burstshark::capture::{create_flow, CaptureType};
use burstshark::flow::Flow;
use burstshark::record::Packet;

const SEC: u64 = 1_000_000_000;

fn wlan_packet(time: u64, len: u32, seq: u16) -> Packet {
    Packet {
        time,
        src: b"X".to_vec(),
        dst: b"Y".to_vec(),
        data_len: len,
        src_port: 0,
        dst_port: 0,
        seq_number: Some(seq),
    }
}

fn ip_packet(time: u64, len: u32) -> Packet {
    Packet {
        time,
        src: b"A".to_vec(),
        dst: b"B".to_vec(),
        data_len: len,
        src_port: 1,
        dst_port: 2,
        seq_number: None,
    }
}

#[test]
fn ip_flow_creates_and_extends() {
    let mut f = create_flow(&CaptureType::Ip { aggregate_ports: false });
    assert!(f.get_current_burst().is_none());
    f.add_packet(&ip_packet(0, 100));
    {
        let b = f.get_current_burst().as_ref().unwrap();
        assert_eq!((b.start, b.end, b.num_packets, b.size), (0, 0, 1, 100));
    }
    f.add_packet(&ip_packet(SEC / 2, 200));
    {
        let b = f.get_current_burst().as_ref().unwrap();
        assert_eq!((b.start, b.end, b.num_packets, b.size), (0, SEC / 2, 2, 300));
    }
    f.reset_burst();
    assert!(f.get_current_burst().is_none());
}

#[test]
fn wlan_flow_accepts_expected_sequence() {
    let mode = CaptureType::Wlan { no_estimation: false, max_deviation: 50 };
    let mut f = create_flow(&mode);
    f.add_packet(&wlan_packet(0, 100, 10));
    f.add_packet(&wlan_packet(SEC / 10, 50, 11));
    let b = f.get_current_burst().as_ref().unwrap();
    assert_eq!((b.num_packets, b.size, b.end), (2, 150, SEC / 10));
}

#[test]
fn wlan_flow_retransmit_extends_end_only() {
    let mode = CaptureType::Wlan { no_estimation: false, max_deviation: 50 };
    let mut f = create_flow(&mode);
    f.add_packet(&wlan_packet(0, 100, 10));
    f.add_packet(&wlan_packet(SEC / 10, 100, 11));
    // seq 11 again: one behind the expected 12, within the window.
    f.add_packet(&wlan_packet(SEC / 5, 100, 11));
    let b = f.get_current_burst().as_ref().unwrap();
    assert_eq!((b.num_packets, b.size, b.end), (2, 200, SEC / 5));
}

#[test]
fn wlan_flow_outlier_advances_expected_by_one() {
    let mode = CaptureType::Wlan { no_estimation: false, max_deviation: 50 };
    let mut f = create_flow(&mode);
    f.add_packet(&wlan_packet(0, 100, 10));
    // A jump far beyond the window: dropped, expected creeps to 12.
    f.add_packet(&wlan_packet(SEC / 10, 999, 2000));
    {
        let b = f.get_current_burst().as_ref().unwrap();
        assert_eq!((b.num_packets, b.size, b.end), (1, 100, 0));
    }
    // Now a frame at 12 is the expected one again.
    f.add_packet(&wlan_packet(SEC / 5, 70, 12));
    let b = f.get_current_burst().as_ref().unwrap();
    assert_eq!((b.num_packets, b.size, b.end), (2, 170, SEC / 5));
}

#[test]
fn wlan_flow_sequence_wraps_around() {
    let mode = CaptureType::Wlan { no_estimation: false, max_deviation: 50 };
    let mut f = create_flow(&mode);
    f.add_packet(&wlan_packet(0, 10, 4095));
    // Expected wrapped to 0.
    f.add_packet(&wlan_packet(SEC / 10, 20, 0));
    {
        let b = f.get_current_burst().as_ref().unwrap();
        assert_eq!((b.num_packets, b.size), (2, 30));
    }
    // seq 4095 is now one behind around the circle: a retransmit.
    f.add_packet(&wlan_packet(SEC / 5, 20, 4095));
    let b = f.get_current_burst().as_ref().unwrap();
    assert_eq!((b.num_packets, b.size, b.end), (2, 30, SEC / 5));
}

#[test]
fn wlan_flow_estimation_prices_lost_frames() {
    let mode = CaptureType::Wlan { no_estimation: false, max_deviation: 200 };
    let mut f = create_flow(&mode);
    f.add_packet(&wlan_packet(0, 60, 100));
    // seq 104: three frames lost, estimate (60 + 80) / 2 = 70 each.
    f.add_packet(&wlan_packet(SEC / 10, 80, 104));
    let b = f.get_current_burst().as_ref().unwrap();
    assert_eq!((b.num_packets, b.size), (4, 60 + 3 * 70));
}

#[test]
fn wlan_flow_reset_starts_fresh_burst() {
    // Taking the burst clears it; the next frame starts a new one from
    // scratch, whatever its sequence number.
    let mode = CaptureType::Wlan { no_estimation: false, max_deviation: 50 };
    let mut f = create_flow(&mode);
    f.add_packet(&wlan_packet(0, 100, 10));
    let taken = f.take_burst();
    assert!(taken.is_some());
    let tb = taken.unwrap();
    assert_eq!((tb.num_packets, tb.size), (1, 100));
    assert!(f.get_current_burst().is_none());
    f.add_packet(&wlan_packet(SEC, 40, 2222));
    f.add_packet(&wlan_packet(SEC + SEC / 10, 40, 2223));
    let b = f.get_current_burst().as_ref().unwrap();
    assert_eq!((b.num_packets, b.size, b.start), (2, 80, SEC));
}

#[test]
fn flow_fits_rejects_overflow() {
    let mut f = create_flow(&CaptureType::Ip { aggregate_ports: false });
    f.add_packet(&ip_packet(0, u32::MAX));
    assert!(!f.add_packet_fits(&ip_packet(1, 1)));
    assert!(f.add_packet_fits(&ip_packet(1, 0)));
    // A packet whose timestamp precedes the burst's end does not fit.
    let mut g = create_flow(&CaptureType::Ip { aggregate_ports: false });
    g.add_packet(&ip_packet(SEC, 1));
    assert!(!g.add_packet_fits(&ip_packet(0, 1)));
}
