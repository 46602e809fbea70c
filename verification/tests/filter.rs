use burstshark::burst::Burst;
use burstshark::output::OutputWriter;

fn burst(num_packets: u16, size: u32) -> Burst {
    Burst {
        src: b"A".to_vec(),
        dst: b"B".to_vec(),
        src_port: 1,
        dst_port: 2,
        start: 0,
        end: 1,
        num_packets,
        size,
    }
}

#[test]
fn filter_unbounded_accepts_all() {
    let w = OutputWriter::new(None, None, None, None);
    assert!(w.accepts(&burst(1, 0)));
    assert!(w.accepts(&burst(u16::MAX, u32::MAX)));
}

#[test]
fn filter_byte_bounds_are_strict() {
    let w = OutputWriter::new(Some(100), Some(200), None, None);
    assert!(!w.accepts(&burst(1, 99)));
    assert!(w.accepts(&burst(1, 100)));
    assert!(w.accepts(&burst(1, 200)));
    assert!(!w.accepts(&burst(1, 201)));
}

#[test]
fn filter_packet_bounds_are_strict() {
    let w = OutputWriter::new(None, None, Some(2), Some(4));
    assert!(!w.accepts(&burst(1, 50)));
    assert!(w.accepts(&burst(2, 50)));
    assert!(w.accepts(&burst(4, 50)));
    assert!(!w.accepts(&burst(5, 50)));
}

#[test]
fn filter_bounds_combine() {
    let w = OutputWriter::new(Some(10), None, None, Some(3));
    assert!(w.accepts(&burst(3, 10)));
    assert!(!w.accepts(&burst(4, 10)));
    assert!(!w.accepts(&burst(3, 9)));
}
