use burstshark::capture::{CaptureType, Dispatcher};
use burstshark::output::OutputWriter;
use burstshark::record::Packet;

const SEC: u64 = 1_000_000_000;

fn feed(d: &mut Dispatcher, mode: &CaptureType, lines: &[&str]) {
    for line in lines {
        match Packet::from_tshark(line.as_bytes(), mode) {
            Ok(p) => {
                assert!(d.can_take(&p));
                d.handle_packet(&p);
            },
            Err(_) => {},
        }
    }
}

#[test]
fn pipeline_lines_to_bursts() {
    let mode = CaptureType::Ip { aggregate_ports: false };
    let mut d = Dispatcher::new(mode, SEC);
    feed(&mut d, &mode, &[
        "0.0\t10.0.0.1\t10.0.0.2\t100\t1000\t80",
        "",
        "0.3\t10.0.0.1\t10.0.0.2\t200\t1000\t80",
        "not a record",
        "0.6\t10.0.0.1\t10.0.0.2\t100\t1000\t80",
    ]);
    d.quiet_elapse(2 * SEC);
    assert_eq!(d.emitted.len(), 1);
    let b = &d.emitted[0];
    assert_eq!(b.start, 0);
    assert_eq!(b.end, 6 * SEC / 10);
    assert_eq!(b.num_packets, 3);
    assert_eq!(b.size, 400);

    // The burst survives an inclusive filter and is dropped by a strict
    // one.
    assert!(OutputWriter::new(Some(400), None, None, Some(3)).accepts(b));
    assert!(!OutputWriter::new(Some(401), None, None, None).accepts(b));
}

#[test]
fn pipeline_port_aggregation_from_lines() {
    // The same lines, parsed under the two IP configurations: with
    // aggregation the ports collapse and the packets share one flow.
    let lines = ["0.0 A B 100 1 2", "0.1 A B 100 9 2"];

    let off = CaptureType::Ip { aggregate_ports: false };
    let mut d_off = Dispatcher::new(off, SEC);
    feed(&mut d_off, &off, &lines);
    d_off.quiet_elapse(3 * SEC);
    assert_eq!(d_off.emitted.len(), 2);

    let on = CaptureType::Ip { aggregate_ports: true };
    let mut d_on = Dispatcher::new(on, SEC);
    feed(&mut d_on, &on, &lines);
    d_on.quiet_elapse(3 * SEC);
    assert_eq!(d_on.emitted.len(), 1);
    assert_eq!(d_on.emitted[0].num_packets, 2);
    assert_eq!(d_on.emitted[0].size, 200);
    assert_eq!(d_on.emitted[0].src_port, 0);
    assert_eq!(d_on.emitted[0].dst_port, 0);
}

#[test]
fn pipeline_wlan_from_lines() {
    let mode = CaptureType::Wlan { no_estimation: false, max_deviation: 50 };
    let mut d = Dispatcher::new(mode, SEC);
    feed(&mut d, &mode, &[
        "0.0 aa:aa bb:bb 100 10",
        "0.1 aa:aa bb:bb 100 11",
        "0.2 aa:aa bb:bb 100 10",
    ]);
    d.quiet_elapse(2 * SEC);
    assert_eq!(d.emitted.len(), 1);
    let b = &d.emitted[0];
    assert_eq!(b.num_packets, 2);
    assert_eq!(b.size, 200);
    assert_eq!(b.end, 2 * SEC / 10);
}
