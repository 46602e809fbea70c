use vstd::prelude::*;

use crate::burst::{Burst, BurstV};
use crate::flow::{
    lemma_flow_run_push, lemma_flow_run_singleton,
    flow_run, flow_run_gaps_ok, flow_run_ok, lemma_flow_step_burst, Flow, FlowV, IpFlow, IpFlowV,
    WlanFlow, WlanFlowV,
};
use crate::record::{Packet, PacketV};

verus! {

/// Nanoseconds of silence after which an idle flow (one with no burst in
/// progress) releases its state.
pub const FLOW_IDLE_NANOS: u64 = 30_000_000_000;

/// The capture mode and its mode-specific settings.
///
/// IP captures key flows on addresses and ports, with an option to
/// collapse ports; WLAN captures key flows on MAC pairs and reason
/// about the 12-bit frame sequence space with a deviation window and
/// optional size estimation for lost frames.
#[derive(Clone, Copy, Debug, PartialEq, Eq, Structural)]
pub enum CaptureType {
    Ip { aggregate_ports: bool },
    Wlan { no_estimation: bool, max_deviation: u16 },
}

/// The fresh flow state a capture mode starts with: no burst in progress
/// and, for WLAN, the mode's own flags and zeroed sequence bookkeeping.
pub open spec fn flow_init(mode: CaptureType) -> FlowV {
    match mode {
        CaptureType::Ip { .. } => FlowV::Ip(IpFlowV { current_burst: None }),
        CaptureType::Wlan { no_estimation, max_deviation } => FlowV::Wlan(
            WlanFlowV {
                no_estimation,
                max_deviation: max_deviation as int,
                expected_seq_number: 0,
                last_packet_len: 0,
                current_burst: None,
            },
        ),
    }
}

/// Create the flow state for a newly seen flow key.
pub fn create_flow(capture_type: &CaptureType) -> (f: Flow)
    ensures
        f@ == flow_init(*capture_type),
        f@.wf(),
        f@.current_burst() is None,
{
    match capture_type {
        CaptureType::Ip { .. } => Flow::Ip(IpFlow { current_burst: None }),
        CaptureType::Wlan { no_estimation, max_deviation } => Flow::Wlan(
            WlanFlow {
                no_estimation: *no_estimation,
                max_deviation: *max_deviation,
                expected_seq_number: 0,
                last_packet_len: 0,
                current_burst: None,
            },
        ),
    }
}

/// Mathematical view of a flow key. Keys are direction-sensitive: the
/// key of A to B differs from that of B to A.
pub ghost struct FlowKeyV {
    pub src: Seq<u8>,
    pub dst: Seq<u8>,
    pub src_port: int,
    pub dst_port: int,
}

/// The key that identifies a flow: endpoints and ports. In WLAN mode and
/// under port aggregation the ports hold the null sentinel.
pub struct FlowKey {
    pub src: Vec<u8>,
    pub dst: Vec<u8>,
    pub src_port: u16,
    pub dst_port: u16,
}

impl View for FlowKey {
    type V = FlowKeyV;

    open spec fn view(&self) -> FlowKeyV {
        FlowKeyV {
            src: self.src@,
            dst: self.dst@,
            src_port: self.src_port as int,
            dst_port: self.dst_port as int,
        }
    }
}

/// The flow key a packet belongs to.
pub open spec fn key_of(p: PacketV) -> FlowKeyV {
    FlowKeyV { src: p.src, dst: p.dst, src_port: p.src_port, dst_port: p.dst_port }
}

/// The source and destination fields a burst carries, read as a key.
pub open spec fn key_of_burst(b: BurstV) -> FlowKeyV {
    FlowKeyV { src: b.src, dst: b.dst, src_port: b.src_port, dst_port: b.dst_port }
}

fn bytes_eq(a: &Vec<u8>, b: &Vec<u8>) -> (r: bool)
    ensures
        r == (a@ == b@),
{
    if a.len() != b.len() {
        return false;
    }
    let mut i: usize = 0;
    while i < a.len()
        invariant
            i <= a.len(),
            a@.len() == b@.len(),
            forall|j: int| 0 <= j < i ==> a@[j] == b@[j],
        decreases a.len() - i,
    {
        if a[i] != b[i] {
            return false;
        }
        i += 1;
    }
    proof {
        assert(a@ =~= b@);
    }
    true
}

impl FlowKey {
    /// The key of a packet under the current mode; ports and endpoints
    /// are taken as the parser produced them.
    pub fn of_packet(p: &Packet) -> (k: FlowKey)
        ensures
            k@ == key_of(p@),
    {
        FlowKey {
            src: p.src.clone(),
            dst: p.dst.clone(),
            src_port: p.src_port,
            dst_port: p.dst_port,
        }
    }

    fn matches(&self, other: &FlowKey) -> (r: bool)
        ensures
            r == (self@ == other@),
    {
        let r = bytes_eq(&self.src, &other.src) && bytes_eq(&self.dst, &other.dst)
            && self.src_port == other.src_port && self.dst_port == other.dst_port;
        proof {
            if r {
                assert(self@ == other@);
            }
        }
        r
    }
}

/// The run that produced a burst: the flow state it began from (with no
/// burst in progress) and the packets handed to the machine since.
pub ghost struct RunV {
    pub base: FlowV,
    pub packets: Seq<PacketV>,
}

/// Mathematical view of a flow-table entry: alongside the live state, it
/// records as history the state its current run began from and the
/// packets handed to the machine since.
pub ghost struct FlowEntryV {
    pub key: FlowKeyV,
    pub flow: FlowV,
    pub idle_since: int,
    pub base: FlowV,
    pub run: Seq<PacketV>,
}

/// One live flow: its key, its state machine, the time of its last
/// activity (for the flow-idle reaper), and the ghost history of the
/// current run.
pub struct FlowEntry {
    pub key: FlowKey,
    pub flow: Flow,
    pub idle_since: u64,
    pub base: Ghost<FlowV>,
    pub run: Ghost<Seq<PacketV>>,
}

impl View for FlowEntry {
    type V = FlowEntryV;

    open spec fn view(&self) -> FlowEntryV {
        FlowEntryV {
            key: self.key@,
            flow: self.flow@,
            idle_since: self.idle_since as int,
            base: self.base@,
            run: self.run@,
        }
    }
}

pub open spec fn entries_view(es: Seq<FlowEntry>) -> Seq<FlowEntryV> {
    es.map_values(|e: FlowEntry| e@)
}

pub open spec fn bursts_view(bs: Seq<Burst>) -> Seq<BurstV> {
    bs.map_values(|b: Burst| b@)
}

/// Mathematical view of the dispatcher: the capture mode, the quiet
/// interval, the time of the last event, the live flows in creation
/// order, and every burst emitted so far with the key it was emitted
/// for and the run that built it.
pub ghost struct DispatcherV {
    pub mode: CaptureType,
    pub burst_quiet: int,
    pub now: int,
    pub flows: Seq<FlowEntryV>,
    pub emitted: Seq<BurstV>,
    pub emitted_keys: Seq<FlowKeyV>,
    pub emitted_runs: Seq<RunV>,
}

/// The index of the first flow with the given key, if any.
pub open spec fn find_flow_from(flows: Seq<FlowEntryV>, k: FlowKeyV, i: int) -> Option<int>
    decreases flows.len() - i,
{
    if i < 0 || i >= flows.len() {
        None
    } else if flows[i].key == k {
        Some(i)
    } else {
        find_flow_from(flows, k, i + 1)
    }
}

pub proof fn lemma_find_flow_from(flows: Seq<FlowEntryV>, k: FlowKeyV, i: int)
    requires
        0 <= i,
    ensures
        match find_flow_from(flows, k, i) {
            Some(j) => i <= j < flows.len() && flows[j].key == k && forall|m: int|
                i <= m < j ==> (#[trigger] flows[m]).key != k,
            None => forall|m: int| i <= m < flows.len() ==> (#[trigger] flows[m]).key != k,
        },
    decreases flows.len() - i,
{
    if i < flows.len() && flows[i].key != k {
        lemma_find_flow_from(flows, k, i + 1);
    }
}

/// A packet is shaped for the mode: WLAN frames carry a sequence number,
/// IP packets do not.
pub open spec fn mode_matches(mode: CaptureType, p: PacketV) -> bool {
    match mode {
        CaptureType::Ip { .. } => p.seq_number is None,
        CaptureType::Wlan { .. } => p.seq_number is Some,
    }
}

/// A flow state belongs to the mode and carries the mode's own flags.
pub open spec fn mode_flow_matches(mode: CaptureType, f: FlowV) -> bool {
    match (mode, f) {
        (CaptureType::Ip { .. }, FlowV::Ip(_)) => true,
        (CaptureType::Wlan { no_estimation, max_deviation }, FlowV::Wlan(g)) => {
            &&& g.no_estimation == no_estimation
            &&& g.max_deviation == max_deviation as int
        },
        _ => false,
    }
}

impl DispatcherV {
    /// In IP mode every packet of a burst arrived within the quiet
    /// interval of the burst's end and advanced the count, so the span
    /// is at most the number of inter-packet gaps times that interval.
    pub open spec fn ip_span_ok(self, b: BurstV) -> bool {
        self.mode is Ip ==> b.end - b.start <= (b.num_packets - 1) * self.burst_quiet
    }

    /// A valid run history: it begins from a well-formed state of the
    /// mode with no burst in progress, every packet along it is
    /// well-formed and within machine limits of the state it meets, and
    /// none arrives more than the quiet interval after the end of the
    /// burst it extends.
    pub open spec fn run_records(self, base: FlowV, run: Seq<PacketV>) -> bool {
        &&& base.wf()
        &&& base.current_burst() is None
        &&& mode_flow_matches(self.mode, base)
        &&& flow_run_ok(base, run)
        &&& flow_run_gaps_ok(base, run, self.burst_quiet)
    }

    /// What holds of each live flow: a well-formed state of the mode's
    /// variant, equal to the recorded run of the machine from the run's
    /// base state, with activity no later than now, and a current burst
    /// (if any) that carries the flow's own key, ends by now, and starts
    /// more than the quiet interval after every burst already emitted
    /// for this key.
    pub open spec fn flow_entry_inv(self, e: FlowEntryV) -> bool {
        &&& e.flow.wf()
        &&& mode_flow_matches(self.mode, e.flow)
        &&& e.idle_since <= self.now
        &&& e.flow == flow_run(e.base, e.run)
        &&& self.run_records(e.base, e.run)
        &&& match e.flow.current_burst() {
            Some(b) => {
                &&& b.end <= self.now
                &&& key_of_burst(b) == e.key
                &&& self.ip_span_ok(b)
                &&& forall|i: int|
                    0 <= i < self.emitted.len() && self.emitted_keys[i] == e.key ==> (
                    #[trigger] self.emitted[i]).end + self.burst_quiet < b.start
            },
            None => true,
        }
    }

    /// The dispatcher invariant: distinct flow keys; every emitted burst
    /// well-formed, keyed by its own endpoint fields, quiet for more
    /// than the quiet interval, and produced by a recorded valid run of
    /// its flow's state machine; and bursts of one flow separated by
    /// more than the quiet interval, in order of emission.
    pub open spec fn inv(self) -> bool {
        &&& self.burst_quiet >= 0
        &&& self.now >= 0
        &&& self.emitted_keys.len() == self.emitted.len()
        &&& self.emitted_runs.len() == self.emitted.len()
        &&& forall|i: int|
            0 <= i < self.emitted.len() ==> flow_run(
                (#[trigger] self.emitted_runs[i]).base,
                self.emitted_runs[i].packets,
            ).current_burst() == Some(self.emitted[i]) && self.run_records(
                self.emitted_runs[i].base,
                self.emitted_runs[i].packets,
            )
        &&& forall|i: int|
            0 <= i < self.flows.len() ==> self.flow_entry_inv(#[trigger] self.flows[i])
        &&& forall|i: int, j: int|
            0 <= i < j < self.flows.len() ==> (#[trigger] self.flows[i]).key != (
            #[trigger] self.flows[j]).key
        &&& forall|i: int| 0 <= i < self.emitted.len() ==> (#[trigger] self.emitted[i]).wf()
        &&& forall|i: int|
            0 <= i < self.emitted.len() ==> key_of_burst(#[trigger] self.emitted[i])
                == self.emitted_keys[i]
        &&& forall|i: int|
            0 <= i < self.emitted.len() ==> (#[trigger] self.emitted[i]).end + self.burst_quiet
                < self.now
        &&& forall|i: int| 0 <= i < self.emitted.len() ==> self.ip_span_ok(#[trigger] self.emitted[i])
        &&& forall|i: int, j: int|
            0 <= i < j < self.emitted.len() && self.emitted_keys[i] == self.emitted_keys[j] ==> (
            #[trigger] self.emitted[i]).end + self.burst_quiet < (#[trigger] self.emitted[j]).start
    }
}

/// When the dispatcher can take a packet: well-formed, shaped for the
/// mode, no earlier than the last event, and within machine limits for
/// the flow it extends (unless the gap closes that burst first).
pub open spec fn packet_ok(s: DispatcherV, p: PacketV) -> bool {
    &&& p.wf()
    &&& mode_matches(s.mode, p)
    &&& s.now <= p.time
    &&& match find_flow_from(s.flows, key_of(p), 0) {
        Some(j) => {
            let f = s.flows[j].flow;
            match f.current_burst() {
                Some(b) => p.time - b.end > s.burst_quiet || f.fits(p),
                None => f.fits(p),
            }
        },
        None => true,
    }
}

/// One packet arrives: route it to its flow, creating the flow on first
/// sight; if the timestamp gap since the flow's burst exceeds the quiet
/// interval, that burst is emitted before the packet is handed to the
/// state machine.
pub open spec fn step_packet(s: DispatcherV, p: PacketV) -> DispatcherV {
    let k = key_of(p);
    match find_flow_from(s.flows, k, 0) {
        None => DispatcherV {
            now: p.time,
            flows: s.flows.push(
                FlowEntryV {
                    key: k,
                    flow: flow_init(s.mode).step(p),
                    idle_since: p.time,
                    base: flow_init(s.mode),
                    run: seq![p],
                },
            ),
            ..s
        },
        Some(j) => {
            let e = s.flows[j];
            let cur = e.flow.current_burst();
            if cur is Some && p.time - cur->Some_0.end > s.burst_quiet {
                DispatcherV {
                    now: p.time,
                    flows: s.flows.update(
                        j,
                        FlowEntryV {
                            key: e.key,
                            flow: e.flow.reset().step(p),
                            idle_since: p.time,
                            base: e.flow.reset(),
                            run: seq![p],
                        },
                    ),
                    emitted: s.emitted.push(cur->Some_0),
                    emitted_keys: s.emitted_keys.push(e.key),
                    emitted_runs: s.emitted_runs.push(RunV { base: e.base, packets: e.run }),
                    ..s
                }
            } else {
                DispatcherV {
                    now: p.time,
                    flows: s.flows.update(
                        j,
                        FlowEntryV {
                            key: e.key,
                            flow: e.flow.step(p),
                            idle_since: p.time,
                            base: e.base,
                            run: e.run.push(p),
                        },
                    ),
                    ..s
                }
            }
        },
    }
}

/// Taking a packet preserves the dispatcher invariant.
pub proof fn lemma_step_packet_inv(s: DispatcherV, p: PacketV)
    requires
        s.inv(),
        packet_ok(s, p),
    ensures
        step_packet(s, p).inv(),
{
    let k = key_of(p);
    let s2 = step_packet(s, p);
    lemma_find_flow_from(s.flows, k, 0);
    match find_flow_from(s.flows, k, 0) {
        None => {
            let f0 = flow_init(s.mode);
            lemma_flow_step_burst(f0, p);
            lemma_flow_run_singleton(f0, p, s.burst_quiet);
            assert(f0.fits(p));
            let e2 = s2.flows[s.flows.len() as int];
            assert(e2.flow.current_burst()->Some_0 == BurstV::from_packet(p));
            assert(key_of_burst(BurstV::from_packet(p)) == k);
            assert forall|i: int| 0 <= i < s2.flows.len() implies s2.flow_entry_inv(
                #[trigger] s2.flows[i],
            ) by {
                if i < s.flows.len() {
                    assert(s.flow_entry_inv(s.flows[i]));
                    assert(s2.flows[i] == s.flows[i]);
                } else {
                    assert(s2.flows[i] == e2);
                }
            }
            assert forall|i: int, j: int| 0 <= i < j < s2.flows.len() implies (
            #[trigger] s2.flows[i]).key != (#[trigger] s2.flows[j]).key by {
                if j < s.flows.len() {
                } else {
                    assert(s2.flows[j].key == k);
                    assert(s.flows[i].key != k);
                }
            }
        },
        Some(j) => {
            let e = s.flows[j];
            let cur = e.flow.current_burst();
            assert(s.flow_entry_inv(s.flows[j]));
            if cur is Some && p.time - cur->Some_0.end > s.burst_quiet {
                let b1 = cur->Some_0;
                lemma_flow_step_burst(e.flow.reset(), p);
                lemma_flow_run_singleton(e.flow.reset(), p, s.burst_quiet);
                assert(e.flow.reset().fits(p));
                let n = s.emitted.len() as int;
                assert forall|m: int| 0 <= m < s2.emitted.len() implies flow_run(
                    (#[trigger] s2.emitted_runs[m]).base,
                    s2.emitted_runs[m].packets,
                ).current_burst() == Some(s2.emitted[m]) && s2.run_records(
                    s2.emitted_runs[m].base,
                    s2.emitted_runs[m].packets,
                ) by {
                    if m < n {
                        assert(s2.emitted_runs[m] == s.emitted_runs[m]);
                        assert(s2.emitted[m] == s.emitted[m]);
                    } else {
                        assert(s2.emitted_runs[m] == (RunV { base: e.base, packets: e.run }));
                        assert(s2.emitted[m] == b1);
                    }
                }
                // The newly emitted burst against every earlier one.
                assert forall|i: int, jj: int|
                    0 <= i < jj < s2.emitted.len() && s2.emitted_keys[i] == s2.emitted_keys[jj]
                        implies (#[trigger] s2.emitted[i]).end + s2.burst_quiet < (
                #[trigger] s2.emitted[jj]).start by {
                    if jj < n {
                    } else {
                        assert(s2.emitted[jj] == b1);
                        assert(s2.emitted_keys[jj] == e.key);
                        assert(s.emitted[i].end + s.burst_quiet < b1.start);
                    }
                }
                assert forall|i: int| 0 <= i < s2.flows.len() implies s2.flow_entry_inv(
                    #[trigger] s2.flows[i],
                ) by {
                    if i == j {
                        assert(s2.flows[i].flow.current_burst()->Some_0 == BurstV::from_packet(p));
                        assert forall|m: int|
                            0 <= m < s2.emitted.len() && s2.emitted_keys[m] == s2.flows[i].key
                                implies (#[trigger] s2.emitted[m]).end + s2.burst_quiet
                            < s2.flows[i].flow.current_burst()->Some_0.start by {
                            if m < n {
                                assert(s.emitted[m].end + s.burst_quiet < s.now);
                            } else {
                                assert(s2.emitted[m] == b1);
                            }
                        }
                    } else {
                        assert(s.flow_entry_inv(s.flows[i]));
                        assert(s2.flows[i] == s.flows[i]);
                        match s.flows[i].flow.current_burst() {
                            Some(b) => {
                                assert forall|m: int|
                                    0 <= m < s2.emitted.len() && s2.emitted_keys[m]
                                        == s2.flows[i].key implies (#[trigger] s2.emitted[m]).end
                                    + s2.burst_quiet < b.start by {
                                    if m < n {
                                    } else {
                                        // The new burst was emitted for another key.
                                        if i < j {
                                            assert(s.flows[i].key != s.flows[j].key);
                                        } else {
                                            assert(s.flows[j].key != s.flows[i].key);
                                        }
                                        assert(false);
                                    }
                                }
                            },
                            None => {},
                        }
                    }
                }
            } else {
                lemma_flow_step_burst(e.flow, p);
                lemma_flow_run_push(e.base, e.run, p, s.burst_quiet);
                assert forall|i: int| 0 <= i < s2.flows.len() implies s2.flow_entry_inv(
                    #[trigger] s2.flows[i],
                ) by {
                    assert(s.flow_entry_inv(s.flows[i]));
                    if i != j {
                        assert(s2.flows[i] == s.flows[i]);
                    } else {
                        match (s.mode, e.flow.current_burst()) {
                            (CaptureType::Ip { .. }, Some(b)) => {
                                // The gap was within the quiet interval,
                                // so the span grows by at most one
                                // interval while the count grows by one.
                                let n = b.num_packets;
                                let q = s.burst_quiet;
                                assert(n * q == (n - 1) * q + q) by (nonlinear_arith);
                            },
                            _ => {},
                        }
                    }
                }
            }
        },
    }
}

/// The quiet timers elapse at time `t`, flows examined in table order:
/// every burst that has been quiet for more than the quiet interval is
/// emitted and cleared; the flows stay, with their idle clocks reset.
pub open spec fn quiet_from(s: DispatcherV, t: int, i: int) -> DispatcherV
    decreases s.flows.len() - i,
{
    if i < 0 || i >= s.flows.len() {
        s
    } else {
        let e = s.flows[i];
        let cur = e.flow.current_burst();
        if cur is Some && t - cur->Some_0.end > s.burst_quiet {
            let s2 = DispatcherV {
                flows: s.flows.update(
                    i,
                    FlowEntryV {
                        key: e.key,
                        flow: e.flow.reset(),
                        idle_since: t,
                        base: e.flow.reset(),
                        run: Seq::empty(),
                    },
                ),
                emitted: s.emitted.push(cur->Some_0),
                emitted_keys: s.emitted_keys.push(e.key),
                emitted_runs: s.emitted_runs.push(RunV { base: e.base, packets: e.run }),
                ..s
            };
            quiet_from(s2, t, i + 1)
        } else {
            quiet_from(s, t, i + 1)
        }
    }
}

pub open spec fn step_quiet(s: DispatcherV, t: int) -> DispatcherV {
    quiet_from(DispatcherV { now: t, ..s }, t, 0)
}

pub proof fn lemma_quiet_from_inv(s: DispatcherV, t: int, i: int)
    requires
        s.inv(),
        s.now == t,
        0 <= i,
    ensures
        quiet_from(s, t, i).inv(),
        quiet_from(s, t, i).now == t,
    decreases s.flows.len() - i,
{
    if i < s.flows.len() {
        let e = s.flows[i];
        let cur = e.flow.current_burst();
        assert(s.flow_entry_inv(s.flows[i]));
        if cur is Some && t - cur->Some_0.end > s.burst_quiet {
            let b1 = cur->Some_0;
            let n = s.emitted.len() as int;
            let s2 = DispatcherV {
                flows: s.flows.update(
                    i,
                    FlowEntryV {
                        key: e.key,
                        flow: e.flow.reset(),
                        idle_since: t,
                        base: e.flow.reset(),
                        run: Seq::empty(),
                    },
                ),
                emitted: s.emitted.push(b1),
                emitted_keys: s.emitted_keys.push(e.key),
                emitted_runs: s.emitted_runs.push(RunV { base: e.base, packets: e.run }),
                ..s
            };
            assert forall|a: int, b: int|
                0 <= a < b < s2.emitted.len() && s2.emitted_keys[a] == s2.emitted_keys[b] implies (
            #[trigger] s2.emitted[a]).end + s2.burst_quiet < (#[trigger] s2.emitted[b]).start by {
                if b < n {
                } else {
                    assert(s2.emitted[b] == b1);
                    assert(s.emitted[a].end + s.burst_quiet < b1.start);
                }
            }
            assert forall|m: int| 0 <= m < s2.emitted.len() implies flow_run(
                (#[trigger] s2.emitted_runs[m]).base,
                s2.emitted_runs[m].packets,
            ).current_burst() == Some(s2.emitted[m]) && s2.run_records(
                s2.emitted_runs[m].base,
                s2.emitted_runs[m].packets,
            ) by {
                if m < n {
                    assert(s2.emitted_runs[m] == s.emitted_runs[m]);
                    assert(s2.emitted[m] == s.emitted[m]);
                } else {
                    assert(s2.emitted_runs[m] == (RunV { base: e.base, packets: e.run }));
                    assert(s2.emitted[m] == b1);
                }
            }
            assert forall|a: int| 0 <= a < s2.flows.len() implies s2.flow_entry_inv(
                #[trigger] s2.flows[a],
            ) by {
                if a == i {
                    assert(s2.flows[a].flow.current_burst() is None);
                } else {
                    assert(s.flow_entry_inv(s.flows[a]));
                    assert(s2.flows[a] == s.flows[a]);
                    match s.flows[a].flow.current_burst() {
                        Some(b) => {
                            assert forall|m: int|
                                0 <= m < s2.emitted.len() && s2.emitted_keys[m] == s2.flows[a].key
                                    implies (#[trigger] s2.emitted[m]).end + s2.burst_quiet
                                < b.start by {
                                if m < n {
                                } else {
                                    if a < i {
                                        assert(s.flows[a].key != s.flows[i].key);
                                    } else {
                                        assert(s.flows[i].key != s.flows[a].key);
                                    }
                                    assert(false);
                                }
                            }
                        },
                        None => {},
                    }
                }
            }
            lemma_quiet_from_inv(s2, t, i + 1);
        } else {
            lemma_quiet_from_inv(s, t, i + 1);
        }
    }
}

/// Elapsing the quiet timers preserves the dispatcher invariant.
pub proof fn lemma_step_quiet_inv(s: DispatcherV, t: int)
    requires
        s.inv(),
        s.now <= t,
    ensures
        step_quiet(s, t).inv(),
        (DispatcherV { now: t, ..s }).inv(),
{
    let s1 = DispatcherV { now: t, ..s };
    assert forall|i: int| 0 <= i < s1.flows.len() implies s1.flow_entry_inv(
        #[trigger] s1.flows[i],
    ) by {
        assert(s.flow_entry_inv(s.flows[i]));
    }
    lemma_quiet_from_inv(s1, t, 0);
}

/// The flow-idle reaper runs at time `t`: flows with no burst in
/// progress and no activity for more than the idle interval are removed.
pub open spec fn reap_from(s: DispatcherV, t: int, i: int) -> DispatcherV
    decreases s.flows.len() - i,
{
    if i < 0 || i >= s.flows.len() {
        s
    } else {
        let e = s.flows[i];
        if e.flow.current_burst() is None && t - e.idle_since > FLOW_IDLE_NANOS {
            reap_from(DispatcherV { flows: s.flows.remove(i), ..s }, t, i)
        } else {
            reap_from(s, t, i + 1)
        }
    }
}

pub open spec fn step_reap(s: DispatcherV, t: int) -> DispatcherV {
    reap_from(DispatcherV { now: t, ..s }, t, 0)
}

pub proof fn lemma_reap_from_inv(s: DispatcherV, t: int, i: int)
    requires
        s.inv(),
        s.now == t,
        0 <= i,
    ensures
        reap_from(s, t, i).inv(),
        reap_from(s, t, i).now == t,
    decreases s.flows.len() - i,
{
    if i < s.flows.len() {
        let e = s.flows[i];
        if e.flow.current_burst() is None && t - e.idle_since > FLOW_IDLE_NANOS {
            let s2 = DispatcherV { flows: s.flows.remove(i), ..s };
            assert forall|a: int| 0 <= a < s2.flows.len() implies s2.flow_entry_inv(
                #[trigger] s2.flows[a],
            ) by {
                if a < i {
                    assert(s2.flows[a] == s.flows[a]);
                    assert(s.flow_entry_inv(s.flows[a]));
                } else {
                    assert(s2.flows[a] == s.flows[a + 1]);
                    assert(s.flow_entry_inv(s.flows[a + 1]));
                }
            }
            assert forall|a: int, b: int| 0 <= a < b < s2.flows.len() implies (
            #[trigger] s2.flows[a]).key != (#[trigger] s2.flows[b]).key by {
                let a0 = if a < i {
                    a
                } else {
                    a + 1
                };
                let b0 = if b < i {
                    b
                } else {
                    b + 1
                };
                assert(s2.flows[a] == s.flows[a0]);
                assert(s2.flows[b] == s.flows[b0]);
            }
            lemma_reap_from_inv(s2, t, i);
        } else {
            lemma_reap_from_inv(s, t, i + 1);
        }
    }
}

/// Running the flow-idle reaper preserves the dispatcher invariant.
pub proof fn lemma_step_reap_inv(s: DispatcherV, t: int)
    requires
        s.inv(),
        s.now <= t,
    ensures
        step_reap(s, t).inv(),
{
    let s1 = DispatcherV { now: t, ..s };
    assert forall|i: int| 0 <= i < s1.flows.len() implies s1.flow_entry_inv(
        #[trigger] s1.flows[i],
    ) by {
        assert(s.flow_entry_inv(s.flows[i]));
    }
    lemma_reap_from_inv(s1, t, 0);
}

/// The burst-aggregation engine: a flow table keyed by endpoints, one
/// state machine per live flow, and the bursts emitted so far in
/// emission order. Events arrive in timestamp order: packets, the
/// elapse of quiet timers, and the flow-idle reaper.
pub struct Dispatcher {
    pub mode: CaptureType,
    pub burst_quiet: u64,
    pub now: u64,
    pub flows: Vec<FlowEntry>,
    pub emitted: Vec<Burst>,
    pub emitted_keys: Ghost<Seq<FlowKeyV>>,
    pub emitted_runs: Ghost<Seq<RunV>>,
}

impl View for Dispatcher {
    type V = DispatcherV;

    open spec fn view(&self) -> DispatcherV {
        DispatcherV {
            mode: self.mode,
            burst_quiet: self.burst_quiet as int,
            now: self.now as int,
            flows: entries_view(self.flows@),
            emitted: bursts_view(self.emitted@),
            emitted_keys: self.emitted_keys@,
            emitted_runs: self.emitted_runs@,
        }
    }
}

fn find_flow(flows: &Vec<FlowEntry>, key: &FlowKey) -> (r: Option<usize>)
    ensures
        match r {
            Some(j) => find_flow_from(entries_view(flows@), key@, 0) == Some(j as int),
            None => find_flow_from(entries_view(flows@), key@, 0) is None,
        },
{
    let mut i: usize = 0;
    while i < flows.len()
        invariant
            i <= flows.len(),
            find_flow_from(entries_view(flows@), key@, 0) == find_flow_from(
                entries_view(flows@),
                key@,
                i as int,
            ),
        decreases flows.len() - i,
    {
        proof {
            assert(entries_view(flows@)[i as int] == flows@[i as int]@);
        }
        if flows[i].key.matches(key) {
            return Some(i);
        }
        i += 1;
    }
    None
}

impl Dispatcher {
    /// An engine with no flows and nothing emitted, at time zero.
    pub fn new(mode: CaptureType, burst_quiet: u64) -> (d: Dispatcher)
        ensures
            d@ == (DispatcherV {
                mode,
                burst_quiet: burst_quiet as int,
                now: 0,
                flows: Seq::<FlowEntryV>::empty(),
                emitted: Seq::<BurstV>::empty(),
                emitted_keys: Seq::<FlowKeyV>::empty(),
                emitted_runs: Seq::<RunV>::empty(),
            }),
            d@.inv(),
    {
        let d = Dispatcher {
            mode,
            burst_quiet,
            now: 0,
            flows: Vec::new(),
            emitted: Vec::new(),
            emitted_keys: Ghost(Seq::empty()),
            emitted_runs: Ghost(Seq::empty()),
        };
        proof {
            assert(entries_view(d.flows@) =~= Seq::<FlowEntryV>::empty());
            assert(bursts_view(d.emitted@) =~= Seq::<BurstV>::empty());
        }
        d
    }

    /// Whether the engine can take this packet: well-formed, shaped for
    /// the mode, not before the last event, and within machine limits
    /// for the flow it would extend.
    pub fn can_take(&self, p: &Packet) -> (r: bool)
        requires
            self@.inv(),
        ensures
            r == packet_ok(self@, p@),
    {
        let seq_ok: bool = match p.seq_number {
            Some(q) => q <= 4095,
            None => true,
        };
        if !seq_ok {
            return false;
        }
        let mode_ok: bool = match (self.mode, p.seq_number) {
            (CaptureType::Ip { .. }, None) => true,
            (CaptureType::Wlan { .. }, Some(_)) => true,
            _ => false,
        };
        if !mode_ok {
            return false;
        }
        if p.time < self.now {
            return false;
        }
        let key = FlowKey::of_packet(p);
        match find_flow(&self.flows, &key) {
            None => true,
            Some(j) => {
                proof {
                    lemma_find_flow_from(self@.flows, key_of(p@), 0);
                    assert(self@.flow_entry_inv(self@.flows[j as int]));
                }
                let gap_emit: bool = match self.flows[j].flow.get_current_burst() {
                    Some(b) => p.time - b.end > self.burst_quiet,
                    None => false,
                };
                if gap_emit {
                    true
                } else {
                    self.flows[j].flow.add_packet_fits(p)
                }
            },
        }
    }

    /// Route one packet: create its flow on first sight; emit the
    /// flow's burst first when the timestamp gap exceeds the quiet
    /// interval; then hand the packet to the flow's state machine.
    pub fn handle_packet(&mut self, p: &Packet)
        requires
            old(self)@.inv(),
            packet_ok(old(self)@, p@),
        ensures
            final(self)@ == step_packet(old(self)@, p@),
            final(self)@.inv(),
    {
        proof {
            lemma_step_packet_inv(old(self)@, p@);
            lemma_find_flow_from(old(self)@.flows, key_of(p@), 0);
        }
        let key = FlowKey::of_packet(p);
        match find_flow(&self.flows, &key) {
            None => {
                let ghost base0 = flow_init(self.mode);
                let ghost run0: Seq<PacketV> = seq![p@];
                let mut flow = create_flow(&self.mode);
                flow.add_packet(p);
                let ghost old_entries = entries_view(self.flows@);
                self.flows.push(
                    FlowEntry {
                        key,
                        flow,
                        idle_since: p.time,
                        base: Ghost(base0),
                        run: Ghost(run0),
                    },
                );
                self.now = p.time;
                proof {
                    assert(entries_view(self.flows@) =~= old_entries.push(
                        self.flows@.last()@,
                    ));
                }
            },
            Some(j) => {
                proof {
                    assert(old(self)@.flow_entry_inv(old(self)@.flows[j as int]));
                }
                let needs_emit: bool = match self.flows[j].flow.get_current_burst() {
                    Some(b) => p.time - b.end > self.burst_quiet,
                    None => false,
                };
                let ghost old_entries = entries_view(self.flows@);
                if needs_emit {
                    let ghost old_base = self.flows@[j as int].base@;
                    let ghost old_run = self.flows@[j as int].run@;
                    let ghost base2 = self.flows@[j as int].flow@.reset();
                    let ghost run1: Seq<PacketV> = seq![p@];
                    let emitted_burst: Option<Burst>;
                    {
                        let e = &mut self.flows[j];
                        emitted_burst = e.flow.take_burst();
                        e.flow.add_packet(p);
                        e.idle_since = p.time;
                        e.base = Ghost(base2);
                        e.run = Ghost(run1);
                    }
                    self.emitted.push(emitted_burst.unwrap());
                    self.emitted_keys = Ghost(self.emitted_keys@.push(key@));
                    self.emitted_runs = Ghost(
                        self.emitted_runs@.push(RunV { base: old_base, packets: old_run }),
                    );
                    self.now = p.time;
                    proof {
                        assert(entries_view(self.flows@) =~= old_entries.update(
                            j as int,
                            self.flows@[j as int]@,
                        ));
                        assert(bursts_view(self.emitted@) =~= bursts_view(
                            old(self).emitted@,
                        ).push(self.emitted@.last()@));
                    }
                } else {
                    let ghost old_run = self.flows@[j as int].run@;
                    {
                        let e = &mut self.flows[j];
                        e.flow.add_packet(p);
                        e.idle_since = p.time;
                        e.run = Ghost(old_run.push(p@));
                    }
                    self.now = p.time;
                    proof {
                        assert(entries_view(self.flows@) =~= old_entries.update(
                            j as int,
                            self.flows@[j as int]@,
                        ));
                    }
                }
            },
        }
    }

    /// The quiet timers elapse at time `t` with no further packet:
    /// every burst quiet for more than the quiet interval is emitted.
    pub fn quiet_elapse(&mut self, t: u64)
        requires
            old(self)@.inv(),
            old(self)@.now <= t,
        ensures
            final(self)@ == step_quiet(old(self)@, t as int),
            final(self)@.inv(),
    {
        proof {
            lemma_step_quiet_inv(old(self)@, t as int);
        }
        self.now = t;
        let ghost s1 = self@;
        let mut i: usize = 0;
        while i < self.flows.len()
            invariant
                i <= self.flows.len(),
                self.now == t,
                self.mode == s1.mode,
                self.burst_quiet as int == s1.burst_quiet,
                self.flows@.len() == s1.flows.len(),
                s1.now == t as int,
                forall|m: int|
                    i <= m < self.flows@.len() ==> entries_view(self.flows@)[m] == s1.flows[m],
                quiet_from(s1, t as int, 0) == quiet_from(self@, t as int, i as int),
                s1.inv(),
            decreases self.flows.len() - i,
        {
            proof {
                assert(s1.flow_entry_inv(s1.flows[i as int]));
                assert(entries_view(self.flows@)[i as int] == self.flows@[i as int]@);
            }
            let needs_emit: bool = match self.flows[i].flow.get_current_burst() {
                Some(b) => t - b.end > self.burst_quiet,
                None => false,
            };
            if needs_emit {
                let ghost before = self@;
                let ghost keyv = self.flows@[i as int].key@;
                let ghost old_base = self.flows@[i as int].base@;
                let ghost old_run = self.flows@[i as int].run@;
                let ghost base2 = self.flows@[i as int].flow@.reset();
                let emitted_burst: Option<Burst>;
                {
                    let e = &mut self.flows[i];
                    emitted_burst = e.flow.take_burst();
                    e.idle_since = t;
                    e.base = Ghost(base2);
                    e.run = Ghost(Seq::<PacketV>::empty());
                }
                self.emitted.push(emitted_burst.unwrap());
                self.emitted_keys = Ghost(self.emitted_keys@.push(keyv));
                self.emitted_runs = Ghost(
                    self.emitted_runs@.push(RunV { base: old_base, packets: old_run }),
                );
                proof {
                    assert(entries_view(self.flows@) =~= before.flows.update(
                        i as int,
                        self.flows@[i as int]@,
                    ));
                    assert(bursts_view(self.emitted@) =~= before.emitted.push(
                        self.emitted@.last()@,
                    ));
                }
            }
            i += 1;
        }
    }

    /// The flow-idle reaper runs at time `t`: flows with no burst in
    /// progress that have been inactive for more than the idle interval
    /// release their state.
    pub fn reap_idle(&mut self, t: u64)
        requires
            old(self)@.inv(),
            old(self)@.now <= t,
        ensures
            final(self)@ == step_reap(old(self)@, t as int),
            final(self)@.inv(),
    {
        proof {
            lemma_step_reap_inv(old(self)@, t as int);
        }
        self.now = t;
        let ghost s1 = self@;
        proof {
            assert forall|m: int| 0 <= m < s1.flows.len() implies (
            #[trigger] s1.flows[m]).idle_since <= t as int by {
                assert(old(self)@.flow_entry_inv(old(self)@.flows[m]));
            }
        }
        let mut i: usize = 0;
        while i < self.flows.len()
            invariant
                i <= self.flows.len(),
                self.now == t,
                s1.now == t as int,
                forall|m: int|
                    i <= m < self.flows@.len() ==> (#[trigger] entries_view(
                        self.flows@,
                    )[m]).idle_since <= t as int,
                reap_from(s1, t as int, 0) == reap_from(self@, t as int, i as int),
            decreases self.flows.len() - i,
        {
            proof {
                assert(entries_view(self.flows@)[i as int] == self.flows@[i as int]@);
            }
            let reap: bool = self.flows[i].flow.get_current_burst().is_none() && t
                - self.flows[i].idle_since > FLOW_IDLE_NANOS;
            if reap {
                let ghost before_entries = entries_view(self.flows@);
                let _ = self.flows.remove(i);
                proof {
                    assert(entries_view(self.flows@) =~= before_entries.remove(i as int));
                }
            } else {
                i += 1;
            }
        }
    }
}

} // verus!
