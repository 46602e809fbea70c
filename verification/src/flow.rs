use vstd::prelude::*;

use crate::burst::{Burst, BurstV};
use crate::record::{Packet, PacketV};

verus! {

/// Mathematical view of an IP flow: just the current burst, if any.
pub ghost struct IpFlowV {
    pub current_burst: Option<BurstV>,
}

/// Mathematical view of a WLAN flow: the current burst plus the
/// sequence-number bookkeeping used to tolerate retransmitted and lost
/// frames.
pub ghost struct WlanFlowV {
    pub no_estimation: bool,
    pub max_deviation: int,
    pub expected_seq_number: int,
    pub last_packet_len: int,
    pub current_burst: Option<BurstV>,
}

/// Signed distance from `expected` to `seq` in the circular 12-bit
/// sequence space, taken in the half-open window `(-2048, 2048]`.
pub open spec fn seq_diff(seq: int, expected: int) -> int
    recommends
        0 <= seq < 4096,
        0 <= expected < 4096,
{
    let d = if seq >= expected {
        seq - expected
    } else {
        seq - expected + 4096
    };
    if d <= 2048 {
        d
    } else {
        d - 4096
    }
}

/// The successor of a sequence number in the circular 12-bit space.
pub open spec fn seq_next(q: int) -> int
    recommends
        0 <= q < 4096,
{
    if q == 4095 {
        0
    } else {
        q + 1
    }
}

/// Extend a burst by one counted packet: the end moves to the packet's
/// timestamp, one more packet, its payload added to the size.
pub open spec fn burst_extend(b: BurstV, p: PacketV) -> BurstV {
    BurstV {
        end: p.time,
        num_packets: b.num_packets + 1,
        size: b.size + p.data_len,
        ..b
    }
}

impl IpFlowV {
    pub open spec fn wf(self) -> bool {
        match self.current_burst {
            Some(b) => b.wf(),
            None => true,
        }
    }

    /// The IP transition: a packet either starts a burst or extends the
    /// current one. Every packet is counted; quiet splitting is the
    /// caller's concern.
    pub open spec fn step(self, p: PacketV) -> IpFlowV {
        match self.current_burst {
            None => IpFlowV { current_burst: Some(BurstV::from_packet(p)) },
            Some(b) => IpFlowV { current_burst: Some(burst_extend(b, p)) },
        }
    }

    /// Machine limits under which `step` is exact in the executable
    /// types: timestamps do not go backwards and the counters fit.
    pub open spec fn fits(self, p: PacketV) -> bool {
        match self.current_burst {
            None => true,
            Some(b) => {
                &&& b.end <= p.time
                &&& b.num_packets + 1 <= u16::MAX
                &&& b.size + p.data_len <= u32::MAX
            },
        }
    }
}

impl WlanFlowV {
    pub open spec fn wf(self) -> bool {
        &&& 0 <= self.expected_seq_number < 4096
        &&& 0 <= self.max_deviation <= u16::MAX
        &&& 0 <= self.last_packet_len <= u32::MAX
        &&& match self.current_burst {
            Some(b) => b.wf(),
            None => true,
        }
    }

    /// The estimated payload of a frame lost between the last accepted
    /// frame and the present one: the mean of their payloads.
    pub open spec fn loss_estimate(self, p: PacketV) -> int {
        (self.last_packet_len + p.data_len) / 2
    }

    /// The WLAN transition, on the signed sequence deviation `d` between
    /// the observed and the expected number, with `D = max_deviation`:
    /// `d == 0` accepts the frame; `-D < d < 0` is a retransmit that only
    /// keeps the burst alive; `0 < d < D` infers `d` lost frames (their
    /// sizes estimated when estimation is on, else only the observed
    /// frame is counted); any larger deviation is an outlier that merely
    /// advances the expected number by one.
    pub open spec fn step(self, p: PacketV) -> WlanFlowV {
        match p.seq_number {
            None => self,
            Some(q) => match self.current_burst {
                None => WlanFlowV {
                    current_burst: Some(BurstV::from_packet(p)),
                    expected_seq_number: seq_next(q),
                    last_packet_len: p.data_len,
                    ..self
                },
                Some(b) => {
                    let d = seq_diff(q, self.expected_seq_number);
                    if d == 0 {
                        WlanFlowV {
                            current_burst: Some(burst_extend(b, p)),
                            expected_seq_number: seq_next(q),
                            last_packet_len: p.data_len,
                            ..self
                        }
                    } else if -self.max_deviation < d && d < 0 {
                        WlanFlowV {
                            current_burst: Some(BurstV { end: p.time, ..b }),
                            ..self
                        }
                    } else if 0 < d && d < self.max_deviation {
                        if !self.no_estimation {
                            WlanFlowV {
                                current_burst: Some(BurstV {
                                    end: p.time,
                                    num_packets: b.num_packets + d,
                                    size: b.size + self.loss_estimate(p) * d,
                                    ..b
                                }),
                                expected_seq_number: seq_next(q),
                                last_packet_len: p.data_len,
                                ..self
                            }
                        } else {
                            WlanFlowV {
                                current_burst: Some(burst_extend(b, p)),
                                expected_seq_number: seq_next(q),
                                last_packet_len: p.data_len,
                                ..self
                            }
                        }
                    } else {
                        WlanFlowV {
                            expected_seq_number: seq_next(self.expected_seq_number),
                            ..self
                        }
                    }
                },
            },
        }
    }

    /// Machine limits under which `step` is exact in the executable
    /// types.
    pub open spec fn fits(self, p: PacketV) -> bool {
        &&& p.seq_number is Some
        &&& match self.current_burst {
            None => true,
            Some(b) => {
                let d = seq_diff(p.seq_number->Some_0, self.expected_seq_number);
                &&& b.end <= p.time
                &&& if d == 0 || (0 < d && d < self.max_deviation && self.no_estimation) {
                    &&& b.num_packets + 1 <= u16::MAX
                    &&& b.size + p.data_len <= u32::MAX
                } else if 0 < d && d < self.max_deviation {
                    &&& b.num_packets + d <= u16::MAX
                    &&& b.size + self.loss_estimate(p) * d <= u32::MAX
                } else {
                    true
                }
            },
        }
    }
}

/// Mathematical view of a flow, one variant per capture mode.
pub ghost enum FlowV {
    Ip(IpFlowV),
    Wlan(WlanFlowV),
}

impl FlowV {
    pub open spec fn wf(self) -> bool {
        match self {
            FlowV::Ip(f) => f.wf(),
            FlowV::Wlan(f) => f.wf(),
        }
    }

    pub open spec fn current_burst(self) -> Option<BurstV> {
        match self {
            FlowV::Ip(f) => f.current_burst,
            FlowV::Wlan(f) => f.current_burst,
        }
    }

    pub open spec fn step(self, p: PacketV) -> FlowV {
        match self {
            FlowV::Ip(f) => FlowV::Ip(f.step(p)),
            FlowV::Wlan(f) => FlowV::Wlan(f.step(p)),
        }
    }

    pub open spec fn fits(self, p: PacketV) -> bool {
        match self {
            FlowV::Ip(f) => f.fits(p),
            FlowV::Wlan(f) => f.fits(p),
        }
    }

    /// Clearing the current burst leaves everything else in place; in
    /// particular a WLAN flow keeps its sequence bookkeeping.
    pub open spec fn reset(self) -> FlowV {
        match self {
            FlowV::Ip(f) => FlowV::Ip(IpFlowV { current_burst: None }),
            FlowV::Wlan(f) => FlowV::Wlan(WlanFlowV { current_burst: None, ..f }),
        }
    }
}

/// A flow's state after a run of packets, oldest first, all handed to
/// the state machine of one burst (the dispatcher emits and clears the
/// burst first where a gap exceeds the quiet interval; such packets are
/// the start of a new run).
pub open spec fn flow_run(f: FlowV, ps: Seq<PacketV>) -> FlowV
    decreases ps.len(),
{
    if ps.len() == 0 {
        f
    } else {
        flow_run(f, ps.drop_last()).step(ps.last())
    }
}

/// Along the run, every packet is well-formed and within machine
/// limits of the state it meets.
pub open spec fn flow_run_ok(f: FlowV, ps: Seq<PacketV>) -> bool
    decreases ps.len(),
{
    if ps.len() == 0 {
        true
    } else {
        &&& flow_run_ok(f, ps.drop_last())
        &&& ps.last().wf()
        &&& flow_run(f, ps.drop_last()).fits(ps.last())
    }
}

/// Along the run, no packet arrives more than the quiet interval after
/// the end of the burst it extends — the dispatcher emits the burst
/// first otherwise (see `step_packet`).
pub open spec fn flow_run_gaps_ok(f: FlowV, ps: Seq<PacketV>, quiet: int) -> bool
    decreases ps.len(),
{
    if ps.len() == 0 {
        true
    } else {
        &&& flow_run_gaps_ok(f, ps.drop_last(), quiet)
        &&& match flow_run(f, ps.drop_last()).current_burst() {
            Some(b) => ps.last().time - b.end <= quiet,
            None => true,
        }
    }
}

/// A run of one packet is a single step of the machine.
pub proof fn lemma_flow_run_singleton(f: FlowV, p: PacketV, quiet: int)
    ensures
        flow_run(f, seq![p]) == f.step(p),
        flow_run_ok(f, seq![p]) == (p.wf() && f.fits(p)),
        flow_run_gaps_ok(f, seq![p], quiet) == match f.current_burst() {
            Some(b) => p.time - b.end <= quiet,
            None => true,
        },
{
    assert(seq![p].drop_last() =~= Seq::<PacketV>::empty());
    assert(seq![p].last() == p);
    assert(flow_run(f, Seq::<PacketV>::empty()) == f);
    assert(flow_run_ok(f, Seq::<PacketV>::empty()));
    assert(flow_run_gaps_ok(f, Seq::<PacketV>::empty(), quiet));
}

/// Extending a run by one packet takes one more step of the machine.
pub proof fn lemma_flow_run_push(f: FlowV, ps: Seq<PacketV>, p: PacketV, quiet: int)
    ensures
        flow_run(f, ps.push(p)) == flow_run(f, ps).step(p),
        flow_run_ok(f, ps.push(p)) == (flow_run_ok(f, ps) && p.wf() && flow_run(f, ps).fits(p)),
        flow_run_gaps_ok(f, ps.push(p), quiet) == (flow_run_gaps_ok(f, ps, quiet)
            && match flow_run(f, ps).current_burst() {
            Some(b) => p.time - b.end <= quiet,
            None => true,
        }),
{
    assert(ps.push(p).drop_last() =~= ps);
    assert(ps.push(p).last() == p);
}

/// A flow step always leaves a burst in progress; it keeps the burst's
/// endpoints and start, never moves the end backwards or past the
/// packet's timestamp, and preserves well-formedness.
pub proof fn lemma_flow_step_burst(f: FlowV, p: PacketV)
    requires
        f.wf(),
        p.wf(),
        f.fits(p),
    ensures
        f.step(p).wf(),
        f.step(p).current_burst() is Some,
        ({
            let b2 = f.step(p).current_burst()->Some_0;
            match f.current_burst() {
                Some(b1) => {
                    &&& b2.start == b1.start
                    &&& b1.end <= b2.end <= p.time
                    &&& b2.src == b1.src
                    &&& b2.dst == b1.dst
                    &&& b2.src_port == b1.src_port
                    &&& b2.dst_port == b1.dst_port
                },
                None => b2 == BurstV::from_packet(p),
            }
        }),
{
    match f {
        FlowV::Ip(g) => {
        },
        FlowV::Wlan(g) => {
            match (g.current_burst, p.seq_number) {
                (Some(b), Some(q)) => {
                    let d = seq_diff(q, g.expected_seq_number);
                    if 0 < d && d < g.max_deviation && !g.no_estimation {
                        assert(g.loss_estimate(p) * d >= 0) by (nonlinear_arith)
                            requires
                                g.loss_estimate(p) >= 0,
                                d > 0,
                        ;
                    }
                },
                _ => {
                },
            }
        },
    }
}

/// An IP flow holds exactly the burst in progress.
pub struct IpFlow {
    pub current_burst: Option<Burst>,
}

/// A WLAN flow holds the burst in progress, the next sequence number it
/// anticipates, the payload of the last accepted frame (for loss
/// estimation), and the mode flags it was created with.
pub struct WlanFlow {
    pub no_estimation: bool,
    pub max_deviation: u16,
    pub expected_seq_number: u16,
    pub last_packet_len: u32,
    pub current_burst: Option<Burst>,
}

/// A flow is one of the two machines; the set of variants is closed and
/// dispatch is inlined.
pub enum Flow {
    Ip(IpFlow),
    Wlan(WlanFlow),
}

impl View for IpFlow {
    type V = IpFlowV;

    open spec fn view(&self) -> IpFlowV {
        IpFlowV {
            current_burst: match self.current_burst {
                Some(b) => Some(b@),
                None => None,
            },
        }
    }
}

impl View for WlanFlow {
    type V = WlanFlowV;

    open spec fn view(&self) -> WlanFlowV {
        WlanFlowV {
            no_estimation: self.no_estimation,
            max_deviation: self.max_deviation as int,
            expected_seq_number: self.expected_seq_number as int,
            last_packet_len: self.last_packet_len as int,
            current_burst: match self.current_burst {
                Some(b) => Some(b@),
                None => None,
            },
        }
    }
}

impl View for Flow {
    type V = FlowV;

    open spec fn view(&self) -> FlowV {
        match self {
            Flow::Ip(f) => FlowV::Ip(f@),
            Flow::Wlan(f) => FlowV::Wlan(f@),
        }
    }
}

impl IpFlow {
    pub fn add_packet(&mut self, p: &Packet)
        requires
            old(self)@.wf(),
            p@.wf(),
            old(self)@.fits(p@),
        ensures
            final(self)@ == old(self)@.step(p@),
            final(self)@.wf(),
    {
        if self.current_burst.is_none() {
            self.current_burst = Some(Burst::from_packet(p));
            return;
        }

        match &mut self.current_burst {
            Some(burst) => {
                burst.end = p.time;
                burst.num_packets = burst.num_packets + 1;
                burst.size = burst.size + p.data_len;
            },
            None => {},
        }
    }
}

impl WlanFlow {
    pub fn add_packet(&mut self, p: &Packet)
        requires
            old(self)@.wf(),
            p@.wf(),
            old(self)@.fits(p@),
        ensures
            final(self)@ == old(self)@.step(p@),
            final(self)@.wf(),
    {
        let seq_number = p.seq_number.unwrap();
        let next_of_seq: u16 = if seq_number == 4095 {
            0
        } else {
            seq_number + 1
        };

        if self.current_burst.is_none() {
            self.current_burst = Some(Burst::from_packet(p));
            self.expected_seq_number = next_of_seq;
            self.last_packet_len = p.data_len;
            return;
        }

        match &mut self.current_burst {
            Some(burst) => {
                if seq_number == self.expected_seq_number {
                    self.expected_seq_number = next_of_seq;
                    self.last_packet_len = p.data_len;
                    burst.end = p.time;
                    burst.num_packets = burst.num_packets + 1;
                    burst.size = burst.size + p.data_len;
                } else {
                    // The distance from expected to observed, around the
                    // 12-bit circle: diff in 1..=4095.
                    let diff: u16 = if seq_number >= self.expected_seq_number {
                        seq_number - self.expected_seq_number
                    } else {
                        seq_number + 4096 - self.expected_seq_number
                    };

                    if diff > 2048 {
                        // A frame from the recent past: possibly a
                        // retransmission of one already counted.
                        let behind: u16 = 4096 - diff;
                        if behind < self.max_deviation {
                            burst.end = p.time;
                        } else {
                            self.expected_seq_number = if self.expected_seq_number == 4095 {
                                0
                            } else {
                                self.expected_seq_number + 1
                            };
                        }
                    } else {
                        // Further along than expected: possibly lost
                        // frames.
                        if diff < self.max_deviation {
                            if !self.no_estimation {
                                let estimate: u64 = (self.last_packet_len as u64
                                    + p.data_len as u64) / 2;
                                let added: u64 = estimate * diff as u64;
                                burst.num_packets = burst.num_packets + diff;
                                burst.size = burst.size + added as u32;
                            } else {
                                // Accept only this frame if estimation is
                                // disabled.
                                burst.num_packets = burst.num_packets + 1;
                                burst.size = burst.size + p.data_len;
                            }
                            self.expected_seq_number = next_of_seq;
                            self.last_packet_len = p.data_len;
                            burst.end = p.time;
                        } else {
                            self.expected_seq_number = if self.expected_seq_number == 4095 {
                                0
                            } else {
                                self.expected_seq_number + 1
                            };
                        }
                    }
                }
            },
            None => {},
        }
    }
}

impl Flow {
    /// Hand one packet to the flow's state machine.
    pub fn add_packet(&mut self, p: &Packet)
        requires
            old(self)@.wf(),
            p@.wf(),
            old(self)@.fits(p@),
        ensures
            final(self)@ == old(self)@.step(p@),
            final(self)@.wf(),
    {
        match self {
            Flow::Ip(f) => f.add_packet(p),
            Flow::Wlan(f) => f.add_packet(p),
        }
    }

    /// Whether the machine-level counters can take this packet without
    /// overflowing and its timestamp does not precede the burst's end.
    pub fn add_packet_fits(&self, p: &Packet) -> (r: bool)
        requires
            self@.wf(),
            p@.wf(),
        ensures
            r == self@.fits(p@),
    {
        match self {
            Flow::Ip(f) => match &f.current_burst {
                None => true,
                Some(b) => b.end <= p.time && b.num_packets < u16::MAX
                    && p.data_len <= u32::MAX - b.size,
            },
            Flow::Wlan(f) => match (&f.current_burst, p.seq_number) {
                (_, None) => false,
                (None, Some(_)) => true,
                (Some(b), Some(seq_number)) => {
                    let diff: u16 = if seq_number >= f.expected_seq_number {
                        seq_number - f.expected_seq_number
                    } else {
                        seq_number + 4096 - f.expected_seq_number
                    };
                    let ok: bool = if diff == 0 || (0 < diff && diff <= 2048
                        && diff < f.max_deviation && f.no_estimation) {
                        b.num_packets < u16::MAX && p.data_len <= u32::MAX - b.size
                    } else if 0 < diff && diff <= 2048 && diff < f.max_deviation {
                        let estimate: u64 = (f.last_packet_len as u64 + p.data_len as u64) / 2;
                        proof {
                            assert(estimate * (diff as u64) <= (u32::MAX as u64) * 2048)
                                by (nonlinear_arith)
                                requires
                                    estimate <= u32::MAX as u64,
                                    diff as u64 <= 2048,
                            ;
                        }
                        b.num_packets as u64 + diff as u64 <= u16::MAX as u64
                            && b.size as u64 + estimate * (diff as u64) <= u32::MAX as u64
                    } else {
                        true
                    };
                    b.end <= p.time && ok
                },
            },
        }
    }

    /// The current burst, still owned by the flow.
    pub fn get_current_burst(&self) -> (b: &Option<Burst>)
        ensures
            match b {
                Some(x) => self@.current_burst() == Some(x@),
                None => self@.current_burst() is None,
            },
    {
        match self {
            Flow::Ip(f) => &f.current_burst,
            Flow::Wlan(f) => &f.current_burst,
        }
    }

    /// Move the current burst out for emission, clearing it in the flow.
    pub fn take_burst(&mut self) -> (b: Option<Burst>)
        ensures
            final(self)@ == old(self)@.reset(),
            old(self)@.wf() ==> final(self)@.wf(),
            match b {
                Some(x) => old(self)@.current_burst() == Some(x@),
                None => old(self)@.current_burst() is None,
            },
    {
        match self {
            Flow::Ip(f) => f.current_burst.take(),
            Flow::Wlan(f) => f.current_burst.take(),
        }
    }

    /// Clear the current burst after it has been emitted.
    pub fn reset_burst(&mut self)
        ensures
            final(self)@ == old(self)@.reset(),
            old(self)@.wf() ==> final(self)@.wf(),
    {
        match self {
            Flow::Ip(f) => {
                f.current_burst = None;
            },
            Flow::Wlan(f) => {
                f.current_burst = None;
            },
        }
    }
}

} // verus!
