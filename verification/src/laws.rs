use vstd::prelude::*;

use crate::burst::BurstV;
use crate::capture::{
    key_of_burst, packet_ok, step_packet, step_quiet, step_reap, quiet_from, reap_from,
    CaptureType, DispatcherV, FlowKeyV, lemma_step_packet_inv, lemma_step_quiet_inv,
    lemma_step_reap_inv,
};
use crate::flow::{flow_run, flow_run_gaps_ok, flow_run_ok, lemma_flow_step_burst, seq_diff, FlowV, WlanFlowV};
use crate::record::{spec_parse, PacketV};

verus! {

/// Every burst the engine has emitted is well-formed: its start does
/// not exceed its end, it counts at least one packet, and its counters
/// fit their machine types.
pub proof fn lemma_emitted_wf(s: DispatcherV, i: int)
    requires
        s.inv(),
        0 <= i < s.emitted.len(),
    ensures
        s.emitted[i].wf(),
        s.emitted[i].start <= s.emitted[i].end,
        s.emitted[i].num_packets >= 1,
{
}

/// Bursts of one flow are separated: of two bursts emitted for the same
/// key, in emission order, the earlier ends before the later starts,
/// and the gap between them exceeds the quiet interval.
pub proof fn lemma_same_flow_bursts_separated(s: DispatcherV, i: int, j: int)
    requires
        s.inv(),
        0 <= i < j < s.emitted.len(),
        s.emitted_keys[i] == s.emitted_keys[j],
    ensures
        s.emitted[i].end + s.burst_quiet < s.emitted[j].start,
        s.emitted[i].end < s.emitted[j].start,
{
}

/// In IP mode every emitted burst spans at most its number of
/// inter-packet gaps times the quiet interval: each arrival within the
/// interval advances the count by one, and an arrival beyond it starts
/// a new burst instead.
pub proof fn lemma_emitted_span_ip(s: DispatcherV, i: int)
    requires
        s.inv(),
        s.mode is Ip,
        0 <= i < s.emitted.len(),
    ensures
        s.emitted[i].end - s.emitted[i].start <= (s.emitted[i].num_packets - 1) * s.burst_quiet,
{
}

/// The flow key a burst was emitted for matches the burst's own source
/// and destination fields.
pub proof fn lemma_emitted_key_matches(s: DispatcherV, i: int)
    requires
        s.inv(),
        0 <= i < s.emitted.len(),
    ensures
        key_of_burst(s.emitted[i]) == s.emitted_keys[i],
{
}

/// One input event of the engine: a packet, the elapse of quiet timers,
/// or a run of the flow-idle reaper, the latter two at a given time.
pub ghost enum EventV {
    Packet(PacketV),
    QuietElapse(int),
    ReapIdle(int),
}

pub open spec fn step_event(s: DispatcherV, e: EventV) -> DispatcherV {
    match e {
        EventV::Packet(p) => step_packet(s, p),
        EventV::QuietElapse(t) => step_quiet(s, t),
        EventV::ReapIdle(t) => step_reap(s, t),
    }
}

pub open spec fn event_ok(s: DispatcherV, e: EventV) -> bool {
    match e {
        EventV::Packet(p) => packet_ok(s, p),
        EventV::QuietElapse(t) => s.now <= t,
        EventV::ReapIdle(t) => s.now <= t,
    }
}

pub open spec fn events_ok(s: DispatcherV, evs: Seq<EventV>) -> bool
    decreases evs.len(),
{
    if evs.len() == 0 {
        true
    } else {
        event_ok(s, evs[0]) && events_ok(step_event(s, evs[0]), evs.drop_first())
    }
}

pub open spec fn replay_from(s: DispatcherV, evs: Seq<EventV>) -> DispatcherV
    decreases evs.len(),
{
    if evs.len() == 0 {
        s
    } else {
        replay_from(step_event(s, evs[0]), evs.drop_first())
    }
}

/// The engine's initial state under a configuration.
pub open spec fn initial_state(mode: CaptureType, burst_quiet: int) -> DispatcherV {
    DispatcherV {
        mode,
        burst_quiet,
        now: 0,
        flows: Seq::empty(),
        emitted: Seq::empty(),
        emitted_keys: Seq::empty(),
        emitted_runs: Seq::empty(),
    }
}

/// The engine run on a whole event sequence from its initial state.
pub open spec fn replay(mode: CaptureType, burst_quiet: int, evs: Seq<EventV>) -> DispatcherV {
    replay_from(initial_state(mode, burst_quiet), evs)
}

pub proof fn lemma_step_event_inv(s: DispatcherV, e: EventV)
    requires
        s.inv(),
        event_ok(s, e),
    ensures
        step_event(s, e).inv(),
{
    match e {
        EventV::Packet(p) => lemma_step_packet_inv(s, p),
        EventV::QuietElapse(t) => lemma_step_quiet_inv(s, t),
        EventV::ReapIdle(t) => lemma_step_reap_inv(s, t),
    }
}

pub proof fn lemma_replay_from_inv(s: DispatcherV, evs: Seq<EventV>)
    requires
        s.inv(),
        events_ok(s, evs),
    ensures
        replay_from(s, evs).inv(),
    decreases evs.len(),
{
    if evs.len() > 0 {
        lemma_step_event_inv(s, evs[0]);
        lemma_replay_from_inv(step_event(s, evs[0]), evs.drop_first());
    }
}

/// Every state the engine reaches from its initial state satisfies the
/// invariant, so the emitted-burst laws hold of every replay.
pub proof fn lemma_replay_inv(mode: CaptureType, burst_quiet: int, evs: Seq<EventV>)
    requires
        burst_quiet >= 0,
        events_ok(initial_state(mode, burst_quiet), evs),
    ensures
        replay(mode, burst_quiet, evs).inv(),
{
    lemma_replay_from_inv(initial_state(mode, burst_quiet), evs);
}

/// Replaying the same input under the same configuration yields the
/// same bursts, with the same timestamps, counts and sizes: the engine
/// is a function of its configuration and events alone; no wall clock
/// enters it.
pub proof fn lemma_replay_deterministic(
    mode1: CaptureType,
    quiet1: int,
    evs1: Seq<EventV>,
    mode2: CaptureType,
    quiet2: int,
    evs2: Seq<EventV>,
)
    requires
        mode1 == mode2,
        quiet1 == quiet2,
        evs1 == evs2,
    ensures
        replay(mode1, quiet1, evs1).emitted == replay(mode2, quiet2, evs2).emitted,
        replay(mode1, quiet1, evs1) == replay(mode2, quiet2, evs2),
{
}

/// Two engine states that differ at most in the stored mode flag.
pub open spec fn same_but_mode(a: DispatcherV, b: DispatcherV) -> bool {
    &&& a.burst_quiet == b.burst_quiet
    &&& a.now == b.now
    &&& a.flows == b.flows
    &&& a.emitted == b.emitted
    &&& a.emitted_keys == b.emitted_keys
    &&& a.emitted_runs == b.emitted_runs
}

pub proof fn lemma_step_packet_ip_mode(s1: DispatcherV, s2: DispatcherV, p: PacketV)
    requires
        s1.mode is Ip,
        s2.mode is Ip,
        same_but_mode(s1, s2),
    ensures
        same_but_mode(step_packet(s1, p), step_packet(s2, p)),
{
}

pub proof fn lemma_quiet_from_mode(s1: DispatcherV, s2: DispatcherV, t: int, i: int)
    requires
        same_but_mode(s1, s2),
    ensures
        same_but_mode(quiet_from(s1, t, i), quiet_from(s2, t, i)),
        quiet_from(s1, t, i).mode == s1.mode,
        quiet_from(s2, t, i).mode == s2.mode,
    decreases s1.flows.len() - i,
{
    if !(i < 0 || i >= s1.flows.len()) {
        let e = s1.flows[i];
        let cur = e.flow.current_burst();
        if cur is Some && t - cur->Some_0.end > s1.burst_quiet {
            let n1 = DispatcherV {
                flows: s1.flows.update(
                    i,
                    crate::capture::FlowEntryV {
                        key: e.key,
                        flow: e.flow.reset(),
                        idle_since: t,
                        base: e.flow.reset(),
                        run: Seq::empty(),
                    },
                ),
                emitted: s1.emitted.push(cur->Some_0),
                emitted_keys: s1.emitted_keys.push(e.key),
                emitted_runs: s1.emitted_runs.push(
                    crate::capture::RunV { base: e.base, packets: e.run },
                ),
                ..s1
            };
            let n2 = DispatcherV {
                flows: s2.flows.update(
                    i,
                    crate::capture::FlowEntryV {
                        key: e.key,
                        flow: e.flow.reset(),
                        idle_since: t,
                        base: e.flow.reset(),
                        run: Seq::empty(),
                    },
                ),
                emitted: s2.emitted.push(cur->Some_0),
                emitted_keys: s2.emitted_keys.push(e.key),
                emitted_runs: s2.emitted_runs.push(
                    crate::capture::RunV { base: e.base, packets: e.run },
                ),
                ..s2
            };
            lemma_quiet_from_mode(n1, n2, t, i + 1);
        } else {
            lemma_quiet_from_mode(s1, s2, t, i + 1);
        }
    }
}

pub proof fn lemma_reap_from_mode(s1: DispatcherV, s2: DispatcherV, t: int, i: int)
    requires
        same_but_mode(s1, s2),
    ensures
        same_but_mode(reap_from(s1, t, i), reap_from(s2, t, i)),
        reap_from(s1, t, i).mode == s1.mode,
        reap_from(s2, t, i).mode == s2.mode,
    decreases s1.flows.len() - i,
{
    if !(i < 0 || i >= s1.flows.len()) {
        let e = s1.flows[i];
        if e.flow.current_burst() is None && t - e.idle_since > crate::capture::FLOW_IDLE_NANOS {
            let n1 = DispatcherV { flows: s1.flows.remove(i), ..s1 };
            let n2 = DispatcherV { flows: s2.flows.remove(i), ..s2 };
            lemma_reap_from_mode(n1, n2, t, i);
        } else {
            lemma_reap_from_mode(s1, s2, t, i + 1);
        }
    }
}

pub proof fn lemma_replay_from_ip_mode(s1: DispatcherV, s2: DispatcherV, evs: Seq<EventV>)
    requires
        s1.mode is Ip,
        s2.mode is Ip,
        same_but_mode(s1, s2),
    ensures
        same_but_mode(replay_from(s1, evs), replay_from(s2, evs)),
    decreases evs.len(),
{
    if evs.len() > 0 {
        match evs[0] {
            EventV::Packet(p) => lemma_step_packet_ip_mode(s1, s2, p),
            EventV::QuietElapse(t) => {
                lemma_quiet_from_mode(
                    DispatcherV { now: t, ..s1 },
                    DispatcherV { now: t, ..s2 },
                    t,
                    0,
                );
            },
            EventV::ReapIdle(t) => {
                lemma_reap_from_mode(
                    DispatcherV { now: t, ..s1 },
                    DispatcherV { now: t, ..s2 },
                    t,
                    0,
                );
            },
        }
        lemma_replay_from_ip_mode(step_event(s1, evs[0]), step_event(s2, evs[0]), evs.drop_first());
    }
}

/// Port aggregation is idempotent at the engine: the engine itself
/// never reads the aggregation flag, so on identical packet records —
/// in particular on records whose ports already hold the null sentinel
/// — replay with aggregation on emits exactly the bursts of replay with
/// aggregation off. Aggregation acts in the parser alone, which
/// collapses both ports to the sentinel (see
/// `lemma_parse_aggregation_collapses_ports`).
pub proof fn lemma_aggregation_engine_independent(quiet: int, evs: Seq<EventV>)
    ensures
        replay(CaptureType::Ip { aggregate_ports: true }, quiet, evs).emitted == replay(
            CaptureType::Ip { aggregate_ports: false },
            quiet,
            evs,
        ).emitted,
{
    lemma_replay_from_ip_mode(
        initial_state(CaptureType::Ip { aggregate_ports: true }, quiet),
        initial_state(CaptureType::Ip { aggregate_ports: false }, quiet),
        evs,
    );
}

/// A state in which the burst, if any, counts at least as many bytes
/// as packets, and a WLAN flow's last accepted payload is positive.
pub open spec fn positive_state(f: FlowV) -> bool {
    match f.current_burst() {
        Some(b) => {
            &&& b.num_packets >= 1
            &&& b.size >= b.num_packets
            &&& match f {
                FlowV::Wlan(g) => g.last_packet_len >= 1,
                FlowV::Ip(_) => true,
            }
        },
        None => true,
    }
}

pub proof fn lemma_positive_step(f: FlowV, p: PacketV)
    requires
        f.wf(),
        p.wf(),
        f.fits(p),
        p.data_len >= 1,
        positive_state(f),
    ensures
        positive_state(f.step(p)),
        f.step(p).wf(),
{
    lemma_flow_step_burst(f, p);
    match f {
        FlowV::Ip(g) => {
        },
        FlowV::Wlan(g) => {
            match (g.current_burst, p.seq_number) {
                (Some(b), Some(q)) => {
                    let d = seq_diff(q, g.expected_seq_number);
                    if 0 < d && d < g.max_deviation && !g.no_estimation {
                        let est = g.loss_estimate(p);
                        assert(est >= 1);
                        assert(est * d >= 1 * d) by (nonlinear_arith)
                            requires
                                est >= 1,
                                d > 0,
                        ;
                    }
                },
                _ => {
                },
            }
        },
    }
}

/// Every burst built from packets whose payloads all hold at least one
/// byte counts at least one packet and at least one byte — indeed at
/// least as many bytes as packets.
pub proof fn lemma_burst_positive(f: FlowV, ps: Seq<PacketV>)
    requires
        f.wf(),
        positive_state(f),
        flow_run_ok(f, ps),
        forall|i: int| 0 <= i < ps.len() ==> (#[trigger] ps[i]).data_len >= 1,
    ensures
        flow_run(f, ps).wf(),
        positive_state(flow_run(f, ps)),
        match flow_run(f, ps).current_burst() {
            Some(b) => b.num_packets >= 1 && b.size >= 1,
            None => true,
        },
    decreases ps.len(),
{
    if ps.len() > 0 {
        lemma_burst_positive(f, ps.drop_last());
        lemma_positive_step(flow_run(f, ps.drop_last()), ps.last());
    }
}

/// A WLAN flow's state after a run of frames, oldest first.
pub open spec fn wlan_run(g: WlanFlowV, ps: Seq<PacketV>) -> WlanFlowV
    decreases ps.len(),
{
    if ps.len() == 0 {
        g
    } else {
        wlan_run(g, ps.drop_last()).step(ps.last())
    }
}

/// Whether the machine accepts this frame into the burst: the first
/// frame of a burst, an expected frame, or a forward jump within the
/// deviation window. Retransmits and outliers are not accepted.
pub open spec fn wlan_accepted(g: WlanFlowV, p: PacketV) -> bool {
    match (g.current_burst, p.seq_number) {
        (None, Some(_)) => true,
        (Some(_), Some(q)) => {
            let d = seq_diff(q, g.expected_seq_number);
            d == 0 || (0 < d && d < g.max_deviation)
        },
        _ => false,
    }
}

/// How many of the run's frames the machine accepted.
pub open spec fn wlan_accepted_count(g: WlanFlowV, ps: Seq<PacketV>) -> int
    decreases ps.len(),
{
    if ps.len() == 0 {
        0
    } else {
        wlan_accepted_count(g, ps.drop_last()) + (if wlan_accepted(
            wlan_run(g, ps.drop_last()),
            ps.last(),
        ) {
            1int
        } else {
            0int
        })
    }
}

/// In WLAN mode without estimation, a burst's packet count equals the
/// number of accepted frames: retransmits and outliers are never
/// counted.
pub proof fn lemma_wlan_count_no_estimation(g: WlanFlowV, ps: Seq<PacketV>)
    requires
        g.no_estimation,
    ensures
        wlan_run(g, ps).no_estimation,
        match g.current_burst {
            Some(b0) => wlan_run(g, ps).current_burst matches Some(b) && b.num_packets
                == b0.num_packets + wlan_accepted_count(g, ps),
            None => match wlan_run(g, ps).current_burst {
                Some(b) => b.num_packets == wlan_accepted_count(g, ps),
                None => wlan_accepted_count(g, ps) == 0,
            },
        },
    decreases ps.len(),
{
    if ps.len() > 0 {
        lemma_wlan_count_no_estimation(g, ps.drop_last());
    }
}

/// One frame keeps the burst's size bracketed between the least and
/// greatest observed payload times the packet count: accepted frames
/// contribute their own payload, estimated frames the mean of two
/// observed payloads, retransmits and outliers nothing.
pub proof fn lemma_wlan_bracket_step(g: WlanFlowV, p: PacketV, lo: int, hi: int)
    requires
        0 <= lo,
        lo <= p.data_len <= hi,
        g.current_burst is Some ==> lo <= g.last_packet_len <= hi,
        match g.current_burst {
            Some(b) => lo * b.num_packets <= b.size <= hi * b.num_packets && b.num_packets >= 1,
            None => true,
        },
    ensures
        g.step(p).current_burst is Some ==> lo <= g.step(p).last_packet_len <= hi,
        match g.step(p).current_burst {
            Some(b) => lo * b.num_packets <= b.size <= hi * b.num_packets && b.num_packets >= 1,
            None => true,
        },
{
    match (g.current_burst, p.seq_number) {
        (Some(b), Some(q)) => {
            let d = seq_diff(q, g.expected_seq_number);
            let n = b.num_packets;
            if d == 0 || (0 < d && d < g.max_deviation && g.no_estimation) {
                assert(lo * (n + 1) == lo * n + lo) by (nonlinear_arith);
                assert(hi * (n + 1) == hi * n + hi) by (nonlinear_arith);
            } else if 0 < d && d < g.max_deviation {
                let est = g.loss_estimate(p);
                assert(lo <= est <= hi);
                assert(lo * (n + d) <= lo * n + est * d) by (nonlinear_arith)
                    requires
                        lo <= est,
                        d > 0,
                ;
                assert(hi * (n + d) >= hi * n + est * d) by (nonlinear_arith)
                    requires
                        est <= hi,
                        d > 0,
                ;
            }
        },
        _ => {
        },
    }
}

/// Over a whole run of frames with payloads in `[lo, hi]`, the burst's
/// size stays bracketed by `lo` and `hi` times its packet count.
pub proof fn lemma_wlan_bracket(g: WlanFlowV, ps: Seq<PacketV>, lo: int, hi: int)
    requires
        0 <= lo,
        forall|i: int| 0 <= i < ps.len() ==> lo <= (#[trigger] ps[i]).data_len <= hi,
        g.current_burst is Some ==> lo <= g.last_packet_len <= hi,
        match g.current_burst {
            Some(b) => lo * b.num_packets <= b.size <= hi * b.num_packets && b.num_packets >= 1,
            None => true,
        },
    ensures
        wlan_run(g, ps).current_burst is Some ==> lo <= wlan_run(g, ps).last_packet_len <= hi,
        match wlan_run(g, ps).current_burst {
            Some(b) => lo * b.num_packets <= b.size <= hi * b.num_packets && b.num_packets >= 1,
            None => true,
        },
    decreases ps.len(),
{
    if ps.len() > 0 {
        lemma_wlan_bracket(g, ps.drop_last(), lo, hi);
        lemma_wlan_bracket_step(wlan_run(g, ps.drop_last()), ps.last(), lo, hi);
    }
}

/// The mean payload of a WLAN burst, size divided by packets, lies
/// between the least and greatest payload observed over the run — with
/// or without estimation, since estimated frames are priced at means
/// of observed neighbours.
pub proof fn lemma_wlan_mean_within_bounds(g: WlanFlowV, ps: Seq<PacketV>, lo: int, hi: int)
    requires
        0 <= lo,
        forall|i: int| 0 <= i < ps.len() ==> lo <= (#[trigger] ps[i]).data_len <= hi,
        g.current_burst is None,
        wlan_run(g, ps).current_burst is Some,
    ensures
        ({
            let b = wlan_run(g, ps).current_burst->Some_0;
            lo <= b.size / b.num_packets <= hi
        }),
{
    lemma_wlan_bracket(g, ps, lo, hi);
    let b = wlan_run(g, ps).current_burst->Some_0;
    assert(lo <= b.size / b.num_packets) by (nonlinear_arith)
        requires
            lo * b.num_packets <= b.size,
            b.num_packets >= 1,
            lo >= 0,
    ;
    assert(b.size / b.num_packets <= hi) by (nonlinear_arith)
        requires
            b.size <= hi * b.num_packets,
            b.num_packets >= 1,
    ;
}

/// A run that starts with no burst in progress and receives at least
/// one packet ends with a burst whose span is at most its number of
/// inter-packet gaps — one fewer than its packets — times the quiet
/// interval.
pub proof fn lemma_burst_span_from_empty(f: FlowV, ps: Seq<PacketV>, quiet: int)
    requires
        f.wf(),
        quiet >= 0,
        f.current_burst() is None,
        flow_run_ok(f, ps),
        flow_run_gaps_ok(f, ps, quiet),
    ensures
        flow_run(f, ps).wf(),
        ps.len() >= 1 ==> (flow_run(f, ps).current_burst() matches Some(b) && b.end - b.start <= (
        ps.len() - 1) * quiet),
    decreases ps.len(),
{
    if ps.len() > 0 {
        let g = flow_run(f, ps.drop_last());
        let p = ps.last();
        lemma_burst_span_from_empty(f, ps.drop_last(), quiet);
        lemma_flow_step_burst(g, p);
        if ps.len() == 1 {
            assert(g == f);
        } else {
            let k = ps.len() - 2;
            assert((k + 1) * quiet == k * quiet + quiet) by (nonlinear_arith);
        }
    }
}

/// Running the flow machine on a WLAN state is running the WLAN machine.
pub proof fn lemma_flow_run_wlan(g: WlanFlowV, ps: Seq<PacketV>)
    ensures
        flow_run(FlowV::Wlan(g), ps) == FlowV::Wlan(wlan_run(g, ps)),
    decreases ps.len(),
{
    if ps.len() > 0 {
        lemma_flow_run_wlan(g, ps.drop_last());
    }
}

/// Every emitted burst built from packets whose payloads all hold at
/// least one byte counts at least as many bytes as packets — in
/// particular at least one of each.
pub proof fn lemma_emitted_positive(s: DispatcherV, i: int)
    requires
        s.inv(),
        0 <= i < s.emitted.len(),
        forall|m: int|
            0 <= m < s.emitted_runs[i].packets.len() ==> (#[trigger] s.emitted_runs[i].packets[m]).data_len
                >= 1,
    ensures
        s.emitted[i].num_packets >= 1,
        s.emitted[i].size >= s.emitted[i].num_packets,
        s.emitted[i].size >= 1,
{
    lemma_burst_positive(s.emitted_runs[i].base, s.emitted_runs[i].packets);
}

/// Every emitted burst spans at most its number of inter-packet gaps —
/// one fewer than the packets handed to it — times the quiet interval:
/// no individual gap within a burst exceeds that interval.
pub proof fn lemma_emitted_span(s: DispatcherV, i: int)
    requires
        s.inv(),
        0 <= i < s.emitted.len(),
    ensures
        s.emitted_runs[i].packets.len() >= 1,
        s.emitted[i].end - s.emitted[i].start <= (s.emitted_runs[i].packets.len() - 1)
            * s.burst_quiet,
{
    let base = s.emitted_runs[i].base;
    let ps = s.emitted_runs[i].packets;
    if ps.len() == 0 {
        assert(flow_run(base, ps) == base);
    }
    lemma_burst_span_from_empty(base, ps, s.burst_quiet);
}

/// In WLAN mode without estimation the packet count of every emitted
/// burst equals the number of accepted frames of its run: retransmits
/// and outliers are never counted.
pub proof fn lemma_emitted_count_no_estimation(s: DispatcherV, i: int)
    requires
        s.inv(),
        s.mode matches CaptureType::Wlan { no_estimation, .. } && no_estimation,
        0 <= i < s.emitted.len(),
    ensures
        s.emitted_runs[i].base matches FlowV::Wlan(g) && s.emitted[i].num_packets
            == wlan_accepted_count(g, s.emitted_runs[i].packets),
{
    let base = s.emitted_runs[i].base;
    let ps = s.emitted_runs[i].packets;
    match base {
        FlowV::Wlan(g) => {
            lemma_flow_run_wlan(g, ps);
            lemma_wlan_count_no_estimation(g, ps);
        },
        FlowV::Ip(_) => {
            assert(false);
        },
    }
}

/// In WLAN mode the mean payload of every emitted burst, size divided
/// by packets, lies between the least and greatest payload observed
/// over its run: estimated frames are priced at means of observed
/// neighbours.
pub proof fn lemma_emitted_mean_within_bounds(s: DispatcherV, i: int, lo: int, hi: int)
    requires
        s.inv(),
        s.mode is Wlan,
        0 <= i < s.emitted.len(),
        0 <= lo,
        forall|m: int|
            0 <= m < s.emitted_runs[i].packets.len() ==> lo <= (
            #[trigger] s.emitted_runs[i].packets[m]).data_len <= hi,
    ensures
        lo <= s.emitted[i].size / s.emitted[i].num_packets <= hi,
{
    let base = s.emitted_runs[i].base;
    let ps = s.emitted_runs[i].packets;
    match base {
        FlowV::Wlan(g) => {
            lemma_flow_run_wlan(g, ps);
            lemma_wlan_mean_within_bounds(g, ps, lo, hi);
        },
        FlowV::Ip(_) => {
            assert(false);
        },
    }
}

/// Under port aggregation an IP line parses to the same record with
/// both ports collapsed to the null sentinel: whenever a line parses
/// without aggregation, it parses with aggregation on, to the
/// ports-collapsed record.
pub proof fn lemma_parse_aggregation_collapses_ports(line: Seq<u8>)
    requires
        spec_parse(line, CaptureType::Ip { aggregate_ports: false }) is Ok,
    ensures
        spec_parse(line, CaptureType::Ip { aggregate_ports: true }) is Ok,
        spec_parse(line, CaptureType::Ip { aggregate_ports: true })->Ok_0 == (PacketV {
            src_port: 0,
            dst_port: 0,
            ..spec_parse(line, CaptureType::Ip { aggregate_ports: false })->Ok_0
        }),
{
}

} // verus!
