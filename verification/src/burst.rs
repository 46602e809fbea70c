use vstd::prelude::*;

use crate::record::{Packet, PacketV};

verus! {

/// Mathematical view of a burst: endpoints as byte sequences, times in
/// integer nanoseconds, counts as unbounded integers.
pub ghost struct BurstV {
    pub src: Seq<u8>,
    pub dst: Seq<u8>,
    pub src_port: int,
    pub dst_port: int,
    pub start: int,
    pub end: int,
    pub num_packets: int,
    pub size: int,
}

impl BurstV {
    /// The burst invariant: it spans a non-empty, well-ordered time range,
    /// counts at least one packet, and every field fits its machine type.
    pub open spec fn wf(self) -> bool {
        &&& 0 <= self.start <= self.end <= u64::MAX
        &&& 1 <= self.num_packets <= u16::MAX
        &&& 0 <= self.size <= u32::MAX
        &&& 0 <= self.src_port <= u16::MAX
        &&& 0 <= self.dst_port <= u16::MAX
    }

    /// The burst a single packet starts: both ends at the packet's
    /// timestamp, one packet counted, the payload as its size.
    pub open spec fn from_packet(p: PacketV) -> BurstV {
        BurstV {
            src: p.src,
            dst: p.dst,
            src_port: p.src_port,
            dst_port: p.dst_port,
            start: p.time,
            end: p.time,
            num_packets: 1,
            size: p.data_len,
        }
    }
}

/// A maximal run of packets of one flow in which no inter-packet
/// timestamp gap exceeds the configured quiet interval. Mutable while
/// current; emitted downstream exactly once and never modified after.
#[derive(Debug)]
pub struct Burst {
    pub src: Vec<u8>,
    pub dst: Vec<u8>,
    pub src_port: u16,
    pub dst_port: u16,
    pub start: u64,
    pub end: u64,
    pub num_packets: u16,
    pub size: u32,
}

impl View for Burst {
    type V = BurstV;

    open spec fn view(&self) -> BurstV {
        BurstV {
            src: self.src@,
            dst: self.dst@,
            src_port: self.src_port as int,
            dst_port: self.dst_port as int,
            start: self.start as int,
            end: self.end as int,
            num_packets: self.num_packets as int,
            size: self.size as int,
        }
    }
}

impl Burst {
    /// Initialize a burst from the first packet of a new run.
    pub fn from_packet(p: &Packet) -> (b: Burst)
        ensures
            b@ == BurstV::from_packet(p@),
            b@.wf(),
    {
        Burst {
            src: p.src.clone(),
            dst: p.dst.clone(),
            src_port: p.src_port,
            dst_port: p.dst_port,
            start: p.time,
            end: p.time,
            num_packets: 1,
            size: p.data_len,
        }
    }
}

} // verus!
