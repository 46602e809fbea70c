use vstd::prelude::*;

use crate::burst::{Burst, BurstV};

verus! {

/// The output filter: optional bounds on a burst's byte size and packet
/// count. All four bounds are strict: a burst is dropped only when
/// strictly below a minimum or strictly above a maximum. Survivors are
/// numbered from one in emission order and written to the sink.
pub struct OutputWriter {
    pub min_bytes: Option<u32>,
    pub max_bytes: Option<u32>,
    pub min_packets: Option<u16>,
    pub max_packets: Option<u16>,
}

/// Whether a burst passes the configured bounds.
pub open spec fn accepts_spec(w: OutputWriter, b: BurstV) -> bool {
    &&& match w.min_bytes {
        Some(m) => b.size >= m,
        None => true,
    }
    &&& match w.max_bytes {
        Some(m) => b.size <= m,
        None => true,
    }
    &&& match w.min_packets {
        Some(m) => b.num_packets >= m,
        None => true,
    }
    &&& match w.max_packets {
        Some(m) => b.num_packets <= m,
        None => true,
    }
}

impl OutputWriter {
    pub fn new(
        min_bytes: Option<u32>,
        max_bytes: Option<u32>,
        min_packets: Option<u16>,
        max_packets: Option<u16>,
    ) -> (w: OutputWriter)
        ensures
            w.min_bytes == min_bytes,
            w.max_bytes == max_bytes,
            w.min_packets == min_packets,
            w.max_packets == max_packets,
    {
        OutputWriter { min_bytes, max_bytes, min_packets, max_packets }
    }

    /// Whether a burst survives the filter, exactly the published
    /// bounds: dropped if and only if some set minimum is undercut or
    /// some set maximum exceeded.
    pub fn accepts(&self, b: &Burst) -> (r: bool)
        ensures
            r == accepts_spec(*self, b@),
    {
        let drop = (match self.min_bytes {
            Some(m) => b.size < m,
            None => false,
        }) || (match self.max_bytes {
            Some(m) => b.size > m,
            None => false,
        }) || (match self.min_packets {
            Some(m) => b.num_packets < m,
            None => false,
        }) || (match self.max_packets {
            Some(m) => b.num_packets > m,
            None => false,
        });
        !drop
    }
}

} // verus!
