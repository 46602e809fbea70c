//! Burst aggregation for network packet streams.
//!
//! Packet summaries read from a decoder's field output are grouped per
//! flow into bursts: maximal runs of packets in which the gap between
//! consecutive timestamps never exceeds a configured quiet interval. An
//! IP mode keys flows on addresses and ports; a WLAN mode keys them on
//! MAC pairs and reasons about the circular 12-bit frame sequence space
//! to tolerate retransmitted and lost frames.
//!
//! The pieces, leaves first: `text` tokenizes lines and reads numbers
//! and timestamps; `record` parses one line to a packet; `burst` holds
//! the burst value; `flow` holds the two per-flow state machines;
//! `capture` holds the mode and the dispatcher that routes packets,
//! emits quiesced bursts and reaps idle flows; `output` filters what is
//! written; `laws` states and proves what the whole must satisfy.

pub mod burst;
pub mod capture;
pub mod flow;
pub mod laws;
pub mod output;
pub mod record;
pub mod text;
