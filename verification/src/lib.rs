//! Transport and session plane of a low-latency one-to-one remote desktop.
//!
//! A capture endpoint packetizes encoded media into sequence-numbered UDP
//! datagrams and keeps a bounded retransmission history; a display endpoint
//! reassembles the stream in order, requesting lost packets by NACK; a
//! multiplexed TCP control channel carries input events, port-forward
//! tunnels and helper IPC; a rendezvous relay pairs the two endpoints.
//!
//! Platform capture, codecs, presentation and input injection are adapters
//! outside this crate; everything here works on plain values and is verified.

use vstd::prelude::*;

pub mod chan;
pub mod input;
pub mod latency;
pub mod msgs;
pub mod nal;
pub mod packetize;
pub mod portforward;
pub mod relay;
pub mod udp_recv;
pub mod udp_send;
pub mod wire;

verus! {

/// Capture/display period in microseconds (60 frames per second).
pub const FRAME_DURATION_MICROS: u64 = 16_666;

/// Wall-clock age in microseconds beyond which retransmission history
/// entries are evicted.
pub const HISTORY_WINDOW_MICROS: u64 = 1_000_000;

/// Largest media payload carried by a single datagram.
pub const MAX_PACKET_DATA: usize = 1400;

/// Number of frame durations without an in-order delivery after which the
/// receiver abandons an outstanding gap and resynchronizes.
pub const STALL_ESCAPE_FRAMES: u64 = 50;

} // verus!
