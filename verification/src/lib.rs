//! A bidirectional byte bridge between a serial port and a single TCP client.
//!
//! The library holds the data-plane logic of the bridge: fixed-capacity
//! byte chunks, single-slot hand-off queues with backpressure, idle-gap
//! framing of the receive stream, and the accept/relay state machine.
//! The hardware drivers, the USB network interface and the TCP stack are
//! external collaborators driven by the surrounding application.

use vstd::prelude::*;

pub mod bridge;
pub mod chunk;
pub mod framer;
pub mod queue;

verus! {

/// Largest number of bytes a single chunk may carry.
pub const CHUNK_CAPACITY: usize = 500;

/// TCP port the bridge listens on.
pub const TCP_PORT: u16 = 1234;

/// Milliseconds a relay half-step waits for its direction to become ready.
pub const RACE_TIMEOUT_MS: u64 = 10;

/// Milliseconds of settle delay after a successful socket write.
pub const SETTLE_MS: u64 = 5;

/// Milliseconds of pacing delay at the end of each relay iteration.
pub const PACING_MS: u64 = 5;

/// Seconds of socket idle timeout and keep-alive.
pub const SOCKET_TIMEOUT_SECS: u64 = 10;

} // verus!
