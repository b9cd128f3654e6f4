//! A modular audio signal router: processing nodes wired into a graph and
//! executed block by block over buffered links.
//!
//! The crate covers the graph execution engine: the streaming ring buffer
//! with backpressure, the per-node block-transform step, the graph-mutation
//! protocol that restarts only the affected nodes, and the decision logic of
//! the device bridge (configuration selection, downmixing, latency catch-up).
//! Rendering, persistence to disk and the native audio driver are left to the
//! surrounding application.

pub mod devices;
pub mod ids;
pub mod node;
pub mod nodes;
pub mod ports;
pub mod ring;
pub mod routing;
pub mod runtime;

use vstd::prelude::*;

verus! {

/// Number of samples processed per execution-loop iteration.
pub const BLOCK_SIZE: usize = 128;

/// Capacity, in samples, of the ring buffer owned by an inter-node link.
pub const LINK_CAPACITY: usize = 8192;

/// The graph's fixed internal sample rate, in hertz.
pub const CANONICAL_RATE: u32 = 48000;

/// Command-line parameters of the surrounding application.
pub struct Params {
    /// Start up with a clean state instead of restoring the saved graph.
    pub clean: bool,
}

} // verus!
