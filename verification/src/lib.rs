//! Verified core of a single-chip AC line monitor: the fixed-capacity ring
//! buffers used for waveform capture and serial transmit queuing, the
//! zero-crossing cycle detector with its per-epoch counters, the two-level
//! epoch scheduler, and the decimal text formatting for the serial records.
//!
//! Hardware register access, interrupt plumbing and the floating-point
//! smoothing/RMS arithmetic live outside this crate; everything here is
//! integer state-machine logic with full functional contracts.

pub mod format;
pub mod measure;
pub mod ring;
pub mod serial;

pub use ring::RingBufferIndex16bit;
pub use ring::RingBufferIndex8bit;
