//! A verified model of a bounded-depth submission pacer with asynchronous
//! counter reclamation.
//!
//! The crate separates the decisions of the two concurrent components — the
//! frame pacer, which reuses a fixed ring of fences to bound the number of
//! in-flight submissions, and the reclamation worker, which owns completion
//! counters and destroys each one once its value has advanced — from the
//! device calls that carry them out. The decision logic lives here, verified;
//! a thin driver performs the device work and reports the outcomes back.

use vstd::prelude::*;

pub mod counter;
pub mod pacer;
pub mod scenario;
pub mod sim;
pub mod worker;

pub use counter::Counter;
pub use counter::counter_completed;
pub use pacer::CoreError;
pub use pacer::FramePacer;
pub use pacer::PacerEvent;
pub use pacer::PacerPhase;
pub use pacer::PacerStep;
pub use scenario::SimStats;
pub use scenario::run_scenario;
pub use sim::ChannelModel;
pub use sim::SimCounterCell;
pub use sim::SimDevice;
pub use sim::SimPending;
pub use worker::ReclamationWorker;

verus! {

/// The target value a completion counter must reach for the submission it
/// tracks to count as finished. Fixed and non-zero, so an advanced counter is
/// distinguishable from a fresh one.
pub const COUNTER_TARGET: u64 = 1337;

} // verus!
