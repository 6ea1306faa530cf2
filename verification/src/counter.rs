//! The completion counter as the core sees it: an identifier, the value it
//! started at, and the target value the device advances it to on completion.

use vstd::prelude::*;

verus! {

/// A completion counter handed from the frame pacer to the reclamation
/// worker. The device-side handle it stands for is kept by the driver,
/// keyed by `id`; the core reasons only over these plain values.
#[derive(Clone, Copy, PartialEq, Eq, Structural, Debug)]
pub struct Counter {
    /// Identifier, unique among all counters the pacer has created.
    pub id: u64,
    /// The value the counter was created with.
    pub initial: u64,
    /// The value the device advances the counter to when the tracked
    /// submission completes. Strictly greater than `initial`.
    pub target: u64,
}

impl Counter {
    /// A counter is well formed when completion is observable: the target
    /// lies strictly past the initial value.
    pub open spec fn wf(self) -> bool {
        self.initial < self.target
    }
}

/// Completion as the worker detects it: the value read from the device has
/// moved past the counter's initial value.
pub open spec fn spec_counter_completed(c: Counter, observed: u64) -> bool {
    observed > c.initial
}

/// Decides whether an observed value shows the tracked submission to be
/// complete, so that the counter may be destroyed.
pub fn counter_completed(c: &Counter, observed: u64) -> (r: bool)
    ensures
        r == spec_counter_completed(*c, observed),
{
    observed > c.initial
}

} // verus!
