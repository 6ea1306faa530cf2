//! The frame pacer's decision logic: a state machine over a fixed ring of
//! fence slots that bounds the number of in-flight submissions to the ring's
//! depth.
//!
//! The pacer performs no device work itself. A driver asks [`FramePacer::next_step`]
//! what to do — wait on a slot's fence, reset it, create a counter, send it to
//! the reclamation worker, submit the work unit — performs that step against
//! the device, and reports the outcome through [`FramePacer::handle`]. Any
//! fatal outcome halts the pacer; a fence-wait timeout is reported to the
//! caller, whose policy decides between retry and abort.

use vstd::prelude::*;
use crate::counter::Counter;
use crate::COUNTER_TARGET;

verus! {

/// The fatal and recoverable failures of the core, named after their causes.
#[derive(Clone, Copy, PartialEq, Eq, Structural, Debug)]
pub enum CoreError {
    /// The device rejected or failed a submission. Fatal for the pacer.
    SubmissionError,
    /// A fence wait or reset failed for a reason other than a timeout.
    /// Fatal for the pacer.
    SyncWaitError,
    /// A bounded fence wait ran out. Recoverable: the caller decides between
    /// retrying the wait and aborting.
    SyncTimeout,
    /// Reading or destroying a counter failed; the handle's state is unknown.
    /// Fatal for the reclamation worker.
    ReclamationError,
    /// The send of a counter failed because the reclamation worker has gone.
    /// Fatal for the pacer, since the counter would leak.
    ChannelError,
}

/// Where the pacer stands within one iteration of its loop.
#[derive(Clone, Copy, PartialEq, Eq, Structural, Debug)]
pub enum PacerPhase {
    /// About to block on the current slot's fence.
    AwaitFence,
    /// The fence was seen signaled; about to reset it.
    ResetFence,
    /// About to create this iteration's completion counter.
    CreateCounter,
    /// About to hand the counter to the reclamation worker.
    SendCounter,
    /// About to submit the work unit, tagged with the slot's fence and the
    /// counter.
    SubmitWork,
    /// A fatal outcome was reported; the pacer does nothing further.
    Halted,
}

/// The device or channel work the driver must perform next.
#[derive(Clone, Copy, PartialEq, Eq, Structural, Debug)]
pub enum PacerStep {
    /// Block until the fence of `slot` is signaled.
    WaitFence { slot: usize },
    /// Reset the fence of `slot` to unsignaled.
    ResetFence { slot: usize },
    /// Create a completion counter at the counter's initial value.
    CreateCounter { counter: Counter },
    /// Send the counter to the reclamation worker.
    SendCounter { counter: Counter },
    /// Submit the work unit; the device signals the fence of `slot` and
    /// advances the counter to its target on completion.
    SubmitWork { slot: usize, counter: Counter },
    /// Nothing: the pacer has halted on a fatal outcome.
    Rest,
}

/// The outcome of the step the driver just performed.
#[derive(Clone, Copy, PartialEq, Eq, Structural, Debug)]
pub enum PacerEvent {
    /// The fence wait returned with the fence signaled.
    WaitOk,
    /// The bounded fence wait timed out.
    WaitTimedOut,
    /// The fence wait failed outright.
    WaitFailed,
    /// The fence reset succeeded.
    ResetOk,
    /// The fence reset failed.
    ResetFailed,
    /// The completion counter exists, at its initial value.
    CounterCreated,
    /// The counter was handed to the reclamation worker.
    SendOk,
    /// The channel to the reclamation worker is gone.
    SendFailed,
    /// The submission was accepted.
    SubmitOk,
    /// The device rejected or failed the submission.
    SubmitFailed,
}

/// The frame pacer's state. The ring of fences itself lives with the driver;
/// the pacer tracks which slot is current and what must happen next.
pub struct FramePacer {
    /// Number of ring slots: the pipeline depth, and so the bound on
    /// concurrently in-flight submissions. Positive and fixed.
    pub depth: usize,
    /// The current ring slot, always below `depth`.
    pub slot: usize,
    /// Where the pacer stands within the current iteration.
    pub phase: PacerPhase,
    /// Identifier for the counter of the current iteration; every earlier
    /// identifier has been used, every later one is fresh.
    pub next_id: u64,
    /// Completed iterations: submissions accepted by the device.
    pub submitted: u64,
}

impl FramePacer {
    /// Well-formed: the ring has at least one slot and the current slot lies
    /// inside it.
    pub open spec fn wf(self) -> bool {
        0 < self.depth && self.slot < self.depth
    }

    /// The counter of the current iteration: fresh identifier, initial value
    /// zero, the fixed non-zero target.
    pub open spec fn spec_current_counter(self) -> Counter {
        Counter { id: self.next_id, initial: 0, target: COUNTER_TARGET }
    }

    /// Which outcomes the driver may report in the current phase: exactly the
    /// outcomes of the step the pacer asked for.
    pub open spec fn accepts(self, ev: PacerEvent) -> bool {
        match self.phase {
            PacerPhase::AwaitFence =>
                ev is WaitOk || ev is WaitTimedOut || ev is WaitFailed,
            PacerPhase::ResetFence => ev is ResetOk || ev is ResetFailed,
            PacerPhase::CreateCounter => ev is CounterCreated,
            PacerPhase::SendCounter => ev is SendOk || ev is SendFailed,
            PacerPhase::SubmitWork => ev is SubmitOk || ev is SubmitFailed,
            PacerPhase::Halted => false,
        }
    }

    /// The step the pacer asks for in each phase.
    pub open spec fn spec_next_step(self) -> PacerStep {
        match self.phase {
            PacerPhase::AwaitFence => PacerStep::WaitFence { slot: self.slot },
            PacerPhase::ResetFence => PacerStep::ResetFence { slot: self.slot },
            PacerPhase::CreateCounter =>
                PacerStep::CreateCounter { counter: self.spec_current_counter() },
            PacerPhase::SendCounter =>
                PacerStep::SendCounter { counter: self.spec_current_counter() },
            PacerPhase::SubmitWork =>
                PacerStep::SubmitWork { slot: self.slot, counter: self.spec_current_counter() },
            PacerPhase::Halted => PacerStep::Rest,
        }
    }

    /// The full transition relation: the state after an outcome is reported,
    /// and the error surfaced to the caller, if any. A timed-out wait leaves
    /// the state unchanged — the caller may retry the wait or abort. Every
    /// other failure halts the pacer and changes nothing but the phase, so a
    /// fault never corrupts the ring bookkeeping.
    pub open spec fn spec_handle(self, ev: PacerEvent) -> (FramePacer, Option<CoreError>) {
        match ev {
            PacerEvent::WaitOk =>
                (FramePacer { phase: PacerPhase::ResetFence, ..self }, None),
            PacerEvent::WaitTimedOut => (self, Some(CoreError::SyncTimeout)),
            PacerEvent::WaitFailed =>
                (FramePacer { phase: PacerPhase::Halted, ..self }, Some(CoreError::SyncWaitError)),
            PacerEvent::ResetOk =>
                (FramePacer { phase: PacerPhase::CreateCounter, ..self }, None),
            PacerEvent::ResetFailed =>
                (FramePacer { phase: PacerPhase::Halted, ..self }, Some(CoreError::SyncWaitError)),
            PacerEvent::CounterCreated =>
                (FramePacer { phase: PacerPhase::SendCounter, ..self }, None),
            PacerEvent::SendOk =>
                (FramePacer { phase: PacerPhase::SubmitWork, ..self }, None),
            PacerEvent::SendFailed =>
                (FramePacer { phase: PacerPhase::Halted, ..self }, Some(CoreError::ChannelError)),
            PacerEvent::SubmitOk => (
                FramePacer {
                    phase: PacerPhase::AwaitFence,
                    slot: (((self.slot + 1) as int % self.depth as int) as usize),
                    next_id: (self.next_id + 1) as u64,
                    submitted: (self.submitted + 1) as u64,
                    ..self
                },
                None,
            ),
            PacerEvent::SubmitFailed =>
                (FramePacer { phase: PacerPhase::Halted, ..self }, Some(CoreError::SubmissionError)),
        }
    }

    /// A fresh pacer over a ring of `depth` slots. The driver must have
    /// created the `depth` fences in the signaled state, so that the first
    /// pass over the ring does not block.
    pub fn new(depth: usize) -> (p: FramePacer)
        requires
            0 < depth,
        ensures
            p.wf(),
            p == (FramePacer {
                depth,
                slot: 0,
                phase: PacerPhase::AwaitFence,
                next_id: 0,
                submitted: 0,
            }),
    {
        FramePacer { depth, slot: 0, phase: PacerPhase::AwaitFence, next_id: 0, submitted: 0 }
    }

    /// The step the driver must perform next.
    pub fn next_step(&self) -> (s: PacerStep)
        ensures
            s == self.spec_next_step(),
    {
        match self.phase {
            PacerPhase::AwaitFence => PacerStep::WaitFence { slot: self.slot },
            PacerPhase::ResetFence => PacerStep::ResetFence { slot: self.slot },
            PacerPhase::CreateCounter => PacerStep::CreateCounter {
                counter: Counter { id: self.next_id, initial: 0, target: COUNTER_TARGET },
            },
            PacerPhase::SendCounter => PacerStep::SendCounter {
                counter: Counter { id: self.next_id, initial: 0, target: COUNTER_TARGET },
            },
            PacerPhase::SubmitWork => PacerStep::SubmitWork {
                slot: self.slot,
                counter: Counter { id: self.next_id, initial: 0, target: COUNTER_TARGET },
            },
            PacerPhase::Halted => PacerStep::Rest,
        }
    }

    /// Report the outcome of the step just performed. Returns the error to
    /// surface, if any; after a fatal error the pacer is halted and asks for
    /// nothing further.
    pub fn handle(&mut self, ev: PacerEvent) -> (r: Option<CoreError>)
        requires
            old(self).wf(),
            old(self).accepts(ev),
            old(self).next_id < u64::MAX,
            old(self).submitted < u64::MAX,
        ensures
            (*final(self), r) == old(self).spec_handle(ev),
            final(self).wf(),
    {
        match ev {
            PacerEvent::WaitOk => {
                self.phase = PacerPhase::ResetFence;
                None
            },
            PacerEvent::WaitTimedOut => Some(CoreError::SyncTimeout),
            PacerEvent::WaitFailed => {
                self.phase = PacerPhase::Halted;
                Some(CoreError::SyncWaitError)
            },
            PacerEvent::ResetOk => {
                self.phase = PacerPhase::CreateCounter;
                None
            },
            PacerEvent::ResetFailed => {
                self.phase = PacerPhase::Halted;
                Some(CoreError::SyncWaitError)
            },
            PacerEvent::CounterCreated => {
                self.phase = PacerPhase::SendCounter;
                None
            },
            PacerEvent::SendOk => {
                self.phase = PacerPhase::SubmitWork;
                None
            },
            PacerEvent::SendFailed => {
                self.phase = PacerPhase::Halted;
                Some(CoreError::ChannelError)
            },
            PacerEvent::SubmitOk => {
                proof {
                    let s = self.slot as int;
                    let d = self.depth as int;
                    if s + 1 == d {
                        assert((s + 1) % d == 0) by (nonlinear_arith)
                            requires 0 < d && s + 1 == d;
                    } else {
                        assert((s + 1) % d == s + 1) by (nonlinear_arith)
                            requires 0 <= s + 1 < d;
                    }
                }
                self.phase = PacerPhase::AwaitFence;
                self.slot = if self.slot + 1 == self.depth { 0 } else { self.slot + 1 };
                self.next_id = self.next_id + 1;
                self.submitted = self.submitted + 1;
                None
            },
            PacerEvent::SubmitFailed => {
                self.phase = PacerPhase::Halted;
                Some(CoreError::SubmissionError)
            },
        }
    }
}

/// Every reported outcome keeps the pacer well formed: the current slot never
/// leaves the ring.
pub proof fn lemma_handle_preserves_wf(p: FramePacer, ev: PacerEvent)
    requires
        p.wf(),
    ensures
        p.spec_handle(ev).0.wf(),
{
}

/// A failure never corrupts the ring bookkeeping: whenever an outcome
/// surfaces an error, the slot, the depth, the counter identifiers and the
/// submission count are exactly what they were, so submissions not yet issued
/// find the ring state intact. A fatal outcome moreover halts the pacer; only
/// a wait timeout leaves it running, for the caller to retry.
pub proof fn lemma_failure_preserves_ring_state(p: FramePacer, ev: PacerEvent)
    requires
        p.wf(),
        p.accepts(ev),
        p.spec_handle(ev).1 is Some,
    ensures
        p.spec_handle(ev).0.slot == p.slot,
        p.spec_handle(ev).0.depth == p.depth,
        p.spec_handle(ev).0.next_id == p.next_id,
        p.spec_handle(ev).0.submitted == p.submitted,
        !(ev is WaitTimedOut) ==> p.spec_handle(ev).0.phase is Halted,
        ev is WaitTimedOut ==> p.spec_handle(ev).0 == p,
{
}

/// Successful iterations walk the ring strictly in order: an accepted
/// submission advances the slot by exactly one, cyclically, and counts one
/// more submission. Reuse of ring resources is therefore first-in first-out
/// by slot.
pub proof fn lemma_submit_advances_ring(p: FramePacer, ev: PacerEvent)
    requires
        p.wf(),
        p.accepts(ev),
        ev is SubmitOk,
        p.next_id < u64::MAX,
        p.submitted < u64::MAX,
    ensures
        p.spec_handle(ev).0.slot == ((p.slot + 1) as int % p.depth as int),
        p.spec_handle(ev).0.submitted == p.submitted + 1,
        p.spec_handle(ev).0.next_id == p.next_id + 1,
        p.spec_handle(ev).0.phase is AwaitFence,
{
}

} // verus!
