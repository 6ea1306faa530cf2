//! A verified model of the device and the channel, and a harness that runs
//! the pacer and the worker against them.
//!
//! The model stands in for the device driver: fences it signals, completion
//! counters it advances, and a queue of in-flight submissions it completes in
//! order. Its well-formedness invariant carries the safety properties of the
//! core — at most `depth` submissions in flight, a signaled fence means no
//! submission still uses its slot, a destroyed counter had completed — and
//! every operation preserves it.

use vstd::prelude::*;
use vstd::pervasive::VecAdditionalExecFns;
use vstd::set_lib::set_int_range;
use vstd::set_lib::lemma_int_range;
use vstd::set_lib::lemma_len_subset;
use crate::counter::Counter;
use crate::pacer::CoreError;
use crate::COUNTER_TARGET;

verus! {

/// One in-flight submission: the ring slot whose fence the device will
/// signal, and the counter it will advance to its target, on completion.
#[derive(Clone, Copy, PartialEq, Eq, Structural, Debug)]
pub struct SimPending {
    /// The ring slot the submission was issued on.
    pub slot: usize,
    /// The completion counter tagged to the submission.
    pub counter_id: u64,
}

/// The device-side state of one completion counter.
#[derive(Clone, Copy, PartialEq, Eq, Structural, Debug)]
pub struct SimCounterCell {
    /// Current value: starts at zero, advanced to `target` on completion.
    pub value: u64,
    /// The value the device advances the counter to.
    pub target: u64,
    /// Whether the counter object still exists.
    pub alive: bool,
}

/// The simulated device: a ring of fences, the counters ever created, and
/// the in-flight submissions, oldest first.
pub struct SimDevice {
    /// Number of ring slots.
    pub depth: usize,
    /// Fence per ring slot; `true` is signaled.
    pub fences: Vec<bool>,
    /// Every counter ever created; the identifier is the index.
    pub counters: Vec<SimCounterCell>,
    /// In-flight submissions, in submission order.
    pub pending: Vec<SimPending>,
}

impl SimDevice {
    /// Whether some in-flight submission uses ring slot `s`.
    pub open spec fn slot_busy(self, s: int) -> bool {
        exists|k: int| 0 <= k < self.pending@.len() && #[trigger] self.pending@[k].slot == s
    }

    /// Whether some in-flight submission is tagged with counter `id`.
    pub open spec fn counter_pending(self, id: u64) -> bool {
        exists|k: int| 0 <= k < self.pending@.len()
            && #[trigger] self.pending@[k].counter_id == id
    }

    /// The device invariant.
    ///
    /// Fences and slots: one fence per slot; an in-flight submission's slot
    /// lies in the ring, its fence is unsignaled, and no two in-flight
    /// submissions share a slot — so a signaled fence means its slot carries
    /// no in-flight work.
    ///
    /// Counters: every counter's target is the fixed non-zero constant, its
    /// value is either still zero or at the target, an in-flight submission's
    /// counter is alive at zero and tagged to no other submission, and a
    /// counter that has been destroyed had advanced past zero.
    pub open spec fn wf(self) -> bool {
        &&& 0 < self.depth
        &&& self.fences@.len() == self.depth
        &&& forall|i: int| 0 <= i < self.counters@.len() ==> {
            &&& (#[trigger] self.counters@[i]).target == COUNTER_TARGET
            &&& (self.counters@[i].value == 0 || self.counters@[i].value
                == self.counters@[i].target)
            &&& (!self.counters@[i].alive ==> self.counters@[i].value > 0)
        }
        &&& forall|k: int| 0 <= k < self.pending@.len() ==> {
            &&& (#[trigger] self.pending@[k]).slot < self.depth
            &&& self.fences@[self.pending@[k].slot as int] == false
            &&& self.pending@[k].counter_id < self.counters@.len()
            &&& self.counters@[self.pending@[k].counter_id as int].alive
            &&& self.counters@[self.pending@[k].counter_id as int].value == 0
        }
        &&& forall|k1: int, k2: int| 0 <= k1 < k2 < self.pending@.len() ==> {
            &&& (#[trigger] self.pending@[k1]).slot != (#[trigger] self.pending@[k2]).slot
            &&& self.pending@[k1].counter_id != self.pending@[k2].counter_id
        }
    }

    /// A fresh device: `depth` fences, created signaled so the first pass
    /// over the ring does not block; no counters; nothing in flight.
    pub fn new(depth: usize) -> (d: SimDevice)
        requires
            0 < depth,
        ensures
            d.wf(),
            d.depth == depth,
            d.fences@.len() == depth,
            forall|s: int| 0 <= s < depth ==> d.fences@[s] == true,
            d.counters@ == Seq::<SimCounterCell>::empty(),
            d.pending@ == Seq::<SimPending>::empty(),
    {
        let mut fences: Vec<bool> = Vec::new();
        let mut i: usize = 0;
        while i < depth
            invariant
                i <= depth,
                fences@.len() == i,
                forall|s: int| 0 <= s < i ==> fences@[s] == true,
            decreases depth - i,
        {
            fences.push(true);
            i = i + 1;
        }
        SimDevice { depth, fences, counters: Vec::new(), pending: Vec::new() }
    }

    /// Non-blocking read of a fence.
    pub fn fence_signaled(&self, slot: usize) -> (r: bool)
        requires
            slot < self.fences@.len(),
        ensures
            r == self.fences@[slot as int],
    {
        self.fences[slot]
    }

    /// Reset a signaled fence to unsignaled. Only a signaled fence may be
    /// reset — by the invariant its slot then carries no in-flight work, so
    /// the reset never touches a fence a submission still owes a signal to.
    pub fn reset_fence(&mut self, slot: usize)
        requires
            old(self).wf(),
            slot < old(self).depth,
            old(self).fences@[slot as int] == true,
        ensures
            final(self).wf(),
            final(self).fences@ == old(self).fences@.update(slot as int, false),
            final(self).depth == old(self).depth,
            final(self).counters@ == old(self).counters@,
            final(self).pending@ == old(self).pending@,
            !final(self).slot_busy(slot as int),
    {
        proof {
            assert(!old(self).slot_busy(slot as int));
        }
        self.fences.set(slot, false);
    }

    /// Create a completion counter at value zero. Creation does not fail;
    /// the returned identifier is fresh.
    pub fn create_counter(&mut self) -> (id: u64)
        requires
            old(self).wf(),
        ensures
            final(self).wf(),
            id == old(self).counters@.len(),
            final(self).counters@ == old(self).counters@.push(
                SimCounterCell { value: 0, target: COUNTER_TARGET, alive: true },
            ),
            final(self).depth == old(self).depth,
            final(self).fences@ == old(self).fences@,
            final(self).pending@ == old(self).pending@,
    {
        let id = self.counters.len() as u64;
        self.counters.push(SimCounterCell { value: 0, target: COUNTER_TARGET, alive: true });
        id
    }

    /// Non-blocking read of a live counter's current value.
    pub fn read_counter(&self, id: u64) -> (v: u64)
        requires
            id < self.counters@.len(),
            self.counters@[id as int].alive,
        ensures
            v == self.counters@[id as int].value,
    {
        let n = self.counters.len();
        self.counters[id as usize].value
    }

    /// Destroy a counter. Only a live counter whose value has advanced past
    /// zero may be destroyed: destruction happens at most once per counter
    /// and only after the submission it tracked has completed.
    pub fn destroy_counter(&mut self, id: u64)
        requires
            old(self).wf(),
            id < old(self).counters@.len(),
            old(self).counters@[id as int].alive,
            old(self).counters@[id as int].value > 0,
        ensures
            final(self).wf(),
            final(self).counters@ == old(self).counters@.update(
                id as int,
                SimCounterCell {
                    alive: false,
                    ..old(self).counters@[id as int]
                },
            ),
            final(self).depth == old(self).depth,
            final(self).fences@ == old(self).fences@,
            final(self).pending@ == old(self).pending@,
    {
        proof {
            assert forall|k: int| 0 <= k < self.pending@.len()
                implies (#[trigger] self.pending@[k]).counter_id != id by {
                assert(self.counters@[self.pending@[k].counter_id as int].value == 0);
            }
        }
        let n = self.counters.len();
        let cell = self.counters[id as usize];
        self.counters.set(id as usize, SimCounterCell { alive: false, ..cell });
    }

    /// Submit one unit of work on a ring slot, tagged with a fresh counter.
    /// The slot's fence must be reset and its previous submission complete;
    /// the counter must be live, still at zero, and tagged to no other
    /// submission.
    pub fn submit(&mut self, slot: usize, counter_id: u64)
        requires
            old(self).wf(),
            slot < old(self).depth,
            old(self).fences@[slot as int] == false,
            !old(self).slot_busy(slot as int),
            counter_id < old(self).counters@.len(),
            old(self).counters@[counter_id as int].alive,
            old(self).counters@[counter_id as int].value == 0,
            !old(self).counter_pending(counter_id),
        ensures
            final(self).wf(),
            final(self).pending@ == old(self).pending@.push(
                SimPending { slot, counter_id },
            ),
            final(self).depth == old(self).depth,
            final(self).fences@ == old(self).fences@,
            final(self).counters@ == old(self).counters@,
    {
        self.pending.push(SimPending { slot, counter_id });
    }

    /// The device completes the oldest in-flight submission: it signals the
    /// submission's fence and advances its counter to the target.
    pub fn complete_oldest(&mut self)
        requires
            old(self).wf(),
            old(self).pending@.len() > 0,
        ensures
            final(self).wf(),
            final(self).pending@ == old(self).pending@.drop_first(),
            final(self).depth == old(self).depth,
            final(self).fences@ == old(self).fences@.update(
                old(self).pending@[0].slot as int,
                true,
            ),
            final(self).counters@ == old(self).counters@.update(
                old(self).pending@[0].counter_id as int,
                SimCounterCell {
                    value: COUNTER_TARGET,
                    ..old(self).counters@[old(self).pending@[0].counter_id as int]
                },
            ),
    {
        let p = self.pending[0];
        self.pending.remove(0);
        self.fences.set(p.slot, true);
        let n = self.counters.len();
        let cell = self.counters[p.counter_id as usize];
        self.counters.set(p.counter_id as usize, SimCounterCell {
            value: cell.target,
            ..cell
        });
        proof {
            assert(self.pending@ =~= old(self).pending@.drop_first());
            assert forall|k: int| 0 <= k < self.pending@.len()
                implies {
                    &&& (#[trigger] self.pending@[k]).slot < self.depth
                    &&& self.fences@[self.pending@[k].slot as int] == false
                    &&& self.pending@[k].counter_id < self.counters@.len()
                    &&& self.counters@[self.pending@[k].counter_id as int].alive
                    &&& self.counters@[self.pending@[k].counter_id as int].value == 0
                } by {
                assert(self.pending@[k] == old(self).pending@[k + 1]);
                assert(old(self).pending@[k + 1].slot != old(self).pending@[0].slot);
                assert(old(self).pending@[k + 1].counter_id
                    != old(self).pending@[0].counter_id);
            }
        }
    }
}

/// Bounded in-flight invariant: a well-formed device never holds more
/// in-flight submissions than the ring has slots, whatever was submitted —
/// each in-flight submission occupies a distinct slot of the ring.
pub proof fn lemma_bounded_in_flight(d: SimDevice)
    requires
        d.wf(),
    ensures
        d.pending@.len() <= d.depth,
{
    let slots = d.pending@.map(|k: int, p: SimPending| p.slot as int);
    assert(slots.no_duplicates()) by {
        assert forall|k1: int, k2: int|
            0 <= k1 < slots.len() && 0 <= k2 < slots.len() && k1 != k2
            implies slots[k1] != slots[k2] by {
            if k1 < k2 {
                assert(d.pending@[k1].slot != d.pending@[k2].slot);
            } else {
                assert(d.pending@[k2].slot != d.pending@[k1].slot);
            }
        }
    }
    slots.unique_seq_to_set();
    let range = set_int_range(0, d.depth as int);
    lemma_int_range(0, d.depth as int);
    assert(slots.to_set().subset_of(range)) by {
        assert forall|s: int| slots.to_set().contains(s) implies range.contains(s) by {
            let k = choose|k: int| 0 <= k < slots.len() && slots[k] == s;
            assert(d.pending@[k].slot < d.depth);
        }
    }
    lemma_len_subset(slots.to_set(), range);
}

/// No premature reuse: on a well-formed device a signaled fence's slot
/// carries no in-flight submission, so a fence is only ever waited on or
/// reset once the previous submission that used its slot has completed.
pub proof fn lemma_signaled_slot_not_busy(d: SimDevice, slot: int)
    requires
        d.wf(),
        0 <= slot < d.depth,
        d.fences@[slot] == true,
    ensures
        !d.slot_busy(slot),
{
}

/// A destroyed counter had completed: on a well-formed device every counter
/// that no longer exists had advanced past its initial value — to its target
/// — before it was destroyed.
pub proof fn lemma_destroyed_counter_had_completed(d: SimDevice, id: int)
    requires
        d.wf(),
        0 <= id < d.counters@.len(),
        !d.counters@[id].alive,
    ensures
        d.counters@[id].value == d.counters@[id].target,
        d.counters@[id].value > 0,
{
}

/// The one-way channel from the pacer to the worker: unbounded, so a send
/// never waits for the receiver.
pub struct ChannelModel {
    /// Messages sent and not yet received, oldest first.
    queue: Vec<Counter>,
    /// Whether the receiving side still exists.
    receiver_alive: bool,
}

impl ChannelModel {
    /// The messages in flight.
    pub closed spec fn queued(self) -> Seq<Counter> {
        self.queue@
    }

    /// Whether the receiving side still exists.
    pub closed spec fn is_receiver_alive(self) -> bool {
        self.receiver_alive
    }

    /// A fresh, empty channel with its receiver alive.
    pub fn new() -> (c: ChannelModel)
        ensures
            c.queued() == Seq::<Counter>::empty(),
            c.is_receiver_alive(),
    {
        ChannelModel { queue: Vec::new(), receiver_alive: true }
    }

    /// Drop the receiving side; later sends fail.
    pub fn close_receiver(&mut self)
        ensures
            final(self).queued() == old(self).queued(),
            !final(self).is_receiver_alive(),
    {
        self.receiver_alive = false;
    }

    /// Fire-and-forget send. Succeeds exactly when the receiver is alive —
    /// never on account of the queue, which is unbounded — and appends the
    /// counter to the queue when it does.
    pub fn send(&mut self, c: Counter) -> (ok: bool)
        ensures
            (final(self).queued(), ok) == spec_send_queue(
                old(self).queued(),
                old(self).is_receiver_alive(),
                c,
            ),
            ok == old(self).is_receiver_alive(),
            ok ==> final(self).queued() == old(self).queued().push(c),
            !ok ==> final(self).queued() == old(self).queued(),
            final(self).is_receiver_alive() == old(self).is_receiver_alive(),
    {
        if self.receiver_alive {
            self.queue.push(c);
            true
        } else {
            false
        }
    }

    /// Non-blocking receive of everything currently queued, oldest first.
    pub fn recv_all(&mut self) -> (msgs: Vec<Counter>)
        ensures
            msgs@ == old(self).queued(),
            final(self).queued() == Seq::<Counter>::empty(),
            final(self).is_receiver_alive() == old(self).is_receiver_alive(),
    {
        let mut msgs: Vec<Counter> = Vec::new();
        core::mem::swap(&mut msgs, &mut self.queue);
        msgs
    }
}

/// What a send does to the queue: it succeeds exactly when the receiver is
/// alive, and appends the counter when it does.
pub open spec fn spec_send_queue(
    queue: Seq<Counter>,
    receiver_alive: bool,
    c: Counter,
) -> (Seq<Counter>, bool) {
    if receiver_alive {
        (queue.push(c), true)
    } else {
        (queue, false)
    }
}

/// The channel never blocks the sender: whether a send goes through depends
/// on the receiver being alive alone, never on what is queued. A send into
/// any queue, however long it has grown, fares exactly as a send into any
/// other.
pub proof fn lemma_send_never_blocks(
    q1: Seq<Counter>,
    q2: Seq<Counter>,
    receiver_alive: bool,
    c: Counter,
)
    ensures
        spec_send_queue(q1, receiver_alive, c).1 == spec_send_queue(q2, receiver_alive, c).1,
        spec_send_queue(q1, receiver_alive, c).1 == receiver_alive,
{
}

} // verus!
