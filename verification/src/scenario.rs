//! The two loops run against the simulated device: a pacer iteration, a
//! worker cycle, and a whole run, each verified against the joint invariant
//! that ties the device, the channel, the pacer and the worker together.
//!
//! The invariant carries the system-wide properties: every live counter is
//! owned by exactly one of the channel and the worker, every unsignaled fence
//! belongs to a submission still in flight, and every counter is either
//! completed or still in flight.

use vstd::prelude::*;
use vstd::arithmetic::div_mod::lemma_add_mod_noop;
use vstd::arithmetic::div_mod::lemma_fundamental_div_mod;
use vstd::arithmetic::div_mod::lemma_fundamental_div_mod_converse;
use vstd::arithmetic::div_mod::lemma_small_mod;
use crate::counter::Counter;
use crate::counter::spec_counter_completed;
use crate::pacer::CoreError;
use crate::pacer::FramePacer;
use crate::pacer::PacerEvent;
use crate::sim::ChannelModel;
use crate::sim::SimDevice;
use crate::worker::ReclamationWorker;
use crate::worker::contains_id;
use crate::worker::ids_disjoint;
use crate::worker::ids_distinct;
use crate::worker::lemma_ids_distinct_concat;
use crate::worker::lemma_reclaimed_only_completed;
use crate::worker::lemma_retained_not_completed;
use crate::worker::lemma_sweep_id_partition;
use crate::worker::lemma_sweep_partitions;
use crate::worker::drawn_from;
use crate::worker::reclaimed;
use crate::COUNTER_TARGET;

verus! {

/// Every counter of `s` stands for a live device counter created at zero
/// with the fixed target.
pub open spec fn owned_ok(dev: SimDevice, s: Seq<Counter>) -> bool {
    forall|k: int| 0 <= k < s.len() ==> {
        &&& (#[trigger] s[k]).id < dev.counters@.len()
        &&& dev.counters@[s[k].id as int].alive
        &&& s[k].initial == 0
        &&& s[k].target == COUNTER_TARGET
    }
}

/// Exclusive ownership of the live counters: each is held exactly once, by
/// the channel (in flight to the worker) or by the worker, and nothing else
/// is held.
pub open spec fn tracked_counters(dev: SimDevice, q: Seq<Counter>, l: Seq<Counter>) -> bool {
    &&& ids_distinct(q)
    &&& ids_distinct(l)
    &&& ids_disjoint(q, l)
    &&& owned_ok(dev, q)
    &&& owned_ok(dev, l)
    &&& forall|id: u64| id < dev.counters@.len()
        && (#[trigger] dev.counters@[id as int]).alive
        ==> contains_id(q, id) || contains_id(l, id)
}

/// Every unsignaled fence belongs to a submission still in flight. This is
/// what lets a fence wait terminate: the device owes the fence a signal.
pub open spec fn unsignaled_slots_busy(dev: SimDevice) -> bool {
    forall|s: int| 0 <= s < dev.depth && !(#[trigger] dev.fences@[s]) ==> dev.slot_busy(s)
}

/// Every counter ever created was handed to the device with a submission:
/// each is either completed or still in flight. A failed submission breaks
/// this — its counter will never advance.
pub open spec fn all_submitted(dev: SimDevice) -> bool {
    forall|id: u64| id < dev.counters@.len() ==> {
        ||| (#[trigger] dev.counters@[id as int]).value == dev.counters@[id as int].target
        ||| dev.counter_pending(id)
    }
}

/// Block until the fence of `slot` is signaled, the device completing
/// in-flight submissions, oldest first, until it is. Counters only advance;
/// nothing is created or destroyed.
fn wait_for_slot(dev: &mut SimDevice, slot: usize)
    requires
        old(dev).wf(),
        slot < old(dev).depth,
        unsignaled_slots_busy(*old(dev)),
    ensures
        final(dev).wf(),
        final(dev).depth == old(dev).depth,
        final(dev).fences@.len() == old(dev).fences@.len(),
        final(dev).fences@[slot as int] == true,
        unsignaled_slots_busy(*final(dev)),
        final(dev).counters@.len() == old(dev).counters@.len(),
        forall|id: int| 0 <= id < old(dev).counters@.len() ==> {
            &&& (#[trigger] final(dev).counters@[id]).alive == old(dev).counters@[id].alive
            &&& final(dev).counters@[id].target == old(dev).counters@[id].target
            &&& (final(dev).counters@[id].value == old(dev).counters@[id].value
                || (old(dev).counters@[id].value == 0
                    && final(dev).counters@[id].value == final(dev).counters@[id].target))
        },
        all_submitted(*old(dev)) ==> all_submitted(*final(dev)),
{
    while !dev.fence_signaled(slot)
        invariant
            dev.wf(),
            slot < dev.depth,
            dev.depth == old(dev).depth,
            unsignaled_slots_busy(*dev),
            dev.counters@.len() == old(dev).counters@.len(),
            forall|id: int| 0 <= id < old(dev).counters@.len() ==> {
                &&& (#[trigger] dev.counters@[id]).alive == old(dev).counters@[id].alive
                &&& dev.counters@[id].target == old(dev).counters@[id].target
                &&& (dev.counters@[id].value == old(dev).counters@[id].value
                    || (old(dev).counters@[id].value == 0
                        && dev.counters@[id].value == dev.counters@[id].target))
            },
            all_submitted(*old(dev)) ==> all_submitted(*dev),
        decreases dev.pending@.len(),
    {
        proof {
            assert(dev.slot_busy(slot as int));
            assert(dev.pending@.len() > 0);
        }
        let ghost prev = *dev;
        dev.complete_oldest();
        proof {
            assert forall|s: int| 0 <= s < dev.depth && !(#[trigger] dev.fences@[s])
                implies dev.slot_busy(s) by {
                assert(!prev.fences@[s]);
                assert(prev.slot_busy(s));
                let k = choose|k: int| 0 <= k < prev.pending@.len()
                    && #[trigger] prev.pending@[k].slot == s;
                assert(k != 0);
                assert(dev.pending@[k - 1] == prev.pending@[k]);
            }
            assert forall|id: u64|
                id < dev.counters@.len() && all_submitted(prev)
                implies {
                    ||| (#[trigger] dev.counters@[id as int]).value
                        == dev.counters@[id as int].target
                    ||| dev.counter_pending(id)
                } by {
                if prev.counters@[id as int].value == prev.counters@[id as int].target {
                } else {
                    assert(prev.counter_pending(id));
                    let k = choose|k: int| 0 <= k < prev.pending@.len()
                        && #[trigger] prev.pending@[k].counter_id == id;
                    if k == 0 {
                        assert(dev.counters@[id as int].value
                            == dev.counters@[id as int].target);
                    } else {
                        assert(dev.pending@[k - 1] == prev.pending@[k]);
                        assert(dev.counter_pending(id));
                    }
                }
            }
        }
    }
}

/// The device completes everything still in flight, oldest first. A counter
/// that was completed or in flight ends at its target; one that was neither
/// — never submitted — keeps its value.
fn complete_all(dev: &mut SimDevice)
    requires
        old(dev).wf(),
    ensures
        final(dev).wf(),
        final(dev).depth == old(dev).depth,
        final(dev).pending@.len() == 0,
        final(dev).counters@.len() == old(dev).counters@.len(),
        forall|id: int| 0 <= id < old(dev).counters@.len() ==> {
            &&& (#[trigger] final(dev).counters@[id]).alive == old(dev).counters@[id].alive
            &&& final(dev).counters@[id].target == old(dev).counters@[id].target
        },
        forall|cid: u64| cid < old(dev).counters@.len()
            && !old(dev).counter_pending(cid)
            ==> (#[trigger] final(dev).counters@[cid as int]).value
                == old(dev).counters@[cid as int].value,
        forall|cid: u64| cid < old(dev).counters@.len()
            && (old(dev).counters@[cid as int].value == old(dev).counters@[cid as int].target
                || old(dev).counter_pending(cid))
            ==> (#[trigger] final(dev).counters@[cid as int]).value
                == final(dev).counters@[cid as int].target,
{
    proof {
        assert forall|k: int| 0 <= k < dev.pending@.len()
            implies old(dev).pending@.contains(#[trigger] dev.pending@[k]) by {
            assert(old(dev).pending@[k] == dev.pending@[k]);
        }
    }
    while dev.pending.len() > 0
        invariant
            dev.wf(),
            dev.depth == old(dev).depth,
            dev.counters@.len() == old(dev).counters@.len(),
            forall|id: int| 0 <= id < old(dev).counters@.len() ==> {
                &&& (#[trigger] dev.counters@[id]).alive == old(dev).counters@[id].alive
                &&& dev.counters@[id].target == old(dev).counters@[id].target
            },
            forall|k: int| 0 <= k < dev.pending@.len()
                ==> old(dev).pending@.contains(#[trigger] dev.pending@[k]),
            forall|cid: u64| cid < old(dev).counters@.len()
                && !old(dev).counter_pending(cid)
                ==> (#[trigger] dev.counters@[cid as int]).value
                    == old(dev).counters@[cid as int].value,
            forall|cid: u64| cid < old(dev).counters@.len()
                && (old(dev).counters@[cid as int].value
                    == old(dev).counters@[cid as int].target
                    || old(dev).counter_pending(cid))
                ==> ((#[trigger] dev.counters@[cid as int]).value
                    == dev.counters@[cid as int].target || dev.counter_pending(cid)),
        decreases dev.pending@.len(),
    {
        let ghost prev = *dev;
        dev.complete_oldest();
        proof {
            let cid0 = prev.pending@[0].counter_id;
            assert(old(dev).pending@.contains(prev.pending@[0]));
            assert(old(dev).counter_pending(cid0)) by {
                let x = choose|x: int| 0 <= x < old(dev).pending@.len()
                    && old(dev).pending@[x] == prev.pending@[0];
                assert(old(dev).pending@[x].counter_id == cid0);
            }
            assert forall|k: int| 0 <= k < dev.pending@.len()
                implies old(dev).pending@.contains(#[trigger] dev.pending@[k]) by {
                assert(dev.pending@[k] == prev.pending@[k + 1]);
            }
            assert forall|cid: u64| cid < old(dev).counters@.len()
                && !old(dev).counter_pending(cid)
                implies (#[trigger] dev.counters@[cid as int]).value
                    == old(dev).counters@[cid as int].value by {
                assert(cid != cid0);
            }
            assert forall|cid: u64| cid < old(dev).counters@.len()
                && (old(dev).counters@[cid as int].value
                    == old(dev).counters@[cid as int].target
                    || old(dev).counter_pending(cid))
                implies ((#[trigger] dev.counters@[cid as int]).value
                    == dev.counters@[cid as int].target || dev.counter_pending(cid)) by {
                if prev.counters@[cid as int].value == prev.counters@[cid as int].target {
                    if cid == cid0 {
                    } else {
                        assert(dev.counters@[cid as int].value
                            == prev.counters@[cid as int].value);
                    }
                } else {
                    assert(prev.counter_pending(cid));
                    let k = choose|k: int| 0 <= k < prev.pending@.len()
                        && #[trigger] prev.pending@[k].counter_id == cid;
                    if k == 0 {
                        assert(dev.counters@[cid as int].value
                            == dev.counters@[cid as int].target);
                    } else {
                        assert(dev.pending@[k - 1] == prev.pending@[k]);
                        assert(dev.counter_pending(cid));
                    }
                }
            }
        }
    }
}

/// One cycle of the reclamation worker: drain the channel, poll every owned
/// counter, destroy exactly those whose value has advanced. Returns how many
/// were destroyed. Afterwards the channel is empty, ownership is exact again,
/// and every counter still owned shows no progress on the device.
fn worker_cycle(
    dev: &mut SimDevice,
    chan: &mut ChannelModel,
    w: &mut ReclamationWorker,
) -> (destroyed: usize)
    requires
        old(dev).wf(),
        old(w).wf(),
        tracked_counters(*old(dev), old(chan).queued(), old(w).live_counters()),
    ensures
        final(dev).wf(),
        final(w).wf(),
        final(chan).queued() == Seq::<Counter>::empty(),
        final(chan).is_receiver_alive() == old(chan).is_receiver_alive(),
        tracked_counters(*final(dev), final(chan).queued(), final(w).live_counters()),
        final(dev).depth == old(dev).depth,
        final(dev).fences@ == old(dev).fences@,
        final(dev).pending@ == old(dev).pending@,
        final(dev).counters@.len() == old(dev).counters@.len(),
        forall|id: u64| id < old(dev).counters@.len() ==> {
            &&& (#[trigger] final(dev).counters@[id as int]).value
                == old(dev).counters@[id as int].value
            &&& final(dev).counters@[id as int].target == old(dev).counters@[id as int].target
            &&& (final(dev).counters@[id as int].alive ==> old(dev).counters@[id as int].alive)
        },
        forall|cid: u64| cid < old(dev).counters@.len()
            && old(dev).counters@[cid as int].value == 0
            ==> (#[trigger] final(dev).counters@[cid as int]).alive
                == old(dev).counters@[cid as int].alive,
        final(w).live_counters().len() + destroyed
            == old(w).live_counters().len() + old(chan).queued().len(),
        forall|k: int| 0 <= k < final(w).live_counters().len()
            ==> final(dev).counters@[
                (#[trigger] final(w).live_counters()[k]).id as int
            ].value == 0,
{
    let ghost l0 = w.live_counters();
    let ghost q0 = old(chan).queued();

    // Drain every message currently in the channel into the worker.
    let msgs = chan.recv_all();
    let mut i: usize = 0;
    while i < msgs.len()
        invariant
            i <= msgs@.len(),
            msgs@ == q0,
            w.live_counters() == l0 + q0.take(i as int),
        decreases msgs@.len() - i,
    {
        w.receive(msgs[i]);
        proof {
            assert((l0 + q0.take(i as int)).push(q0[i as int]) =~= l0 + q0.take(i + 1));
        }
        i += 1;
    }
    let ghost all = w.live_counters();
    proof {
        assert(q0.take(q0.len() as int) =~= q0);
        assert(all == l0 + q0);
        assert forall|x: int, y: int| 0 <= x < l0.len() && 0 <= y < q0.len()
            implies #[trigger] l0[x].id != #[trigger] q0[y].id by {
            assert(q0[y].id != l0[x].id);
        }
        lemma_ids_distinct_concat(l0, q0);
        assert(owned_ok(*dev, all)) by {
            assert forall|k: int| 0 <= k < all.len() implies {
                &&& (#[trigger] all[k]).id < dev.counters@.len()
                &&& dev.counters@[all[k].id as int].alive
                &&& all[k].initial == 0
                &&& all[k].target == COUNTER_TARGET
            } by {
                if k < l0.len() {
                    assert(all[k] == l0[k]);
                } else {
                    assert(all[k] == q0[k - l0.len()]);
                }
            }
        }
    }

    // Poll every owned counter.
    let mut obs: Vec<u64> = Vec::new();
    let n = w.live_len();
    let mut j: usize = 0;
    while j < n
        invariant
            j <= n,
            n == w.live_counters().len(),
            w.live_counters() == all,
            owned_ok(*dev, all),
            dev.wf(),
            obs@.len() == j,
            forall|k: int| 0 <= k < j
                ==> obs@[k] == dev.counters@[(#[trigger] all[k]).id as int].value,
        decreases n - j,
    {
        let c = w.live_at(j);
        let v = dev.read_counter(c.id);
        obs.push(v);
        j += 1;
    }

    // Sweep: the worker gives up every counter whose value has advanced.
    let gone = w.sweep(&obs);
    proof {
        lemma_reclaimed_only_completed(all, obs@);
        lemma_retained_not_completed(all, obs@);
        lemma_sweep_partitions(all, obs@);
        lemma_sweep_id_partition(all, obs@);
    }
    let ghost kept = w.live_counters();
    let ghost dev1 = *dev;

    // Destroy each counter the sweep gave up.
    let m = gone.len();
    let mut d: usize = 0;
    while d < m
        invariant
            d <= m,
            m == gone@.len(),
            gone@ == reclaimed(all, obs@),
            obs@.len() == all.len(),
            ids_distinct(all),
            owned_ok(dev1, all),
            forall|k: int| 0 <= k < all.len()
                ==> obs@[k] == dev1.counters@[(#[trigger] all[k]).id as int].value,
            dev1.wf(),
            dev.wf(),
            dev.depth == dev1.depth,
            dev.fences@ == dev1.fences@,
            dev.pending@ == dev1.pending@,
            dev.counters@.len() == dev1.counters@.len(),
            forall|id: u64| id < dev1.counters@.len() ==> {
                &&& (#[trigger] dev.counters@[id as int]).value
                    == dev1.counters@[id as int].value
                &&& dev.counters@[id as int].target == dev1.counters@[id as int].target
                &&& dev.counters@[id as int].alive == (dev1.counters@[id as int].alive
                    && !contains_id(gone@.take(d as int), id))
            },
        decreases m - d,
    {
        let c = gone[d];
        proof {
            lemma_reclaimed_only_completed(all, obs@);
            lemma_sweep_id_partition(all, obs@);
            assert(drawn_from(gone@, d as int, all, obs@, true));
            let i = choose|i: int| 0 <= i < all.len()
                && #[trigger] all[i] == gone@[d as int]
                && spec_counter_completed(all[i], obs@[i]) == true;
            assert(obs@[i] > 0);
            assert(dev1.counters@[c.id as int].value > 0);
            assert(dev.counters@[c.id as int].value > 0);
            // Not destroyed earlier in this loop: the reclaimed identifiers
            // are distinct.
            assert(!contains_id(gone@.take(d as int), c.id)) by {
                if contains_id(gone@.take(d as int), c.id) {
                    let k = choose|k: int| 0 <= k < gone@.take(d as int).len()
                        && (#[trigger] gone@.take(d as int)[k]).id == c.id;
                    assert(gone@[k].id != gone@[d as int].id);
                }
            }
            assert(dev.counters@[c.id as int].alive);
        }
        dev.destroy_counter(c.id);
        proof {
            assert forall|id: u64| id < dev1.counters@.len()
                implies (#[trigger] dev.counters@[id as int]).alive
                    == (dev1.counters@[id as int].alive
                        && !contains_id(gone@.take(d + 1), id)) by {
                if id == c.id {
                    assert(gone@.take(d + 1)[d as int].id == id);
                    assert(contains_id(gone@.take(d + 1), id));
                } else {
                    assert(contains_id(gone@.take(d + 1), id) == contains_id(
                        gone@.take(d as int),
                        id,
                    )) by {
                        if contains_id(gone@.take(d + 1), id) {
                            let k = choose|k: int| 0 <= k < gone@.take(d + 1).len()
                                && (#[trigger] gone@.take(d + 1)[k]).id == id;
                            assert(k != d);
                            assert(gone@.take(d as int)[k].id == id);
                        }
                        if contains_id(gone@.take(d as int), id) {
                            let k = choose|k: int| 0 <= k < gone@.take(d as int).len()
                                && (#[trigger] gone@.take(d as int)[k]).id == id;
                            assert(gone@.take(d + 1)[k].id == id);
                        }
                    }
                }
            }
        }
        d += 1;
    }

    // Ownership is exact again: the worker holds every live counter.
    proof {
        assert(gone@.take(m as int) =~= gone@);
        // A counter that showed no progress was not among the destroyed.
        assert forall|cid: u64| cid < dev1.counters@.len()
            && dev1.counters@[cid as int].value == 0
            implies !contains_id(gone@, cid) by {
            if contains_id(gone@, cid) {
                let g = choose|g: int| 0 <= g < gone@.len()
                    && (#[trigger] gone@[g]).id == cid;
                assert(drawn_from(gone@, g, all, obs@, true));
                let x = choose|x: int| 0 <= x < all.len()
                    && #[trigger] all[x] == gone@[g]
                    && spec_counter_completed(all[x], obs@[x]) == true;
                assert(obs@[x] > all[x].initial);
                assert(obs@[x] == dev1.counters@[all[x].id as int].value);
                assert(all[x].id == cid);
            }
        }
        all.to_multiset_ensures();
        kept.to_multiset_ensures();
        gone@.to_multiset_ensures();
        assert forall|k: int| 0 <= k < kept.len() implies {
            &&& (#[trigger] kept[k]).id < dev.counters@.len()
            &&& dev.counters@[kept[k].id as int].alive
            &&& kept[k].initial == 0
            &&& kept[k].target == COUNTER_TARGET
            &&& dev.counters@[kept[k].id as int].value == 0
        } by {
            assert(drawn_from(kept, k, all, obs@, false));
            let i = choose|i: int| 0 <= i < all.len()
                && #[trigger] all[i] == kept[k]
                && spec_counter_completed(all[i], obs@[i]) == false;
            assert(obs@[i] <= all[i].initial);
            assert(all[i].initial == 0);
            assert(dev1.counters@[kept[k].id as int].value == 0);
            assert(!contains_id(gone@, kept[k].id)) by {
                if contains_id(gone@, kept[k].id) {
                    let g = choose|g: int| 0 <= g < gone@.len()
                        && (#[trigger] gone@[g]).id == kept[k].id;
                    assert(kept[k].id != gone@[g].id);
                }
            }
        }
        assert forall|id: u64| id < dev.counters@.len()
            && (#[trigger] dev.counters@[id as int]).alive
            implies contains_id(
                Seq::<Counter>::empty(),
                id,
            ) || contains_id(kept, id) by {
            assert(dev1.counters@[id as int].alive);
            assert(contains_id(all, id)) by {
                assert(contains_id(q0, id) || contains_id(l0, id));
                if contains_id(q0, id) {
                    let y = choose|y: int| 0 <= y < q0.len()
                        && (#[trigger] q0[y]).id == id;
                    assert(all[l0.len() + y].id == id);
                } else {
                    let x = choose|x: int| 0 <= x < l0.len()
                        && (#[trigger] l0[x]).id == id;
                    assert(all[x].id == id);
                }
            }
            let k = choose|k: int| 0 <= k < all.len() && (#[trigger] all[k]).id == id;
            assert(!contains_id(gone@, id));
            assert(all.to_multiset().count(all[k]) > 0);
            assert(gone@.to_multiset().count(all[k]) + kept.to_multiset().count(all[k])
                == all.to_multiset().count(all[k]));
            assert(gone@.to_multiset().count(all[k]) == 0) by {
                if gone@.to_multiset().count(all[k]) > 0 {
                    assert(gone@.contains(all[k]));
                    let g = choose|g: int| 0 <= g < gone@.len() && gone@[g] == all[k];
                    assert((gone@[g]).id == id);
                    assert(contains_id(gone@, id));
                }
            }
            assert(kept.to_multiset().count(all[k]) > 0);
            assert(kept.contains(all[k]));
            let r = choose|r: int| 0 <= r < kept.len() && kept[r] == all[k];
            assert(kept[r].id == id);
        }
        assert(kept.len() + gone@.len() == all.len()) by {
            assert(gone@.to_multiset().len() + kept.to_multiset().len()
                == all.to_multiset().len());
        }
    }
    m
}

/// Ownership is insensitive to device steps that leave the counters' number
/// and existence alone.
proof fn lemma_tracked_stable(
    dev0: SimDevice,
    dev1: SimDevice,
    q: Seq<Counter>,
    l: Seq<Counter>,
)
    requires
        tracked_counters(dev0, q, l),
        dev1.counters@.len() == dev0.counters@.len(),
        forall|id: int| 0 <= id < dev0.counters@.len()
            ==> (#[trigger] dev1.counters@[id]).alive == dev0.counters@[id].alive,
    ensures
        tracked_counters(dev1, q, l),
{
    assert forall|k: int| 0 <= k < q.len() implies {
        &&& (#[trigger] q[k]).id < dev1.counters@.len()
        &&& dev1.counters@[q[k].id as int].alive
        &&& q[k].initial == 0
        &&& q[k].target == COUNTER_TARGET
    } by {
        assert(dev1.counters@[q[k].id as int].alive == dev0.counters@[q[k].id as int].alive);
    }
    assert forall|k: int| 0 <= k < l.len() implies {
        &&& (#[trigger] l[k]).id < dev1.counters@.len()
        &&& dev1.counters@[l[k].id as int].alive
        &&& l[k].initial == 0
        &&& l[k].target == COUNTER_TARGET
    } by {
        assert(dev1.counters@[l[k].id as int].alive == dev0.counters@[l[k].id as int].alive);
    }
    assert forall|id: u64| id < dev1.counters@.len()
        && (#[trigger] dev1.counters@[id as int]).alive
        implies contains_id(q, id) || contains_id(l, id) by {
        assert(dev0.counters@[id as int].alive);
    }
}

/// One iteration of the frame pacer against the simulated device: wait on the
/// current slot's fence, reset it, create a counter, send it, submit — or,
/// when `fail_submit` is set, meet a device that rejects the submission. The
/// counter is created and sent either way; the failed path halts the pacer
/// and leaves its ring bookkeeping untouched.
fn pacer_iteration(
    dev: &mut SimDevice,
    chan: &mut ChannelModel,
    pacer: &mut FramePacer,
    waits: &mut Vec<usize>,
    fail_submit: bool,
    Ghost(live): Ghost<Seq<Counter>>,
) -> (r: Option<CoreError>)
    requires
        old(dev).wf(),
        old(pacer).wf(),
        old(pacer).depth == old(dev).depth,
        old(pacer).phase is AwaitFence,
        old(pacer).next_id == old(dev).counters@.len(),
        old(pacer).next_id < u64::MAX,
        old(pacer).submitted < u64::MAX,
        old(chan).is_receiver_alive(),
        tracked_counters(*old(dev), old(chan).queued(), live),
        unsignaled_slots_busy(*old(dev)),
        all_submitted(*old(dev)),
        old(waits)@.len() == old(dev).depth,
        old(waits)@[old(pacer).slot as int] < usize::MAX,
    ensures
        final(dev).wf(),
        final(pacer).wf(),
        final(dev).depth == old(dev).depth,
        final(pacer).depth == old(pacer).depth,
        final(dev).counters@.len() == old(dev).counters@.len() + 1,
        final(chan).is_receiver_alive(),
        final(chan).queued() == old(chan).queued().push(old(pacer).spec_current_counter()),
        tracked_counters(*final(dev), final(chan).queued(), live),
        final(waits)@ == old(waits)@.update(
            old(pacer).slot as int,
            (old(waits)@[old(pacer).slot as int] + 1) as usize,
        ),
        (r is None) == !fail_submit,
        !fail_submit ==> {
            &&& final(pacer).phase is AwaitFence
            &&& final(pacer).slot == (old(pacer).slot + 1) as int % old(pacer).depth as int
            &&& final(pacer).next_id == old(pacer).next_id + 1
            &&& final(pacer).submitted == old(pacer).submitted + 1
            &&& unsignaled_slots_busy(*final(dev))
            &&& all_submitted(*final(dev))
        },
        fail_submit ==> {
            &&& r == Some(CoreError::SubmissionError)
            &&& final(pacer).phase is Halted
            &&& final(pacer).slot == old(pacer).slot
            &&& final(pacer).next_id == old(pacer).next_id
            &&& final(pacer).submitted == old(pacer).submitted
            &&& final(dev).counters@[old(pacer).next_id as int].value == 0
            &&& !final(dev).counter_pending(old(pacer).next_id)
            &&& (forall|cid: u64| cid < old(dev).counters@.len() ==> {
                ||| (#[trigger] final(dev).counters@[cid as int]).value
                    == final(dev).counters@[cid as int].target
                ||| final(dev).counter_pending(cid)
            })
        },
{
    let ghost dev0 = *dev;
    let slot = pacer.slot;

    // Wait on the current slot's fence; the device completes work until it
    // signals.
    wait_for_slot(dev, slot);
    let w0 = waits[slot];
    waits.set(slot, w0 + 1);
    let _ = pacer.handle(PacerEvent::WaitOk);
    proof {
        lemma_tracked_stable(dev0, *dev, chan.queued(), live);
    }

    // Reset the fence: its slot is no longer busy, so nothing in flight still
    // owes it a signal.
    dev.reset_fence(slot);
    let _ = pacer.handle(PacerEvent::ResetOk);

    // Create this iteration's counter.
    let ghost dev1 = *dev;
    let id = dev.create_counter();
    let c = Counter { id, initial: 0, target: COUNTER_TARGET };
    let _ = pacer.handle(PacerEvent::CounterCreated);
    proof {
        assert(dev.counters@[id as int].alive);
        assert(dev.counters@[id as int].value == 0);
    }

    // Hand the counter to the reclamation worker. The channel is unbounded:
    // with the receiver alive this cannot stall or fail.
    let sent = chan.send(c);
    proof {
        assert(sent);
    }
    let _ = pacer.handle(PacerEvent::SendOk);
    proof {
        let q1 = old(chan).queued();
        let q2 = chan.queued();
        assert(q2 == q1.push(c));
        // The fresh identifier equals the old number of counters, so it
        // collides with nothing already owned.
        assert forall|k: int| 0 <= k < q1.len() implies (#[trigger] q1[k]).id != c.id by {}
        assert forall|k: int| 0 <= k < live.len() implies (#[trigger] live[k]).id != c.id by {}
        assert(ids_distinct(q2)) by {
            assert forall|x: int, y: int| 0 <= x < y < q2.len()
                implies q2[x].id != q2[y].id by {
                if y < q1.len() {
                } else {
                    assert(q2[y] == c && q2[x] == q1[x]);
                }
            }
        }
        assert(ids_disjoint(q2, live)) by {
            assert forall|x: int, y: int| 0 <= x < q2.len() && 0 <= y < live.len()
                implies #[trigger] q2[x].id != #[trigger] live[y].id by {
                if x < q1.len() {
                    assert(q2[x] == q1[x]);
                } else {
                    assert(q2[x] == c);
                }
            }
        }
        assert(owned_ok(*dev, q2)) by {
            assert forall|k: int| 0 <= k < q2.len() implies {
                &&& (#[trigger] q2[k]).id < dev.counters@.len()
                &&& dev.counters@[q2[k].id as int].alive
                &&& q2[k].initial == 0
                &&& q2[k].target == COUNTER_TARGET
            } by {
                if k < q1.len() {
                    assert(q2[k] == q1[k]);
                    assert(dev1.counters@[q1[k].id as int].alive);
                } else {
                    assert(q2[k] == c);
                }
            }
        }
        assert(owned_ok(*dev, live)) by {
            assert forall|k: int| 0 <= k < live.len() implies {
                &&& (#[trigger] live[k]).id < dev.counters@.len()
                &&& dev.counters@[live[k].id as int].alive
                &&& live[k].initial == 0
                &&& live[k].target == COUNTER_TARGET
            } by {
                assert(dev1.counters@[live[k].id as int].alive);
            }
        }
        assert forall|cid: u64| cid < dev.counters@.len()
            && (#[trigger] dev.counters@[cid as int]).alive
            implies contains_id(q2, cid) || contains_id(live, cid) by {
            if cid < dev1.counters@.len() {
                assert(dev1.counters@[cid as int].alive);
                assert(contains_id(q1, cid) || contains_id(live, cid));
                if contains_id(q1, cid) {
                    let k = choose|k: int| 0 <= k < q1.len()
                        && (#[trigger] q1[k]).id == cid;
                    assert(q2[k].id == cid);
                    assert(contains_id(q2, cid));
                }
            } else {
                assert(cid == c.id);
                assert(q2[q1.len() as int].id == cid);
                assert(contains_id(q2, cid));
            }
        }
        assert(tracked_counters(*dev, q2, live));
    }

    proof {
        assert(!dev.slot_busy(slot as int));
        assert forall|k: int| 0 <= k < dev.pending@.len()
            implies (#[trigger] dev.pending@[k]).counter_id != id by {
            assert(dev1.pending@[k].counter_id < dev1.counters@.len());
        }
        assert(!dev.counter_pending(id));
    }
    if fail_submit {
        // The device rejects the submission: fatal, and nothing of the ring
        // bookkeeping moves. The counter just created and sent stands at
        // zero, tagged to no submission: it will never advance.
        let r = pacer.handle(PacerEvent::SubmitFailed);
        proof {
            assert forall|cid: u64| cid < dev0.counters@.len() implies {
                ||| (#[trigger] dev.counters@[cid as int]).value
                    == dev.counters@[cid as int].target
                ||| dev.counter_pending(cid)
            } by {
                if dev1.counters@[cid as int].value == dev1.counters@[cid as int].target {
                    assert(dev.counters@[cid as int].value
                        == dev.counters@[cid as int].target);
                } else {
                    assert(dev1.counter_pending(cid));
                    let k = choose|k: int| 0 <= k < dev1.pending@.len()
                        && #[trigger] dev1.pending@[k].counter_id == cid;
                    assert(dev.pending@[k].counter_id == cid);
                    assert(dev.counter_pending(cid));
                }
            }
        }
        r
    } else {
        let ghost dev2 = *dev;
        dev.submit(slot, id);
        let r = pacer.handle(PacerEvent::SubmitOk);
        proof {
            lemma_tracked_stable(dev2, *dev, chan.queued(), live);
            let np = dev.pending@.len() - 1;
            assert forall|s: int| 0 <= s < dev.depth && !(#[trigger] dev.fences@[s])
                implies dev.slot_busy(s) by {
                if s == slot {
                    assert(dev.pending@[np].slot == s);
                } else {
                    assert(!dev2.fences@[s]);
                    assert(dev2.slot_busy(s));
                    let k = choose|k: int| 0 <= k < dev2.pending@.len()
                        && #[trigger] dev2.pending@[k].slot == s;
                    assert(dev.pending@[k].slot == s);
                }
            }
            assert forall|cid: u64| cid < dev.counters@.len() implies {
                ||| (#[trigger] dev.counters@[cid as int]).value
                    == dev.counters@[cid as int].target
                ||| dev.counter_pending(cid)
            } by {
                if cid < dev1.counters@.len() {
                    if dev1.counters@[cid as int].value == dev1.counters@[cid as int].target {
                    } else {
                        assert(dev1.counter_pending(cid));
                        let k = choose|k: int| 0 <= k < dev1.pending@.len()
                            && #[trigger] dev1.pending@[k].counter_id == cid;
                        assert(dev.pending@[k].counter_id == cid);
                        assert(dev.counter_pending(cid));
                    }
                } else {
                    assert(dev.pending@[np].counter_id == cid);
                    assert(dev.counter_pending(cid));
                }
            }
        }
        r
    }
}

/// How often a run of `n` iterations over a ring of `depth` slots waits on
/// slot `s`: the slots are visited round-robin, so the counts differ by at
/// most one — the first `n % depth` slots get one wait more.
pub open spec fn round_robin_waits(n: int, depth: int, s: int) -> int {
    n / depth + if s < n % depth { 1int } else { 0int }
}

/// What one run of the core against the simulated device did.
pub struct SimStats {
    /// Completion counters created.
    pub created: usize,
    /// Completion counters destroyed by the reclamation worker.
    pub destroyed: usize,
    /// Completion counters still owned by the worker when the run ended: the
    /// counters of submissions that never reached the device.
    pub leaked: usize,
    /// Fence waits performed, per ring slot.
    pub fence_waits: Vec<usize>,
    /// The error the pacer surfaced, if any.
    pub error: Option<CoreError>,
    /// The pacer's final state.
    pub pacer: FramePacer,
}

/// Run the core against the simulated device: `submissions` iterations of the
/// frame pacer over a ring of `depth` slots, a worker cycle after each, then
/// a final drain. When `fail_submission_at` names an iteration, the device
/// rejects that submission and the pacer halts on the spot.
///
/// Every counter created is accounted for: destroyed exactly once or still
/// owned. A run without failure creates and destroys exactly one counter per
/// submission and leaks nothing.
pub fn run_scenario(
    depth: usize,
    submissions: usize,
    fail_submission_at: Option<usize>,
) -> (stats: SimStats)
    requires
        0 < depth,
        submissions < usize::MAX,
    ensures
        stats.created == stats.destroyed + stats.leaked,
        stats.fence_waits@.len() == depth,
        stats.pacer.depth == depth,
        fail_submission_at is None ==> {
            &&& stats.error is None
            &&& stats.created == submissions
            &&& stats.destroyed == submissions
            &&& stats.leaked == 0
            &&& stats.pacer.submitted == submissions
            &&& stats.pacer.phase is AwaitFence
            &&& stats.pacer.slot == submissions as int % depth as int
            &&& (forall|x: int| 0 <= x < depth ==> stats.fence_waits@[x]
                == round_robin_waits(submissions as int, depth as int, x))
        },
        match fail_submission_at {
            Some(k) => k < submissions ==> {
                &&& stats.error == Some(CoreError::SubmissionError)
                &&& stats.created == k + 1
                &&& stats.destroyed == k
                &&& stats.leaked == 1
                &&& stats.pacer.phase is Halted
                &&& stats.pacer.submitted == k
                &&& stats.pacer.slot == k as int % depth as int
            },
            None => true,
        },
{
    let mut dev = SimDevice::new(depth);
    let mut chan = ChannelModel::new();
    let mut pacer = FramePacer::new(depth);
    let mut w = ReclamationWorker::new();
    let mut waits: Vec<usize> = Vec::new();
    let mut s: usize = 0;
    while s < depth
        invariant
            s <= depth,
            waits@.len() == s,
            forall|x: int| 0 <= x < s ==> waits@[x] == 0,
        decreases depth - s,
    {
        waits.push(0);
        s += 1;
    }
    let mut destroyed: usize = 0;
    let mut error: Option<CoreError> = None;
    let mut halted: bool = false;
    let mut i: usize = 0;
    proof {
        lemma_small_mod(0nat, depth as nat);
        vstd::arithmetic::div_mod::lemma_basic_div(0, depth as int);
    }

    while i < submissions && !halted
        invariant
            0 < depth,
            submissions < usize::MAX,
            i <= submissions,
            dev.wf(),
            pacer.wf(),
            w.wf(),
            dev.depth == depth,
            pacer.depth == depth,
            waits@.len() == depth,
            chan.is_receiver_alive(),
            tracked_counters(dev, chan.queued(), w.live_counters()),
            destroyed + chan.queued().len() + w.live_counters().len()
                == dev.counters@.len(),
            !halted ==> {
                &&& (forall|x: int| 0 <= x < depth ==> waits@[x] <= i)
                &&& (forall|x: int| 0 <= x < depth ==> waits@[x]
                    == round_robin_waits(i as int, depth as int, x))
                &&& pacer.phase is AwaitFence
                &&& pacer.slot == i as int % depth as int
                &&& pacer.next_id == dev.counters@.len()
                &&& pacer.next_id == i
                &&& pacer.submitted == i
                &&& unsignaled_slots_busy(dev)
                &&& all_submitted(dev)
                &&& error is None
                &&& (match fail_submission_at {
                    Some(k) => k < submissions ==> i <= k,
                    None => true,
                })
            },
            halted ==> {
                &&& error == Some(CoreError::SubmissionError)
                &&& fail_submission_at == Some(i)
                &&& pacer.phase is Halted
                &&& pacer.slot == i as int % depth as int
                &&& pacer.submitted == i
                &&& dev.counters@.len() == i + 1
                &&& dev.counters@[i as int].value == 0
                &&& !dev.counter_pending(i as u64)
                &&& (forall|cid: u64| cid < i ==> {
                    ||| (#[trigger] dev.counters@[cid as int]).value
                        == dev.counters@[cid as int].target
                    ||| dev.counter_pending(cid)
                })
            },
        decreases
            submissions - i,
            (if halted { 0int } else { 1int }),
    {
        let fail_now = match fail_submission_at {
            Some(k) => k == i,
            None => false,
        };
        let ghost lv = w.live_counters();
        proof {
            assert(waits@[pacer.slot as int] <= i);
        }
        let r = pacer_iteration(&mut dev, &mut chan, &mut pacer, &mut waits, fail_now,
            Ghost(lv));
        if fail_now {
            halted = true;
            error = r;
        } else {
            let m = worker_cycle(&mut dev, &mut chan, &mut w);
            proof {
                assert(destroyed + m + chan.queued().len() + w.live_counters().len()
                    == dev.counters@.len());
            }
            destroyed = destroyed + m;
            proof {
                lemma_add_mod_noop(i as int, 1, depth as int);
                if depth == 1 {
                } else {
                    lemma_small_mod(1nat, depth as nat);
                }
                let n = i as int;
                let d = depth as int;
                lemma_fundamental_div_mod(n, d);
                if n % d == d - 1 {
                    assert((n / d + 1) * d + 0 == d * (n / d) + d) by (nonlinear_arith);
                    lemma_fundamental_div_mod_converse(n + 1, d, n / d + 1, 0);
                } else {
                    assert((n / d) * d == d * (n / d)) by (nonlinear_arith);
                    lemma_fundamental_div_mod_converse(n + 1, d, n / d, n % d + 1);
                }
                assert forall|x: int| 0 <= x < depth
                    implies waits@[x] == round_robin_waits(n + 1, d, x) by {
                    if x == n % d {
                        assert(waits@[x] == round_robin_waits(n, d, x) + 1);
                    } else {
                        assert(waits@[x] == round_robin_waits(n, d, x));
                    }
                }
            }
            i += 1;
        }
    }

    // The run is over: let the device finish everything still in flight, then
    // give the worker one last cycle to reclaim it.
    let ghost dev3 = dev;
    complete_all(&mut dev);
    proof {
        lemma_tracked_stable(dev3, dev, chan.queued(), w.live_counters());
    }
    let ghost dev4 = dev;
    let m = worker_cycle(&mut dev, &mut chan, &mut w);
    proof {
        assert(destroyed + m + w.live_counters().len() == dev.counters@.len());
    }
    destroyed = destroyed + m;

    let leaked = w.live_len();
    let created = dev.counters.len();

    proof {
        if !halted {
            // Every counter was submitted, the device finished everything, so
            // the last cycle reclaimed whatever was still owned.
            assert(all_submitted(dev4));
            assert forall|cid: u64| cid < dev4.counters@.len()
                implies (#[trigger] dev4.counters@[cid as int]).value
                    == dev4.counters@[cid as int].target by {
                assert(!dev4.counter_pending(cid));
            }
            if w.live_counters().len() > 0 {
                let c0 = w.live_counters()[0];
                assert(dev.counters@[c0.id as int].value == 0);
                assert(dev4.counters@[c0.id as int].value
                    == dev4.counters@[c0.id as int].target);
                assert(dev4.counters@[c0.id as int].target == COUNTER_TARGET);
                assert(false);
            }
        } else {
            // The failed submission's counter is the one counter left over:
            // it never advanced, so it was never reclaimed; every other
            // counter completed and was destroyed.
            let fin_live = w.live_counters();
            assert(dev3.counters@[i as int].alive);
            assert(dev4.counters@[i as int].value == 0);
            assert(dev4.counters@[i as int].alive);
            assert(dev.counters@[i as int].alive);
            assert(contains_id(fin_live, i as u64)) by {
                assert(!contains_id(Seq::<Counter>::empty(), i as u64));
            }
            assert forall|k: int| 0 <= k < fin_live.len()
                implies (#[trigger] fin_live[k]).id == i as u64 by {
                let cid = fin_live[k].id;
                assert(dev.counters@[cid as int].value == 0);
                assert(cid < dev.counters@.len());
                if cid < i as u64 {
                    assert(dev4.counters@[cid as int].value
                        == dev4.counters@[cid as int].target);
                    assert(dev.counters@[cid as int].value
                        == dev4.counters@[cid as int].value);
                    assert(dev4.counters@[cid as int].target == COUNTER_TARGET);
                    assert(false);
                }
            }
            assert(fin_live.len() == 1) by {
                let k0 = choose|k0: int| 0 <= k0 < fin_live.len()
                    && (#[trigger] fin_live[k0]).id == i as u64;
                if fin_live.len() >= 2 {
                    assert(fin_live[0].id == fin_live[1].id);
                    assert(false);
                }
            }
        }
    }

    SimStats { created, destroyed, leaked, fence_waits: waits, error, pacer }
}

} // verus!
