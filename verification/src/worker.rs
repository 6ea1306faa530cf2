//! The reclamation worker's decision logic: an unordered collection of live
//! completion counters, grown by counters received from the pacer and drained
//! by sweeps that destroy every counter whose value has advanced.
//!
//! The worker never touches the device itself. The driver reads each live
//! counter's value, hands the readings to [`ReclamationWorker::sweep`], and
//! destroys exactly the counters the sweep returns.

use vstd::prelude::*;
use vstd::multiset::Multiset;
use crate::counter::Counter;
use crate::counter::spec_counter_completed;
use crate::counter::counter_completed;

verus! {

/// No two counters in the sequence share an identifier.
pub open spec fn ids_distinct(s: Seq<Counter>) -> bool {
    forall|i: int, j: int| 0 <= i < j < s.len() ==> s[i].id != s[j].id
}

/// No counter of `a` shares an identifier with a counter of `b`.
pub open spec fn ids_disjoint(a: Seq<Counter>, b: Seq<Counter>) -> bool {
    forall|i: int, j: int| 0 <= i < a.len() && 0 <= j < b.len()
        ==> #[trigger] a[i].id != #[trigger] b[j].id
}

/// Some counter of `s` carries the identifier `id`.
pub open spec fn contains_id(s: Seq<Counter>, id: u64) -> bool {
    exists|k: int| 0 <= k < s.len() && (#[trigger] s[k]).id == id
}

/// Two sequences with distinct identifiers and none in common concatenate to
/// one with distinct identifiers.
pub proof fn lemma_ids_distinct_concat(a: Seq<Counter>, b: Seq<Counter>)
    requires
        ids_distinct(a),
        ids_distinct(b),
        ids_disjoint(a, b),
    ensures
        ids_distinct(a + b),
{
    let c = a + b;
    assert forall|i: int, j: int| 0 <= i < j < c.len() implies c[i].id != c[j].id by {
        if j < a.len() {
            assert(c[i] == a[i] && c[j] == a[j]);
        } else if i < a.len() {
            assert(c[i] == a[i] && c[j] == b[j - a.len()]);
        } else {
            assert(c[i] == b[i - a.len()] && c[j] == b[j - a.len()]);
        }
    }
}

/// The counters of `live` that a sweep with readings `obs` keeps: those whose
/// observed value has not moved past their initial value, in their old order.
/// `obs[i]` is the value read for `live[i]`.
pub open spec fn retained(live: Seq<Counter>, obs: Seq<u64>) -> Seq<Counter>
    decreases live.len(),
{
    if live.len() == 0 {
        Seq::empty()
    } else {
        let prefix = retained(live.drop_last(), obs.drop_last());
        if spec_counter_completed(live.last(), obs.last()) {
            prefix
        } else {
            prefix.push(live.last())
        }
    }
}

/// The counters of `live` that a sweep with readings `obs` destroys: those
/// whose observed value has moved past their initial value.
pub open spec fn reclaimed(live: Seq<Counter>, obs: Seq<u64>) -> Seq<Counter>
    decreases live.len(),
{
    if live.len() == 0 {
        Seq::empty()
    } else {
        let prefix = reclaimed(live.drop_last(), obs.drop_last());
        if spec_counter_completed(live.last(), obs.last()) {
            prefix.push(live.last())
        } else {
            prefix
        }
    }
}

/// The bounded pause between two sweep cycles, in milliseconds. Non-zero, so
/// an idle worker sleeps instead of spinning on a core; small, so a completed
/// counter is reclaimed promptly.
pub const SWEEP_PAUSE_MS: u64 = 1;

/// The reclamation worker's state: the counters it owns and still polls.
pub struct ReclamationWorker {
    /// The live counters, in arrival order. Order carries no meaning; the
    /// collection is treated as unordered.
    live: Vec<Counter>,
}

impl ReclamationWorker {
    /// The counters the worker currently owns.
    pub closed spec fn live_counters(self) -> Seq<Counter> {
        self.live@
    }

    /// Well-formed: every owned counter is well formed and no identifier
    /// occurs twice.
    pub open spec fn wf(self) -> bool {
        &&& ids_distinct(self.live_counters())
        &&& forall|i: int| 0 <= i < self.live_counters().len()
            ==> self.live_counters()[i].wf()
    }

    /// A worker starts with no counters.
    pub fn new() -> (w: ReclamationWorker)
        ensures
            w.live_counters() == Seq::<Counter>::empty(),
            w.wf(),
    {
        ReclamationWorker { live: Vec::new() }
    }

    /// Number of counters currently owned.
    pub fn live_len(&self) -> (n: usize)
        ensures
            n == self.live_counters().len(),
    {
        self.live.len()
    }

    /// The counter at position `i`, for the driver to read its value from
    /// the device.
    pub fn live_at(&self, i: usize) -> (c: Counter)
        requires
            i < self.live_counters().len(),
        ensures
            c == self.live_counters()[i as int],
    {
        self.live[i]
    }

    /// How long the driver pauses between sweep cycles: a fixed, non-zero
    /// bound. The worker neither blocks indefinitely waiting for new counters
    /// nor busy-loops when it has none.
    pub fn sweep_pause_ms(&self) -> (ms: u64)
        ensures
            ms == SWEEP_PAUSE_MS,
            0 < ms,
    {
        SWEEP_PAUSE_MS
    }

    /// Takes ownership of a counter the pacer has sent.
    pub fn receive(&mut self, c: Counter)
        ensures
            final(self).live_counters() == old(self).live_counters().push(c),
    {
        self.live.push(c);
    }

    /// One sweep over the owned counters. `observed[i]` is the value just
    /// read for the counter at position `i`. Every counter whose value has
    /// advanced past its initial value is removed and returned for
    /// destruction; every other counter is kept for the next sweep.
    pub fn sweep(&mut self, observed: &Vec<u64>) -> (destroyed: Vec<Counter>)
        requires
            observed@.len() == old(self).live_counters().len(),
        ensures
            final(self).live_counters() == retained(old(self).live_counters(), observed@),
            destroyed@ == reclaimed(old(self).live_counters(), observed@),
    {
        let ghost live0 = self.live@;
        let mut kept: Vec<Counter> = Vec::new();
        let mut gone: Vec<Counter> = Vec::new();
        let n = self.live.len();
        for i in 0..n
            invariant
                n == live0.len(),
                observed@.len() == live0.len(),
                self.live@ == live0,
                kept@ == retained(live0.take(i as int), observed@.take(i as int)),
                gone@ == reclaimed(live0.take(i as int), observed@.take(i as int)),
        {
            let c = self.live[i];
            proof {
                assert(live0.take(i + 1).drop_last() =~= live0.take(i as int));
                assert(observed@.take(i + 1).drop_last() =~= observed@.take(i as int));
                assert(live0.take(i + 1).last() == live0[i as int]);
            }
            if counter_completed(&c, observed[i]) {
                gone.push(c);
            } else {
                kept.push(c);
            }
        }
        proof {
            assert(live0.take(n as int) =~= live0);
            assert(observed@.take(n as int) =~= observed@);
        }
        self.live = kept;
        gone
    }
}

/// Holds when the counter at position `k` of `part` stood in `live` at a
/// position whose reading related to its initial value as `completed` says.
pub open spec fn drawn_from(
    part: Seq<Counter>,
    k: int,
    live: Seq<Counter>,
    obs: Seq<u64>,
    completed: bool,
) -> bool {
    exists|i: int| 0 <= i < live.len()
        && #[trigger] live[i] == part[k]
        && spec_counter_completed(live[i], obs[i]) == completed
}

/// A sweep destroys a counter only on the strength of its reading: every
/// counter in the reclaimed sequence stood at some position whose observed
/// value had moved past the counter's initial value.
pub proof fn lemma_reclaimed_only_completed(live: Seq<Counter>, obs: Seq<u64>)
    requires
        obs.len() == live.len(),
    ensures
        forall|k: int| 0 <= k < reclaimed(live, obs).len()
            ==> #[trigger] drawn_from(reclaimed(live, obs), k, live, obs, true),
    decreases live.len(),
{
    if live.len() > 0 {
        lemma_reclaimed_only_completed(live.drop_last(), obs.drop_last());
        let prefix = reclaimed(live.drop_last(), obs.drop_last());
        assert forall|k: int| 0 <= k < reclaimed(live, obs).len()
            implies #[trigger] drawn_from(reclaimed(live, obs), k, live, obs, true) by {
            if k < prefix.len() {
                assert(drawn_from(prefix, k, live.drop_last(), obs.drop_last(), true));
                let i = choose|i: int| 0 <= i < live.drop_last().len()
                    && #[trigger] live.drop_last()[i] == prefix[k]
                    && spec_counter_completed(live.drop_last()[i], obs.drop_last()[i]) == true;
                assert(live[i] == reclaimed(live, obs)[k]);
                assert(spec_counter_completed(live[i], obs[i]));
            } else {
                let i = live.len() - 1;
                assert(live[i] == reclaimed(live, obs)[k]);
                assert(spec_counter_completed(live[i], obs[i]));
            }
        }
    }
}

/// A sweep never destroys a counter whose reading shows no progress: every
/// retained counter stood at some position whose observed value had not moved
/// past the counter's initial value.
pub proof fn lemma_retained_not_completed(live: Seq<Counter>, obs: Seq<u64>)
    requires
        obs.len() == live.len(),
    ensures
        forall|k: int| 0 <= k < retained(live, obs).len()
            ==> #[trigger] drawn_from(retained(live, obs), k, live, obs, false),
    decreases live.len(),
{
    if live.len() > 0 {
        lemma_retained_not_completed(live.drop_last(), obs.drop_last());
        let prefix = retained(live.drop_last(), obs.drop_last());
        assert forall|k: int| 0 <= k < retained(live, obs).len()
            implies #[trigger] drawn_from(retained(live, obs), k, live, obs, false) by {
            if k < prefix.len() {
                assert(drawn_from(prefix, k, live.drop_last(), obs.drop_last(), false));
                let i = choose|i: int| 0 <= i < live.drop_last().len()
                    && #[trigger] live.drop_last()[i] == prefix[k]
                    && spec_counter_completed(live.drop_last()[i], obs.drop_last()[i]) == false;
                assert(live[i] == retained(live, obs)[k]);
                assert(!spec_counter_completed(live[i], obs[i]));
            } else {
                let i = live.len() - 1;
                assert(live[i] == retained(live, obs)[k]);
                assert(!spec_counter_completed(live[i], obs[i]));
            }
        }
    }
}

/// A sweep neither loses nor duplicates a counter: the destroyed and the
/// retained counters together are exactly the counters the worker held, each
/// the same number of times. With distinct identifiers this is the worker's
/// half of the once-and-only-once lifecycle: each held counter leaves a sweep
/// on exactly one side.
pub proof fn lemma_sweep_partitions(live: Seq<Counter>, obs: Seq<u64>)
    requires
        obs.len() == live.len(),
    ensures
        reclaimed(live, obs).to_multiset().add(retained(live, obs).to_multiset())
            == live.to_multiset(),
    decreases live.len(),
{
    if live.len() == 0 {
        live.to_multiset_ensures();
        reclaimed(live, obs).to_multiset_ensures();
        retained(live, obs).to_multiset_ensures();
        assert(reclaimed(live, obs).len() == 0);
        assert(retained(live, obs).len() == 0);
        assert forall|a: Counter| live.to_multiset().count(a) == 0 by {
            assert(!live.contains(a));
        }
        assert forall|a: Counter| reclaimed(live, obs).to_multiset().count(a) == 0 by {
            assert(!reclaimed(live, obs).contains(a));
        }
        assert forall|a: Counter| retained(live, obs).to_multiset().count(a) == 0 by {
            assert(!retained(live, obs).contains(a));
        }
        assert(reclaimed(live, obs).to_multiset().add(retained(live, obs).to_multiset())
            =~= live.to_multiset());
    } else {
        let live1 = live.drop_last();
        let obs1 = obs.drop_last();
        let x = live.last();
        lemma_sweep_partitions(live1, obs1);
        live1.to_multiset_ensures();
        assert(live1.push(x) =~= live);
        assert(live.to_multiset() == live1.to_multiset().insert(x));
        if spec_counter_completed(x, obs.last()) {
            reclaimed(live1, obs1).to_multiset_ensures();
            assert(reclaimed(live, obs) == reclaimed(live1, obs1).push(x));
            assert(reclaimed(live, obs).to_multiset()
                == reclaimed(live1, obs1).to_multiset().insert(x));
            assert(retained(live, obs) == retained(live1, obs1));
        } else {
            retained(live1, obs1).to_multiset_ensures();
            assert(retained(live, obs) == retained(live1, obs1).push(x));
            assert(retained(live, obs).to_multiset()
                == retained(live1, obs1).to_multiset().insert(x));
            assert(reclaimed(live, obs) == reclaimed(live1, obs1));
        }
        assert(reclaimed(live, obs).to_multiset().add(retained(live, obs).to_multiset())
            =~= live.to_multiset());
    }
}

/// A sweep splits distinct identifiers into distinct halves: when the held
/// counters carry no identifier twice, neither do the destroyed counters nor
/// the retained ones, and no identifier appears on both sides.
pub proof fn lemma_sweep_id_partition(live: Seq<Counter>, obs: Seq<u64>)
    requires
        obs.len() == live.len(),
        ids_distinct(live),
    ensures
        ids_distinct(retained(live, obs)),
        ids_distinct(reclaimed(live, obs)),
        ids_disjoint(retained(live, obs), reclaimed(live, obs)),
    decreases live.len(),
{
    if live.len() > 0 {
        let live1 = live.drop_last();
        let obs1 = obs.drop_last();
        let x = live.last();
        assert(ids_distinct(live1)) by {
            assert(forall|p: int, q: int| 0 <= p < q < live1.len()
                ==> live1[p].id != live1[q].id);
        }
        lemma_sweep_id_partition(live1, obs1);
        lemma_reclaimed_only_completed(live1, obs1);
        lemma_retained_not_completed(live1, obs1);
        let ret1 = retained(live1, obs1);
        let rec1 = reclaimed(live1, obs1);
        // The last counter's identifier differs from every identifier drawn
        // from the rest.
        assert forall|k: int| 0 <= k < ret1.len() implies ret1[k].id != x.id by {
            assert(drawn_from(ret1, k, live1, obs1, false));
            let i = choose|i: int| 0 <= i < live1.len()
                && #[trigger] live1[i] == ret1[k]
                && spec_counter_completed(live1[i], obs1[i]) == false;
            assert(live[i].id != live[live.len() - 1].id);
        }
        assert forall|k: int| 0 <= k < rec1.len() implies rec1[k].id != x.id by {
            assert(drawn_from(rec1, k, live1, obs1, true));
            let i = choose|i: int| 0 <= i < live1.len()
                && #[trigger] live1[i] == rec1[k]
                && spec_counter_completed(live1[i], obs1[i]) == true;
            assert(live[i].id != live[live.len() - 1].id);
        }
        if spec_counter_completed(x, obs.last()) {
            assert(retained(live, obs) == ret1);
            assert(reclaimed(live, obs) == rec1.push(x));
            assert forall|k1: int, k2: int|
                0 <= k1 < k2 < reclaimed(live, obs).len()
                implies reclaimed(live, obs)[k1].id != reclaimed(live, obs)[k2].id by {
                if k2 < rec1.len() {
                } else {
                    assert(reclaimed(live, obs)[k1] == rec1[k1]);
                    assert(reclaimed(live, obs)[k2] == x);
                }
            }
            assert forall|i: int, j: int|
                0 <= i < retained(live, obs).len() && 0 <= j < reclaimed(live, obs).len()
                implies #[trigger] retained(live, obs)[i].id
                    != #[trigger] reclaimed(live, obs)[j].id by {
                if j < rec1.len() {
                } else {
                    assert(reclaimed(live, obs)[j] == x);
                }
            }
        } else {
            assert(reclaimed(live, obs) == rec1);
            assert(retained(live, obs) == ret1.push(x));
            assert forall|k1: int, k2: int|
                0 <= k1 < k2 < retained(live, obs).len()
                implies retained(live, obs)[k1].id != retained(live, obs)[k2].id by {
                if k2 < ret1.len() {
                } else {
                    assert(retained(live, obs)[k1] == ret1[k1]);
                    assert(retained(live, obs)[k2] == x);
                }
            }
            assert forall|i: int, j: int|
                0 <= i < retained(live, obs).len() && 0 <= j < reclaimed(live, obs).len()
                implies #[trigger] retained(live, obs)[i].id
                    != #[trigger] reclaimed(live, obs)[j].id by {
                if i < ret1.len() {
                } else {
                    assert(retained(live, obs)[i] == x);
                }
            }
        }
    }
}

/// Reclamation liveness: a counter whose reading shows completion does not
/// survive the sweep that read it. It appears among the destroyed counters,
/// and — the identifiers being distinct — no counter with its identifier is
/// retained. A completed counter is therefore destroyed within one sweep of
/// the first reading that observes its completion.
pub proof fn lemma_completed_counter_reclaimed(live: Seq<Counter>, obs: Seq<u64>, i: int)
    requires
        obs.len() == live.len(),
        0 <= i < live.len(),
        spec_counter_completed(live[i], obs[i]),
        ids_distinct(live),
    ensures
        reclaimed(live, obs).contains(live[i]),
        forall|k: int| 0 <= k < retained(live, obs).len()
            ==> retained(live, obs)[k].id != live[i].id,
    decreases live.len(),
{
    let last = live.len() - 1;
    lemma_retained_not_completed(live, obs);
    assert forall|k: int| 0 <= k < retained(live, obs).len()
        implies retained(live, obs)[k].id != live[i].id by {
        assert(drawn_from(retained(live, obs), k, live, obs, false));
        let j = choose|j: int| 0 <= j < live.len()
            && #[trigger] live[j] == retained(live, obs)[k]
            && spec_counter_completed(live[j], obs[j]) == false;
        assert(j != i);
        if j < i {
            assert(live[j].id != live[i].id);
        } else {
            assert(live[i].id != live[j].id);
        }
    }
    if i == last {
        assert(reclaimed(live, obs).last() == live[i]);
        assert(reclaimed(live, obs).contains(live[i]));
    } else {
        assert(ids_distinct(live.drop_last())) by {
            assert(forall|p: int, q: int|
                0 <= p < q < live.drop_last().len()
                    ==> live.drop_last()[p].id != live.drop_last()[q].id);
        }
        lemma_completed_counter_reclaimed(live.drop_last(), obs.drop_last(), i);
        let prefix = reclaimed(live.drop_last(), obs.drop_last());
        let k = choose|k: int| 0 <= k < prefix.len() && #[trigger] prefix[k] == live.drop_last()[i];
        assert(reclaimed(live, obs)[k] == live[i]);
        assert(reclaimed(live, obs).contains(live[i]));
    }
}

} // verus!
