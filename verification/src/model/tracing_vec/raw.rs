//! A tracing vector as plain values, for storing it and for making one of
//! what was stored.

use super::{Trace, TracingVec};
use vstd::prelude::*;

verus! {

/// Whether an order lists slots below a limit, each at most once.
pub open spec fn order_ok(order: Seq<usize>, limit: int) -> bool {
    order.no_duplicates() && forall|p: int| 0 <= p < order.len() ==> (#[trigger] order[p]) < limit
}

/// Whether an order lists slots below a limit, each at most once.
pub fn check_order(order: &Vec<usize>, limit: usize) -> (ok: bool)
    ensures
        ok == order_ok(order@, limit as int),
{
    let mut seen: Vec<bool> = Vec::new();
    let mut i: usize = 0;
    while i < limit
        invariant
            i <= limit,
            seen@.len() == i,
            forall|k: int| 0 <= k < i ==> !(#[trigger] seen@[k]),
        decreases limit - i,
    {
        seen.push(false);
        i += 1;
    }
    let mut p: usize = 0;
    while p < order.len()
        invariant
            p <= order.len(),
            seen@.len() == limit,
            forall|q: int| 0 <= q < p ==> (#[trigger] order@[q]) < limit,
            forall|i: int, j: int| 0 <= i < p && 0 <= j < p && i != j ==> order@[i] != order@[j],
            forall|k: int|
                0 <= k < limit ==> (#[trigger] seen@[k]) == exists|q: int|
                    0 <= q < p && order@[q] == k,
        decreases order.len() - p,
    {
        let slot = order[p];
        if slot >= limit {
            return false;
        }
        if seen[slot] {
            proof {
                let q = choose|q: int| 0 <= q < p && order@[q] == slot as int;
                assert(order@[q] == order@[p as int]);
            }
            return false;
        }
        let ghost before = seen@;
        seen.set(slot, true);
        proof {
            assert forall|k: int| 0 <= k < limit implies (#[trigger] seen@[k]) == exists|q: int|
                0 <= q < p + 1 && order@[q] == k by {
                if k == slot {
                    assert(order@[p as int] == k);
                } else {
                    if before[k] {
                        let q = choose|q: int| 0 <= q < p && order@[q] == k;
                        assert(0 <= q < p + 1 && order@[q] == k);
                    }
                    if exists|q: int| 0 <= q < p + 1 && order@[q] == k {
                        let q = choose|q: int| 0 <= q < p + 1 && order@[q] == k;
                        assert(q != p);
                        assert(0 <= q < p && order@[q] == k);
                    }
                }
            }
            assert forall|i: int, j: int| 0 <= i < p + 1
                && 0 <= j < p + 1
                && i != j implies order@[i]
                != order@[j] by {
                if i == p && order@[j] == slot {
                    assert(before[slot as int]);
                }
                if j == p && order@[i] == slot {
                    assert(before[slot as int]);
                }
            }
        }
        p += 1;
    }
    true
}

impl<X> TracingVec<X> {
    /// Whether the vector is valid. A vector that was made and changed by
    /// the functions of this module always is.
    pub fn is_valid(&self) -> (ok: bool)
        ensures
            ok == self.wf(),
    {
        proof {
            self.lemma_fits();
        }
        if self.snapshots.len() == 0 {
            return false;
        }
        let mut t: usize = 0;
        while t < self.snapshots.len()
            invariant
                t <= self.snapshots.len(),
                forall|u: int| 0 <= u < t ==> order_ok(self@.snapshots[u], self@.store.len() as int),
            decreases self.snapshots.len() - t,
        {
            if !check_order(&self.snapshots[t], self.mem.len()) {
                proof {
                    let order = self@.snapshots[t as int];
                    if self.wf() {
                        assert(order.no_duplicates());
                        assert forall|p: int| 0 <= p < order.len() implies (#[trigger] order[p])
                            < self@.store.len() by {
                            assert(self@.snapshots[t as int][p] < self@.store.len());
                        }
                    }
                }
                return false;
            }
            t += 1;
        }
        proof {
            assert forall|u: int, p: int|
                0 <= u < self@.snapshots.len() && 0 <= p < self@.snapshots[u].len() implies (
            #[trigger] self@.snapshots[u][p]) < self@.store.len() by {
                assert(order_ok(self@.snapshots[u], self@.store.len() as int));
            }
            assert forall|u: int| 0 <= u < self@.snapshots.len() implies (
            #[trigger] self@.snapshots[u]).no_duplicates() by {
                assert(order_ok(self@.snapshots[u], self@.store.len() as int));
            }
        }
        true
    }

    /// The vector taken apart: the values of the store, the pseudotime at
    /// which each was added, and the snapshots, oldest first.
    pub fn into_raw_parts(self) -> (parts: (Vec<X>, Vec<usize>, Vec<Vec<usize>>))
        ensures
            parts.0@ == self@.store,
            parts.1@ == self@.births,
            parts.2@.len() == self@.snapshots.len(),
            forall|t: int| 0 <= t < parts.2@.len() ==> (#[trigger] parts.2@[t])@ == self@.snapshots[t],
    {
        let ghost whole = self@;
        let TracingVec { mem, snapshots } = self;
        let mut vals: Vec<X> = Vec::new();
        let mut births: Vec<usize> = Vec::new();
        for trace in it: mem
            invariant
                it.seq().len() == whole.store.len(),
                forall|i: int|
                    0 <= i < it.seq().len() ==> (#[trigger] it.seq()[i]).val == whole.store[i]
                        && it.seq()[i].birth == whole.births[i],
                vals@.len() == it.index(),
                births@.len() == it.index(),
                forall|i: int| 0 <= i < vals@.len() ==> #[trigger] vals@[i] == whole.store[i],
                forall|i: int| 0 <= i < births@.len() ==> #[trigger] births@[i] == whole.births[i],
        {
            let Trace { val, birth } = trace;
            vals.push(val);
            births.push(birth);
        }
        assert(vals@ =~= whole.store);
        assert(births@ =~= whole.births);
        (vals, births, snapshots)
    }

    /// A vector of the given parts, if they make a valid one: as many
    /// births as values, one snapshot at least, and in each snapshot slots
    /// of the store, each at most once.
    pub fn from_raw_parts(vals: Vec<X>, births: Vec<usize>, snapshots: Vec<Vec<usize>>) -> (res:
        Option<Self>)
        ensures
            match res {
                Some(v) => v.wf() && v@.store == vals@ && v@.births == births@ && v@.snapshots.len()
                    == snapshots@.len() && forall|t: int|
                    0 <= t < snapshots@.len() ==> v@.snapshots[t] == (#[trigger] snapshots@[t])@,
                None => vals@.len() != births@.len() || snapshots@.len() == 0 || exists|t: int|
                    0 <= t < snapshots@.len() && !order_ok(
                        (#[trigger] snapshots@[t])@,
                        vals@.len() as int,
                    ),
            },
    {
        if vals.len() != births.len() {
            return None;
        }
        let mut mem: Vec<Trace<X>> = Vec::new();
        for val in it: vals
            invariant
                it.seq().len() == births@.len(),
                mem@.len() == it.index(),
                forall|i: int|
                    0 <= i < mem@.len() ==> (#[trigger] mem@[i]).val == it.seq()[i] && mem@[i].birth
                        == births@[i],
        {
            let birth = births[mem.len()];
            mem.push(Trace { val, birth });
        }
        let v = TracingVec { mem, snapshots };
        proof {
            assert(v@.store =~= vals@);
            assert(v@.births =~= births@);
        }
        if v.is_valid() {
            Some(v)
        } else {
            proof {
                if snapshots@.len() > 0 && forall|t: int|
                    0 <= t < snapshots@.len() ==> order_ok(
                        (#[trigger] snapshots@[t])@,
                        vals@.len() as int,
                    ) {
                    v.lemma_fits();
                    assert forall|u: int, p: int|
                        0 <= u < v@.snapshots.len() && 0 <= p < v@.snapshots[u].len() implies (
                    #[trigger] v@.snapshots[u][p]) < v@.store.len() by {
                        assert(order_ok(snapshots@[u]@, vals@.len() as int));
                    }
                    assert forall|u: int| 0 <= u < v@.snapshots.len() implies (
                    #[trigger] v@.snapshots[u]).no_duplicates() by {
                        assert(order_ok(snapshots@[u]@, vals@.len() as int));
                    }
                    assert(false);
                }
            }
            None
        }
    }
}

} // verus!
