//! Reading a tracing vector: its snapshots, its indices and their order.

use super::{IndexError, TimedIndex, TimelessIndex, Traces, TracingIndex, TracingVec};
use vstd::prelude::*;

verus! {

impl<X> Traces<X> {
    /// The values of a snapshot, in order.
    pub open spec fn values_at(self, t: int) -> Seq<X> {
        Seq::new(self.snapshots[t].len(), |p: int| self.store[self.snapshots[t][p] as int])
    }

    /// Whether the first index names a value that stands before that of the
    /// second in the latest snapshot; the error of the first that is not
    /// alive otherwise.
    pub open spec fn before(self, a: TracingIndex, b: TracingIndex) -> Result<bool, IndexError> {
        match self.position(a) {
            Err(e) => Err(e),
            Ok(pa) => match self.position(b) {
                Err(e) => Err(e),
                Ok(pb) => Ok(pa < pb),
            },
        }
    }

    /// Whether two indices name the same value, both alive.
    pub open spec fn same(self, a: TracingIndex, b: TracingIndex) -> Result<bool, IndexError> {
        match self.position(a) {
            Err(e) => Err(e),
            Ok(pa) => match self.position(b) {
                Err(e) => Err(e),
                Ok(pb) => Ok(pa == pb),
            },
        }
    }
}

impl<X> TracingVec<X> {
    fn values_of(&self, t: usize) -> (vals: Vec<&X>)
        requires
            self.wf(),
            t < self@.snapshots.len(),
        ensures
            vals@.len() == self@.snapshots[t as int].len(),
            forall|p: int| 0 <= p < vals@.len() ==> *(#[trigger] vals@[p]) == self@.values_at(t as int)[p],
    {
        let snapshot = &self.snapshots[t];
        let mut vals: Vec<&X> = Vec::new();
        let mut p: usize = 0;
        while p < snapshot.len()
            invariant
                self.wf(),
                t < self@.snapshots.len(),
                snapshot@ == self@.snapshots[t as int],
                p <= snapshot.len(),
                vals@.len() == p,
                forall|q: int|
                    0 <= q < p ==> *(#[trigger] vals@[q]) == self@.values_at(t as int)[q],
            decreases snapshot.len() - p,
        {
            assert(self@.snapshots[t as int][p as int] < self@.store.len());
            vals.push(&self.mem[snapshot[p]].val);
            p += 1;
        }
        vals
    }

    /// The values of the first snapshot, in order.
    pub fn oldest(&self) -> (vals: Vec<&X>)
        requires
            self.wf(),
        ensures
            vals@.len() == self@.snapshots[0].len(),
            forall|p: int| 0 <= p < vals@.len() ==> *(#[trigger] vals@[p]) == self@.values_at(0)[p],
    {
        self.values_of(0)
    }

    /// The values of the latest snapshot, in order.
    pub fn latest(&self) -> (vals: Vec<&X>)
        requires
            self.wf(),
        ensures
            vals@.len() == self@.latest().len(),
            forall|p: int| 0 <= p < vals@.len() ==> *(#[trigger] vals@[p]) == self@.latest_values()[p],
    {
        self.values_of(self.snapshots.len() - 1)
    }

    /// The values of the latest snapshot, in order.
    pub fn iter(&self) -> (vals: Vec<&X>)
        requires
            self.wf(),
        ensures
            vals@.len() == self@.latest().len(),
            forall|p: int| 0 <= p < vals@.len() ==> *(#[trigger] vals@[p]) == self@.latest_values()[p],
    {
        self.latest()
    }

    /// How many values the latest snapshot holds.
    pub fn len(&self) -> (n: usize)
        requires
            self.wf(),
        ensures
            n == self@.latest().len(),
    {
        self.snapshots[self.snapshots.len() - 1].len()
    }

    pub fn is_empty(&self) -> (b: bool)
        requires
            self.wf(),
        ensures
            b == (self@.latest().len() == 0),
    {
        self.len() == 0
    }

    /// The first position of the latest snapshot, whether or not anything
    /// stands there.
    pub fn first_index(&self) -> (index: TimedIndex)
        requires
            self.wf(),
        ensures
            index.pos == 0,
            index.pseudotime == self@.pseudotime(),
    {
        TimedIndex { pos: 0, pseudotime: self.pseudotime() }
    }

    /// The first position of the latest snapshot, if it holds anything.
    pub fn try_first_index(&self) -> (index: Option<TimedIndex>)
        requires
            self.wf(),
        ensures
            match index {
                Some(index) => self@.latest().len() > 0 && index.pos == 0 && index.pseudotime
                    == self@.pseudotime(),
                None => self@.latest().len() == 0,
            },
    {
        if self.is_empty() {
            None
        } else {
            Some(self.first_index())
        }
    }

    /// The last position of the latest snapshot, which must hold something.
    pub fn last_index(&self) -> (index: TimedIndex)
        requires
            self.wf(),
            self@.latest().len() > 0,
        ensures
            index.pos == self@.latest().len() - 1,
            index.pseudotime == self@.pseudotime(),
    {
        TimedIndex { pos: self.len() - 1, pseudotime: self.pseudotime() }
    }

    /// The last position of the latest snapshot, if it holds anything.
    pub fn try_last_index(&self) -> (index: Option<TimedIndex>)
        requires
            self.wf(),
        ensures
            match index {
                Some(index) => self@.latest().len() > 0 && index.pos == self@.latest().len() - 1
                    && index.pseudotime == self@.pseudotime(),
                None => self@.latest().len() == 0,
            },
    {
        if self.is_empty() {
            None
        } else {
            Some(self.last_index())
        }
    }

    /// The positions of the latest snapshot, in order.
    pub fn indices(&self) -> (all: Vec<TimedIndex>)
        requires
            self.wf(),
        ensures
            all@.len() == self@.latest().len(),
            forall|p: int|
                0 <= p < all@.len() ==> (#[trigger] all@[p]).pos == p && all@[p].pseudotime
                    == self@.pseudotime(),
    {
        let pseudotime = self.pseudotime();
        let len = self.len();
        let mut all: Vec<TimedIndex> = Vec::new();
        let mut p: usize = 0;
        while p < len
            invariant
                p <= len,
                all@.len() == p,
                forall|q: int|
                    0 <= q < p ==> (#[trigger] all@[q]).pos == q
                        && all@[q].pseudotime == pseudotime,
            decreases len - p,
        {
            all.push(TimedIndex { pos: p, pseudotime });
            p += 1;
        }
        all
    }

    /// The slots of the latest snapshot, in order.
    pub fn timeless_indices(&self) -> (all: Vec<TimelessIndex>)
        requires
            self.wf(),
        ensures
            all@.len() == self@.latest().len(),
            forall|p: int| 0 <= p < all@.len() ==> (#[trigger] all@[p]).pos == self@.latest()[p],
    {
        let latest = &self.snapshots[self.snapshots.len() - 1];
        let mut all: Vec<TimelessIndex> = Vec::new();
        let mut p: usize = 0;
        while p < latest.len()
            invariant
                latest@ == self@.latest(),
                p <= latest.len(),
                all@.len() == p,
                forall|q: int| 0 <= q < p ==> (#[trigger] all@[q]).pos == latest@[q],
            decreases latest.len() - p,
        {
            all.push(TimelessIndex { pos: latest[p] });
            p += 1;
        }
        all
    }

    /// The values of the latest snapshot, each with its position.
    pub fn iter_indices(&self) -> (all: Vec<(TimedIndex, &X)>)
        requires
            self.wf(),
        ensures
            all@.len() == self@.latest().len(),
            forall|p: int|
                0 <= p < all@.len() ==> (#[trigger] all@[p]).0.pos == p && all@[p].0.pseudotime
                    == self@.pseudotime() && *all@[p].1 == self@.latest_values()[p],
    {
        let pseudotime = self.pseudotime();
        let latest = &self.snapshots[self.snapshots.len() - 1];
        let mut all: Vec<(TimedIndex, &X)> = Vec::new();
        let mut p: usize = 0;
        while p < latest.len()
            invariant
                self.wf(),
                latest@ == self@.latest(),
                pseudotime == self@.pseudotime(),
                p <= latest.len(),
                all@.len() == p,
                forall|q: int|
                    0 <= q < p ==> (#[trigger] all@[q]).0.pos == q && all@[q].0.pseudotime
                        == pseudotime && *all@[q].1 == self@.latest_values()[q],
            decreases latest.len() - p,
        {
            assert(self@.snapshots[self@.pseudotime()][p as int] < self@.store.len());
            all.push((TimedIndex { pos: p, pseudotime }, &self.mem[latest[p]].val));
            p += 1;
        }
        all
    }

    /// The values of the latest snapshot, each with its slot.
    pub fn iter_timeless_indices(&self) -> (all: Vec<(TimelessIndex, &X)>)
        requires
            self.wf(),
        ensures
            all@.len() == self@.latest().len(),
            forall|p: int|
                0 <= p < all@.len() ==> (#[trigger] all@[p]).0.pos == self@.latest()[p]
                    && *all@[p].1 == self@.latest_values()[p],
    {
        let latest = &self.snapshots[self.snapshots.len() - 1];
        let mut all: Vec<(TimelessIndex, &X)> = Vec::new();
        let mut p: usize = 0;
        while p < latest.len()
            invariant
                self.wf(),
                latest@ == self@.latest(),
                p <= latest.len(),
                all@.len() == p,
                forall|q: int|
                    0 <= q < p ==> (#[trigger] all@[q]).0.pos == latest@[q] && *all@[q].1
                        == self@.latest_values()[q],
            decreases latest.len() - p,
        {
            assert(self@.snapshots[self@.pseudotime()][p as int] < self@.store.len());
            all.push((TimelessIndex { pos: latest[p] }, &self.mem[latest[p]].val));
            p += 1;
        }
        all
    }

    /// Compares the places of two values in the latest snapshot.
    pub fn is_before(&self, a: TracingIndex, b: TracingIndex) -> (res: Result<bool, IndexError>)
        requires
            self.wf(),
        ensures
            res == self@.before(a, b),
    {
        match self.latest_index(a) {
            Err(e) => Err(e),
            Ok(pa) => match self.latest_index(b) {
                Err(e) => Err(e),
                Ok(pb) => Ok(pa < pb),
            },
        }
    }

    /// Whether two indices name the same value of the latest snapshot.
    pub fn indices_eq(&self, a: TracingIndex, b: TracingIndex) -> (res: Result<bool, IndexError>)
        requires
            self.wf(),
        ensures
            res == self@.same(a, b),
    {
        match self.latest_index(a) {
            Err(e) => Err(e),
            Ok(pa) => match self.latest_index(b) {
                Err(e) => Err(e),
                Ok(pb) => Ok(pa == pb),
            },
        }
    }

    /// A value of the store is smaller than the vector that holds it: what
    /// lets a type be defined through vectors of itself.
    pub proof fn lemma_store_decreases(self, i: int)
        requires
            0 <= i < self@.store.len(),
        ensures
            decreases_to!(self => self@.store[i]),
    {
        broadcast use vstd::std_specs::vec::axiom_vec_decreases_to_view;

        assert(decreases_to!(self => self.mem));
        assert(decreases_to!(self.mem => self.mem@));
        assert(decreases_to!(self.mem@ => self.mem@[i]));
        assert(decreases_to!(self.mem@[i] => self.mem@[i].val));
    }

    /// How many values the store holds, alive or not.
    pub fn store_len(&self) -> (n: usize)
        ensures
            n == self@.store.len(),
    {
        self.mem.len()
    }

    /// The value in a slot of the store.
    pub fn slot(&self, pos: usize) -> (val: &X)
        requires
            pos < self@.store.len(),
        ensures
            *val == self@.store[pos as int],
    {
        &self.mem[pos].val
    }

    /// The value in a slot of the store, for writing. Nothing else changes.
    pub fn slot_mut(&mut self, pos: usize) -> (val: &mut X)
        requires
            old(self).wf(),
            pos < old(self)@.store.len(),
        ensures
            *val == old(self)@.store[pos as int],
            final(self).wf(),
            final(self)@.store == old(self)@.store.update(pos as int, *final(val)),
            final(self)@.births == old(self)@.births,
            final(self)@.snapshots == old(self)@.snapshots,
    {
        let trace = &mut self.mem[pos];
        &mut trace.val
    }

    /// A vector with the same births and snapshots, and with the given
    /// values in the store, slot for slot.
    pub fn rebuild<Y>(&self, vals: Vec<Y>) -> (v: TracingVec<Y>)
        requires
            vals@.len() == self@.store.len(),
        ensures
            self.wf() ==> v.wf(),
            v@.store == vals@,
            v@.births == self@.births,
            v@.snapshots == self@.snapshots,
    {
        let mut mem: Vec<super::Trace<Y>> = Vec::new();
        for val in it: vals
            invariant
                it.seq().len() == self@.store.len(),
                mem@.len() == it.index(),
                forall|i: int| 0 <= i < mem@.len() ==> (#[trigger] mem@[i]).val == it.seq()[i],
                forall|i: int| 0 <= i < mem@.len() ==> (#[trigger] mem@[i]).birth == self@.births[i],
        {
            let birth = self.mem[mem.len()].birth;
            mem.push(super::Trace { val, birth });
        }
        let mut snapshots: Vec<Vec<usize>> = Vec::new();
        let mut t: usize = 0;
        while t < self.snapshots.len()
            invariant
                t <= self.snapshots.len(),
                snapshots@.len() == t,
                forall|u: int| 0 <= u < t ==> (#[trigger] snapshots@[u])@ == self.snapshots@[u]@,
            decreases self.snapshots.len() - t,
        {
            let copy = self.snapshots[t].clone();
            assert(copy@ =~= self.snapshots@[t as int]@);
            snapshots.push(copy);
            t += 1;
        }
        let v = TracingVec { mem, snapshots };
        proof {
            assert(v@.store =~= vals@);
            assert(v@.births =~= self@.births);
            assert(v@.snapshots =~= self@.snapshots);
        }
        v
    }
}

impl<X: Clone> Traces<X> {
    /// Whether `self` could be a clone of `orig`: the same births and
    /// snapshots, and in each slot a clone of the value that `orig` has
    /// there.
    pub open spec fn clone_of(self, orig: Self) -> bool {
        &&& self.births == orig.births
        &&& self.snapshots == orig.snapshots
        &&& self.store.len() == orig.store.len()
        &&& forall|i: int|
            0 <= i < orig.store.len() ==> cloned(orig.store[i], #[trigger] self.store[i])
    }
}

impl<X: Clone> Clone for TracingVec<X> {
    /// A vector with the whole history of this one, value for value.
    fn clone(&self) -> (copy: Self)
        ensures
            copy@.clone_of(self@),
    {
        let mut mem: Vec<super::Trace<X>> = Vec::new();
        let mut i: usize = 0;
        while i < self.mem.len()
            invariant
                i <= self.mem.len(),
                mem@.len() == i,
                forall|k: int|
                    0 <= k < i ==> cloned(self.mem@[k].val, (#[trigger] mem@[k]).val)
                        && mem@[k].birth
                        == self.mem@[k].birth,
            decreases self.mem.len() - i,
        {
            let val = self.mem[i].val.clone();
            mem.push(super::Trace { val, birth: self.mem[i].birth });
            i += 1;
        }
        let mut snapshots: Vec<Vec<usize>> = Vec::new();
        let mut t: usize = 0;
        while t < self.snapshots.len()
            invariant
                t <= self.snapshots.len(),
                snapshots@.len() == t,
                forall|u: int| 0 <= u < t ==> (#[trigger] snapshots@[u])@ == self.snapshots@[u]@,
            decreases self.snapshots.len() - t,
        {
            let copy = self.snapshots[t].clone();
            assert(copy@ =~= self.snapshots@[t as int]@);
            snapshots.push(copy);
            t += 1;
        }
        let copy = TracingVec { mem, snapshots };
        proof {
            assert(copy@.births =~= self@.births);
            assert(copy@.snapshots =~= self@.snapshots);
        }
        copy
    }
}

impl<X> Default for TracingVec<X> {
    fn default() -> (v: Self)
        ensures
            v.wf(),
            v@.store == Seq::<X>::empty(),
            v@.births == Seq::<usize>::empty(),
            v@.snapshots == seq![Seq::<usize>::empty()],
    {
        TracingVec::new()
    }
}

} // verus!
