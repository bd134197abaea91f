//! A vector that keeps its history.
//!
//! Values live in a backing store that only grows. The order of the values
//! is held apart from them, as a list of snapshots: each snapshot lists the
//! slots of the store that are alive at that pseudotime, in order. Appending
//! extends the latest snapshot in place; every other change of the order
//! starts a new snapshot, so an index taken earlier still finds its value.

pub mod access;
pub mod index;
pub mod laws;
pub mod raw;
pub mod splice;

pub use index::{IndexError, TimedIndex, TimelessIndex, TracingIndex};

use vstd::prelude::*;

verus! {

#[derive(Debug, PartialEq, Eq)]
struct Trace<X> {
    val: X,
    birth: usize,
}

#[derive(Debug, PartialEq, Eq)]
pub struct TracingVec<X> {
    mem: Vec<Trace<X>>,
    snapshots: Vec<Vec<usize>>,
}

/// What a tracing vector holds: the values of its store, the pseudotime at
/// which each was added, and the snapshots, oldest first.
pub ghost struct Traces<X> {
    pub store: Seq<X>,
    pub births: Seq<usize>,
    pub snapshots: Seq<Seq<usize>>,
}

impl<X> Traces<X> {
    /// Every snapshot lists slots of the store, each at most once, there is
    /// at least one snapshot, and slots and pseudotimes fit a machine word.
    pub open spec fn wf(self) -> bool {
        &&& 0 < self.snapshots.len() <= usize::MAX
        &&& self.births.len() == self.store.len() <= usize::MAX
        &&& forall|t: int, p: int|
            0 <= t < self.snapshots.len() && 0 <= p < self.snapshots[t].len() ==> (
            #[trigger] self.snapshots[t][p]) < self.store.len()
        &&& forall|t: int|
            0 <= t < self.snapshots.len() ==> (#[trigger] self.snapshots[t]).no_duplicates()
    }

    pub open spec fn pseudotime(self) -> int {
        self.snapshots.len() - 1
    }

    pub open spec fn latest(self) -> Seq<usize> {
        self.snapshots.last()
    }

    /// The values of the latest snapshot, in order.
    pub open spec fn latest_values(self) -> Seq<X> {
        Seq::new(self.latest().len(), |p: int| self.store[self.latest()[p] as int])
    }

    /// The slot that a timed index names in its own snapshot.
    pub open spec fn location(self, index: TimedIndex) -> Result<usize, IndexError> {
        if index.pseudotime >= self.snapshots.len() {
            Err(IndexError::VersionDoesNotExist(index))
        } else if index.pos >= self.snapshots[index.pseudotime as int].len() {
            Err(IndexError::IndexOutOfBounds(index))
        } else {
            Ok(self.snapshots[index.pseudotime as int][index.pos as int])
        }
    }

    /// The slot that an index names.
    pub open spec fn timeless(self, index: TracingIndex) -> Result<TimelessIndex, IndexError> {
        match index {
            TracingIndex::Timed(timed) => match self.location(timed) {
                Ok(pos) => Ok(TimelessIndex { pos }),
                Err(e) => Err(e),
            },
            TracingIndex::Timeless(timeless) => if timeless.pos < self.store.len() {
                Ok(timeless)
            } else {
                Err(IndexError::DataDoesNotExist(timeless))
            },
        }
    }

    /// Whether the index names a value that the latest snapshot holds.
    pub open spec fn alive(self, index: TracingIndex) -> bool {
        match self.timeless(index) {
            Ok(slot) => self.latest().contains(slot.pos),
            Err(_) => false,
        }
    }

    /// Where the value that an index names stands in the latest snapshot.
    pub open spec fn position(self, index: TracingIndex) -> Result<int, IndexError> {
        match self.timeless(index) {
            Ok(slot) => if self.latest().contains(slot.pos) {
                Ok(self.latest().index_of(slot.pos))
            } else {
                Err(IndexError::DataAlreadyDead(slot))
            },
            Err(e) => Err(e),
        }
    }

    /// The value that an index names.
    pub open spec fn value(self, index: TracingIndex) -> Result<X, IndexError> {
        match self.timeless(index) {
            Ok(slot) => Ok(self.store[slot.pos as int]),
            Err(e) => Err(e),
        }
    }

    /// A vector that holds the given values, all born at pseudotime 0, in
    /// one snapshot that lists them in order.
    pub open spec fn of_values(vals: Seq<X>) -> Self {
        Traces {
            store: vals,
            births: Seq::new(vals.len(), |i: int| 0usize),
            snapshots: seq![Seq::new(vals.len(), |i: int| i as usize)],
        }
    }

    /// The store with one more value, born now.
    pub open spec fn stored(self, val: X) -> Self {
        Traces {
            store: self.store.push(val),
            births: self.births.push(self.pseudotime() as usize),
            snapshots: self.snapshots,
        }
    }

    /// One more snapshot, with the given order.
    pub open spec fn advanced(self, order: Seq<usize>) -> Self {
        Traces { snapshots: self.snapshots.push(order), ..self }
    }

    /// After `push`: the value is stored, and the latest snapshot ends in it.
    pub open spec fn pushed(self, val: X) -> Self {
        Traces {
            store: self.store.push(val),
            births: self.births.push(self.pseudotime() as usize),
            snapshots: self.snapshots.update(
                self.pseudotime(),
                self.latest().push(self.store.len() as usize),
            ),
        }
    }

    /// After an insertion at position `at`: the value is stored, and a new
    /// snapshot holds it at `at`, before what stood there.
    pub open spec fn inserted(self, at: int, val: X) -> Self {
        self.stored(val).advanced(self.latest().insert(at, self.store.len() as usize))
    }

    /// After a removal at position `at`: a new snapshot lacks that position.
    pub open spec fn removed(self, at: int) -> Self {
        self.advanced(self.latest().remove(at))
    }

    /// The slots that a list of indices names, one for one.
    pub open spec fn resolved(self, indices: Seq<TracingIndex>) -> Seq<usize> {
        Seq::new(indices.len(), |i: int| self.timeless(indices[i]).unwrap().pos)
    }

    /// Whether every index of a list names a value that is alive.
    pub open spec fn all_alive(self, indices: Seq<TracingIndex>) -> bool {
        forall|i: int| 0 <= i < indices.len() ==> self.alive(#[trigger] indices[i])
    }

    /// Whether `e` is the error that a splice on `indices` ends in: that of
    /// an empty list, or that of the first index that is not alive.
    pub open spec fn splice_failure(self, indices: Seq<TracingIndex>, e: IndexError) -> bool {
        if indices.len() == 0 {
            e == IndexError::NoIndicesProvided
        } else {
            exists|k: int|
                0 <= k < indices.len() && self.position(#[trigger] indices[k]) == Err::<
                    int,
                    IndexError,
                >(e) && self.all_alive(indices.take(k))
        }
    }

    /// The slots of indices that are alive are in the latest snapshot.
    pub proof fn lemma_resolved_alive(self, indices: Seq<TracingIndex>)
        requires
            self.all_alive(indices),
        ensures
            forall|i: int|
                0 <= i < indices.len() ==> self.latest().contains(
                    #[trigger] self.resolved(indices)[i],
                ),
            forall|i: int|
                0 <= i < indices.len() ==> self.timeless(indices[i]) == Ok::<
                    TimelessIndex,
                    IndexError,
                >(TimelessIndex { pos: #[trigger] self.resolved(indices)[i] }),
    {
        assert forall|i: int| 0 <= i < indices.len() implies self.latest().contains(
            #[trigger] self.resolved(indices)[i],
        ) && self.timeless(indices[i]) == Ok::<TimelessIndex, IndexError>(
            TimelessIndex { pos: self.resolved(indices)[i] },
        ) by {
            assert(self.alive(indices[i]));
        }
    }

    /// A splice fails only on an empty list or on a value that is not alive.
    pub proof fn lemma_failure_not_alive(self, indices: Seq<TracingIndex>, e: IndexError)
        requires
            self.splice_failure(indices, e),
        ensures
            indices.len() == 0 || !self.all_alive(indices),
    {
        if indices.len() > 0 {
            let k = choose|k: int|
                0 <= k < indices.len() && self.position(#[trigger] indices[k]) == Err::<
                    int,
                    IndexError,
                >(e) && self.all_alive(indices.take(k));
            assert(!self.alive(indices[k]));
        }
    }

    /// The least position of the latest snapshot whose slot is in `gone`.
    pub open spec fn first_of(self, gone: Seq<usize>) -> int {
        choose|p: int|
            0 <= p < self.latest().len() && gone.contains(self.latest()[p]) && forall|q: int|
                0 <= q < p ==> !gone.contains(#[trigger] self.latest()[q])
    }

    /// The test that a slot is not in `gone`.
    pub open spec fn outside(gone: Seq<usize>) -> spec_fn(usize) -> bool {
        |slot: usize| !gone.contains(slot)
    }

    /// The latest snapshot without the slots in `gone`.
    pub open spec fn remaining(self, gone: Seq<usize>) -> Seq<usize> {
        self.latest().filter(Self::outside(gone))
    }

    /// After a splice: the value is stored, and a new snapshot lacks the
    /// slots in `gone` and holds the value where the first of them stood.
    pub open spec fn spliced(self, gone: Seq<usize>, val: X) -> Self {
        self.stored(val).advanced(
            self.remaining(gone).insert(self.first_of(gone), self.store.len() as usize),
        )
    }
}

impl<X> View for TracingVec<X> {
    type V = Traces<X>;

    closed spec fn view(&self) -> Traces<X> {
        Traces {
            store: Seq::new(self.mem@.len(), |i: int| self.mem@[i].val),
            births: Seq::new(self.mem@.len(), |i: int| self.mem@[i].birth),
            snapshots: Seq::new(self.snapshots@.len(), |t: int| self.snapshots@[t]@),
        }
    }
}

impl<X> TracingVec<X> {
    /// The validity of a tracing vector: that of what it holds.
    pub open spec fn wf(self) -> bool {
        self@.wf()
    }

    /// An empty vector, with one empty snapshot.
    pub fn new() -> (v: Self)
        ensures
            v.wf(),
            v@.store == Seq::<X>::empty(),
            v@.births == Seq::<usize>::empty(),
            v@.snapshots == seq![Seq::<usize>::empty()],
    {
        let mut snapshots: Vec<Vec<usize>> = Vec::new();
        snapshots.push(Vec::new());
        let v = TracingVec { mem: Vec::new(), snapshots };
        assert(v@.snapshots =~= seq![Seq::<usize>::empty()]);
        assert(v@.store =~= Seq::<X>::empty());
        assert(v@.births =~= Seq::<usize>::empty());
        v
    }

    /// What a vector holds fits a machine word.
    proof fn lemma_fits(self)
        ensures
            self@.store.len() <= usize::MAX,
            self@.births.len() == self@.store.len(),
            self@.snapshots.len() <= usize::MAX,
    {
        assert(self@.store.len() == self.mem.len());
        assert(self@.snapshots.len() == self.snapshots.len());
    }

    /// A vector of the given values, in order, in its first snapshot.
    pub fn from_vec(vals: Vec<X>) -> (v: Self)
        ensures
            v.wf(),
            v@ == Traces::of_values(vals@),
    {
        let mut mem: Vec<Trace<X>> = Vec::new();
        let mut order: Vec<usize> = Vec::new();
        for val in it: vals
            invariant
                mem@.len() == it.index(),
                order@.len() == it.index(),
                forall|i: int| 0 <= i < mem@.len() ==> (#[trigger] mem@[i]).val == it.seq()[i],
                forall|i: int| 0 <= i < mem@.len() ==> (#[trigger] mem@[i]).birth == 0,
                forall|i: int| 0 <= i < order@.len() ==> #[trigger] order@[i] == i,
        {
            let slot = mem.len();
            mem.push(Trace { val, birth: 0 });
            order.push(slot);
        }
        let mut snapshots: Vec<Vec<usize>> = Vec::new();
        snapshots.push(order);
        let v = TracingVec { mem, snapshots };
        proof {
            v.lemma_fits();
            let goal = Traces::of_values(vals@);
            assert(v@.store =~= goal.store);
            assert(v@.births =~= goal.births);
            assert(v@.snapshots[0] =~= goal.snapshots[0]);
            assert(v@.snapshots =~= goal.snapshots);
        }
        v
    }

    fn pseudotime(&self) -> (t: usize)
        requires
            self.wf(),
        ensures
            t == self@.pseudotime(),
    {
        self.snapshots.len() - 1
    }

    /// Appends a value. No new snapshot is made: the latest one grows.
    pub fn push(&mut self, val: X)
        requires
            old(self).wf(),
        ensures
            final(self).wf(),
            old(self)@.kept_by(final(self)@),
            final(self)@ == old(self)@.pushed(val),
    {
        let birth = self.pseudotime();
        let slot = self.mem.len();
        self.mem.push(Trace { val, birth });
        let last = self.snapshots.len() - 1;
        self.snapshots[last].push(slot);
        proof {
            self.lemma_fits();
            assert(self@.store =~= old(self)@.pushed(val).store);
            assert(self@.births =~= old(self)@.pushed(val).births);
            assert(self@.snapshots =~= old(self)@.pushed(val).snapshots);
            assert forall|t: int| 0 <= t < self@.snapshots.len() implies (
            #[trigger] self@.snapshots[t]).no_duplicates() by {
                assert(old(self)@.snapshots[t].no_duplicates());
            }
        }
    }

    fn val_location(&self, index: TimedIndex) -> (res: Result<usize, IndexError>)
        requires
            self.wf(),
        ensures
            res == self@.location(index),
    {
        if index.pseudotime >= self.snapshots.len() {
            return Err(IndexError::VersionDoesNotExist(index));
        }
        let snapshot = &self.snapshots[index.pseudotime];
        if index.pos >= snapshot.len() {
            Err(IndexError::IndexOutOfBounds(index))
        } else {
            Ok(snapshot[index.pos])
        }
    }

    /// Resolves an index to the slot of its value: a timed index through
    /// its own snapshot, a timeless one by a bounds check alone.
    pub fn into_timeless(&self, index: TracingIndex) -> (res: Result<TimelessIndex, IndexError>)
        requires
            self.wf(),
        ensures
            res == self@.timeless(index),
    {
        match index {
            TracingIndex::Timed(timed) => match self.val_location(timed) {
                Ok(pos) => Ok(TimelessIndex { pos }),
                Err(e) => Err(e),
            },
            TracingIndex::Timeless(timeless) => if self.mem.len() > timeless.pos {
                Ok(timeless)
            } else {
                Err(IndexError::DataDoesNotExist(timeless))
            },
        }
    }

    /// Where a slot stands in the latest snapshot.
    fn find(&self, slot: usize) -> (res: Option<usize>)
        requires
            self.wf(),
        ensures
            match res {
                Some(p) => p < self@.latest().len() && self@.latest()[p as int] == slot
                    && self@.latest().index_of(slot) == p && p < usize::MAX,
                None => !self@.latest().contains(slot),
            },
    {
        let latest = &self.snapshots[self.snapshots.len() - 1];
        let mut p: usize = 0;
        while p < latest.len()
            invariant
                self.wf(),
                latest@ == self@.latest(),
                p <= latest.len(),
                forall|q: int| 0 <= q < p ==> latest@[q] != slot,
            decreases latest.len() - p,
        {
            if latest[p] == slot {
                proof {
                    assert(latest@.no_duplicates());
                    assert(latest@.contains(slot));
                }
                return Some(p);
            }
            p += 1;
        }
        None
    }

    /// Whether the index names a value at all, alive or not.
    pub fn contains(&self, index: TracingIndex) -> (b: bool)
        requires
            self.wf(),
        ensures
            b == self@.timeless(index).is_ok(),
    {
        self.into_timeless(index).is_ok()
    }

    /// Whether the value that the index names is in the latest snapshot.
    /// An index that names nothing is not alive.
    pub fn is_alive(&self, index: TracingIndex) -> (b: bool)
        requires
            self.wf(),
        ensures
            b == self@.alive(index),
    {
        match self.into_timeless(index) {
            Ok(slot) => self.find(slot.pos).is_some(),
            Err(_) => false,
        }
    }

    fn latest_index(&self, index: TracingIndex) -> (res: Result<usize, IndexError>)
        requires
            self.wf(),
        ensures
            match res {
                Ok(p) => self@.position(index) == Ok::<int, IndexError>(p as int)
                    && p < self@.latest().len() && p < usize::MAX,
                Err(e) => self@.position(index) == Err::<int, IndexError>(e),
            },
    {
        match self.into_timeless(index) {
            Ok(slot) => match self.find(slot.pos) {
                Some(p) => Ok(p),
                None => Err(IndexError::DataAlreadyDead(slot)),
            },
            Err(e) => Err(e),
        }
    }

    /// The index, re-resolved against the latest snapshot.
    pub fn into_timed(&self, index: TracingIndex) -> (res: Result<TimedIndex, IndexError>)
        requires
            self.wf(),
        ensures
            match res {
                Ok(timed) => self@.position(index) == Ok::<int, IndexError>(timed.pos as int)
                    && timed.pseudotime == self@.pseudotime()
                    && self@.location(timed) == Ok::<usize, IndexError>(
                    self@.timeless(index).unwrap().pos),
                Err(e) => self@.position(index) == Err::<int, IndexError>(e),
            },
    {
        match self.latest_index(index) {
            Ok(pos) => Ok(TimedIndex { pseudotime: self.pseudotime(), pos }),
            Err(e) => Err(e),
        }
    }

    /// The value that the index names, whether or not it is still alive.
    pub fn get(&self, index: TracingIndex) -> (res: Result<&X, IndexError>)
        requires
            self.wf(),
        ensures
            match res {
                Ok(val) => self@.value(index) == Ok::<X, IndexError>(*val),
                Err(e) => self@.value(index) == Err::<X, IndexError>(e),
            },
    {
        match self.into_timeless(index) {
            Ok(slot) => Ok(&self.mem[slot.pos].val),
            Err(e) => Err(e),
        }
    }

    /// The value that the index names, for writing. Nothing else changes:
    /// every snapshot that held the value holds the new one.
    pub fn get_mut(&mut self, index: TracingIndex) -> (res: Result<&mut X, IndexError>)
        requires
            old(self).wf(),
        ensures
            final(self).wf(),
            match res {
                Ok(val) => old(self)@.value(index) == Ok::<X, IndexError>(*val)
                    && final(self)@.store == old(self)@.store.update(
                    old(self)@.timeless(index).unwrap().pos as int,
                    *final(val),
                ) && final(self)@.births == old(self)@.births && final(self)@.snapshots == old(self)@.snapshots,
                Err(e) => old(self)@.value(index) == Err::<X, IndexError>(e)
                    && final(self)@ == old(self)@,
            },
    {
        match self.into_timeless(index) {
            Ok(slot) => {
                let trace = &mut self.mem[slot.pos];
                Ok(&mut trace.val)
            },
            Err(e) => Err(e),
        }
    }

    /// Starts a snapshot that is a copy of the latest one.
    fn new_snapshot(&mut self)
        requires
            old(self).wf(),
        ensures
            final(self).wf(),
            old(self)@.kept_by(final(self)@),
            final(self)@ == old(self)@.advanced(old(self)@.latest()),
    {
        let last = self.snapshots.len() - 1;
        let copy = self.snapshots[last].clone();
        assert(copy@ =~= self.snapshots@[last as int]@);
        self.snapshots.push(copy);
        proof {
            self.lemma_fits();
            assert(self@.snapshots =~= old(self)@.snapshots.push(old(self)@.latest()));
            assert(self@.store =~= old(self)@.store);
            assert(self@.births =~= old(self)@.births);
        }
    }

    fn try_insert(&mut self, at: usize, val: X) -> (index: TimedIndex)
        requires
            old(self).wf(),
            at <= old(self)@.latest().len(),
        ensures
            final(self).wf(),
            old(self)@.kept_by(final(self)@),
            final(self)@ == old(self)@.inserted(at as int, val),
            index.pos == at,
            index.pseudotime == final(self)@.pseudotime(),
    {
        let birth = self.pseudotime();
        let slot = self.mem.len();
        self.mem.push(Trace { val, birth });
        let ghost stored = self@;
        proof {
            self.lemma_fits();
        }
        assert(stored.store =~= old(self)@.stored(val).store);
        assert(stored.births =~= old(self)@.stored(val).births);
        assert(stored.snapshots =~= old(self)@.snapshots);
        self.new_snapshot();
        let last = self.snapshots.len() - 1;
        assert(self.snapshots@[last as int]@ == self@.snapshots[last as int]);
        let ghost copied = self@;
        self.snapshots[last].insert(at, slot);
        proof {
            let goal = old(self)@.inserted(at as int, val);
            assert(self@.snapshots.len() == goal.snapshots.len());
            assert forall|t: int| 0 <= t < goal.snapshots.len() implies self@.snapshots[t]
                == goal.snapshots[t] by {
                if t < last {
                    assert(self@.snapshots[t] == copied.snapshots[t]);
                }
            }
            assert(self@.store =~= goal.store);
            assert(self@.births =~= goal.births);
            assert(self@.snapshots =~= goal.snapshots);
            let order = old(self)@.latest().insert(at as int, slot);
            assert(order.no_duplicates()) by {
                assert(old(self)@.latest().no_duplicates());
                assert forall|i: int, j: int| 0 <= i < order.len() && 0 <= j < order.len() && i != j
                implies order[i] != order[j] by {
                    let oi = if i < at { i } else { i - 1 };
                    let oj = if j < at { j } else { j - 1 };
                    if i != at && j != at {
                        assert(order[i] == old(self)@.latest()[oi]);
                        assert(order[j] == old(self)@.latest()[oj]);
                    }
                }
            }
            assert forall|t: int| 0 <= t < self@.snapshots.len() implies (
            #[trigger] self@.snapshots[t]).no_duplicates() by {
                if t < old(self)@.snapshots.len() {
                    assert(old(self)@.snapshots[t].no_duplicates());
                }
            }
            assert forall|t: int, p: int|
                0 <= t < self@.snapshots.len() && 0 <= p < self@.snapshots[t].len() implies (
            #[trigger] self@.snapshots[t][p]) < self@.store.len() by {
                if t < old(self)@.snapshots.len() {
                    assert(old(self)@.snapshots[t][p] < old(self)@.store.len());
                } else if p != at {
                    let op = if p < at { p } else { p - 1 };
                    assert(order[p] == old(self)@.latest()[op]);
                }
            }
        }
        TimedIndex { pos: at, pseudotime: self.pseudotime() }
    }

    /// Inserts a value before the one that the index names, in a new
    /// snapshot. Fails, changing nothing, unless that value is alive.
    pub fn try_insert_before(&mut self, index: TracingIndex, val: X) -> (res: Result<
        TimedIndex,
        IndexError,
    >)
        requires
            old(self).wf(),
        ensures
            final(self).wf(),
            old(self)@.kept_by(final(self)@),
            match res {
                Ok(timed) => old(self)@.position(index) == Ok::<int, IndexError>(timed.pos as int)
                   
                        && timed.pseudotime == final(self)@.pseudotime()
                        && final(self)@ == old(self)@.inserted(timed.pos as int, val),
                Err(e) => old(self)@.position(index) == Err::<int, IndexError>(e) && final(self)@
                    == old(self)@,
            },
    {
        match self.latest_index(index) {
            Ok(at) => Ok(self.try_insert(at, val)),
            Err(e) => Err(e),
        }
    }

    /// Inserts a value after the one that the index names, in a new
    /// snapshot. Fails, changing nothing, unless that value is alive.
    pub fn try_insert_after(&mut self, index: TracingIndex, val: X) -> (res: Result<
        TimedIndex,
        IndexError,
    >)
        requires
            old(self).wf(),
        ensures
            final(self).wf(),
            old(self)@.kept_by(final(self)@),
            match res {
                Ok(timed) => old(self)@.position(index) == Ok::<int, IndexError>(timed.pos - 1)
                   
                        && timed.pseudotime == final(self)@.pseudotime()
                        && final(self)@ == old(self)@.inserted(timed.pos as int, val),
                Err(e) => old(self)@.position(index) == Err::<int, IndexError>(e) && final(self)@
                    == old(self)@,
            },
    {
        match self.latest_index(index) {
            Ok(at) => Ok(self.try_insert(at + 1, val)),
            Err(e) => Err(e),
        }
    }

    /// As `try_insert_before`, for an index that is known to be alive.
    pub fn insert_before(&mut self, index: TracingIndex, val: X) -> (timed: TimedIndex)
        requires
            old(self).wf(),
            old(self)@.alive(index),
        ensures
            final(self).wf(),
            old(self)@.kept_by(final(self)@),
            old(self)@.position(index) == Ok::<int, IndexError>(timed.pos as int),
            timed.pseudotime == final(self)@.pseudotime(),
            final(self)@ == old(self)@.inserted(timed.pos as int, val),
    {
        match self.latest_index(index) {
            Ok(at) => self.try_insert(at, val),
            Err(_) => {
                proof {
                    assert(false);
                }
                TimedIndex { pos: 0, pseudotime: 0 }
            },
        }
    }

    /// As `try_insert_after`, for an index that is known to be alive.
    pub fn insert_after(&mut self, index: TracingIndex, val: X) -> (timed: TimedIndex)
        requires
            old(self).wf(),
            old(self)@.alive(index),
        ensures
            final(self).wf(),
            old(self)@.kept_by(final(self)@),
            old(self)@.position(index) == Ok::<int, IndexError>(timed.pos - 1),
            timed.pseudotime == final(self)@.pseudotime(),
            final(self)@ == old(self)@.inserted(timed.pos as int, val),
    {
        match self.latest_index(index) {
            Ok(at) => self.try_insert(at + 1, val),
            Err(_) => {
                proof {
                    assert(false);
                }
                TimedIndex { pos: 0, pseudotime: 0 }
            },
        }
    }

    fn remove_at(&mut self, at: usize) -> (slot: TimelessIndex)
        requires
            old(self).wf(),
            at < old(self)@.latest().len(),
        ensures
            final(self).wf(),
            old(self)@.kept_by(final(self)@),
            final(self)@ == old(self)@.removed(at as int),
            slot.pos == old(self)@.latest()[at as int],
    {
        self.new_snapshot();
        let last = self.snapshots.len() - 1;
        assert(self.snapshots@[last as int]@ == self@.snapshots[last as int]);
        let ghost copied = self@;
        let pos = self.snapshots[last].remove(at);
        proof {
            let goal = old(self)@.removed(at as int);
            assert(self@.snapshots.len() == goal.snapshots.len());
            assert forall|t: int| 0 <= t < goal.snapshots.len() implies self@.snapshots[t]
                == goal.snapshots[t] by {
                if t < last {
                    assert(self@.snapshots[t] == copied.snapshots[t]);
                }
            }
            let order = old(self)@.latest().remove(at as int);
            assert(self@.store =~= goal.store);
            assert(self@.births =~= goal.births);
            assert(self@.snapshots =~= goal.snapshots);
            assert(order.no_duplicates()) by {
                assert(old(self)@.latest().no_duplicates());
                assert forall|i: int, j: int| 0 <= i < order.len() && 0 <= j < order.len() && i != j
                implies order[i] != order[j] by {
                    let oi = if i < at { i } else { i + 1 };
                    let oj = if j < at { j } else { j + 1 };
                    assert(order[i] == old(self)@.latest()[oi]);
                    assert(order[j] == old(self)@.latest()[oj]);
                }
            }
            assert forall|t: int| 0 <= t < self@.snapshots.len() implies (
            #[trigger] self@.snapshots[t]).no_duplicates() by {
                if t < old(self)@.snapshots.len() {
                    assert(old(self)@.snapshots[t].no_duplicates());
                }
            }
            assert forall|t: int, p: int|
                0 <= t < self@.snapshots.len() && 0 <= p < self@.snapshots[t].len() implies (
            #[trigger] self@.snapshots[t][p]) < self@.store.len() by {
                if t < old(self)@.snapshots.len() {
                    assert(old(self)@.snapshots[t][p] < old(self)@.store.len());
                } else {
                    let op = if p < at { p } else { p + 1 };
                    assert(order[p] == old(self)@.latest()[op]);
                }
            }
        }
        TimelessIndex { pos }
    }

    /// Takes the value that the index names out of the order, in a new
    /// snapshot. The value stays in the store, and the slot that is returned
    /// names it for good. Fails, changing nothing, unless the value is alive.
    pub fn try_remove(&mut self, index: TracingIndex) -> (res: Result<TimelessIndex, IndexError>)
        requires
            old(self).wf(),
        ensures
            final(self).wf(),
            old(self)@.kept_by(final(self)@),
            match res {
                Ok(slot) => old(self)@.position(index).is_ok()
                    && old(self)@.timeless(index) == Ok::<
                    TimelessIndex,
                    IndexError,
                >(slot) && final(self)@ == old(self)@.removed(old(self)@.position(index).unwrap()),
                Err(e) => old(self)@.position(index) == Err::<int, IndexError>(e) && final(self)@
                    == old(self)@,
            },
    {
        match self.latest_index(index) {
            Ok(at) => Ok(self.remove_at(at)),
            Err(e) => Err(e),
        }
    }

    /// As `try_remove`, for an index that is known to be alive.
    pub fn remove(&mut self, index: TracingIndex) -> (slot: TimelessIndex)
        requires
            old(self).wf(),
            old(self)@.alive(index),
        ensures
            final(self).wf(),
            old(self)@.kept_by(final(self)@),
            old(self)@.timeless(index) == Ok::<TimelessIndex, IndexError>(slot),
            final(self)@ == old(self)@.removed(old(self)@.position(index).unwrap()),
    {
        match self.latest_index(index) {
            Ok(at) => self.remove_at(at),
            Err(_) => {
                proof {
                    assert(false);
                }
                TimelessIndex { pos: 0 }
            },
        }
    }

    /// Takes the last value out of the order. A new snapshot is made even
    /// when there is nothing to take.
    pub fn pop(&mut self) -> (res: Option<TimelessIndex>)
        requires
            old(self).wf(),
        ensures
            final(self).wf(),
            old(self)@.kept_by(final(self)@),
            match res {
                Some(slot) => old(self)@.latest().len() > 0
                    && slot.pos == old(self)@.latest().last()
                    && final(self)@ == old(self)@.removed(old(self)@.latest().len() - 1),
                None => old(self)@.latest().len() == 0 && final(self)@ == old(self)@.advanced(
                    old(self)@.latest(),
                ),
            },
    {
        let len = self.snapshots[self.snapshots.len() - 1].len();
        if len == 0 {
            self.new_snapshot();
            None
        } else {
            Some(self.remove_at(len - 1))
        }
    }

    /// Resolves every index of a list against the latest snapshot, or says
    /// which is the first that cannot be.
    fn resolve_all(&self, indices: &Vec<TracingIndex>) -> (res: Result<Vec<usize>, IndexError>)
        requires
            self.wf(),
        ensures
            match res {
                Ok(slots) => indices@.len() > 0 && self@.all_alive(indices@) && slots@
                    == self@.resolved(indices@),
                Err(e) => self@.splice_failure(indices@, e),
            },
    {
        if indices.len() == 0 {
            return Err(IndexError::NoIndicesProvided);
        }
        let mut slots: Vec<usize> = Vec::new();
        let mut i: usize = 0;
        while i < indices.len()
            invariant
                self.wf(),
                i <= indices.len(),
                indices@.len() > 0,
                self@.all_alive(indices@.take(i as int)),
                slots@ == self@.resolved(indices@.take(i as int)),
            decreases indices.len() - i,
        {
            match self.latest_index(indices[i]) {
                Ok(_) => {},
                Err(e) => {
                    return Err(e);
                },
            }
            let slot = match self.into_timeless(indices[i]) {
                Ok(slot) => slot,
                Err(_) => {
                    proof {
                        assert(false);
                    }
                    TimelessIndex { pos: 0 }
                },
            };
            slots.push(slot.pos);
            proof {
                let before = indices@.take(i as int);
                let after = indices@.take(i + 1);
                assert(after =~= before.push(indices@[i as int]));
                assert(slots@ =~= self@.resolved(after));
                assert forall|k: int| 0 <= k < after.len() implies self@.alive(
                    #[trigger] after[k],
                ) by {
                    if k < i {
                        assert(after[k] == before[k]);
                    }
                }
            }
            i += 1;
        }
        assert(indices@.take(i as int) =~= indices@);
        Ok(slots)
    }

    fn holds(slots: &Vec<usize>, slot: usize) -> (b: bool)
        ensures
            b == slots@.contains(slot),
    {
        let mut i: usize = 0;
        while i < slots.len()
            invariant
                i <= slots.len(),
                forall|k: int| 0 <= k < i ==> slots@[k] != slot,
            decreases slots.len() - i,
        {
            if slots[i] == slot {
                return true;
            }
            i += 1;
        }
        false
    }

    /// Stores `val` and starts a snapshot in which it stands for all the
    /// slots in `gone`, at the place of the first of them.
    fn splice(&mut self, gone: &Vec<usize>, val: X) -> (at: usize)
        requires
            old(self).wf(),
            gone@.len() > 0,
            forall|i: int| 0 <= i < gone@.len() ==> old(self)@.latest().contains(#[trigger] gone@[i]),
        ensures
            final(self).wf(),
            old(self)@.kept_by(final(self)@),
            final(self)@ == old(self)@.spliced(gone@, val),
            at == old(self)@.first_of(gone@),
            at < old(self)@.latest().len(),
            gone@.contains(old(self)@.latest()[at as int]),
            forall|q: int| 0 <= q < at ==> !gone@.contains(#[trigger] old(self)@.latest()[q]),
    {
        let birth = self.pseudotime();
        let slot = self.mem.len();
        let last = self.snapshots.len() - 1;
        let ghost latest = self@.latest();
        let ghost pred = Traces::<X>::outside(gone@);
        let mut kept: Vec<usize> = Vec::new();
        let mut first: Option<usize> = None;
        let mut p: usize = 0;
        assert(latest.take(0).filter(pred) =~= Seq::<usize>::empty()) by {
            reveal(Seq::filter);
        }
        while p < self.snapshots[last].len()
            invariant
                self.wf(),
                *self == *old(self),
                last == self.snapshots.len() - 1,
                latest == self@.latest(),
                self.snapshots@[last as int]@ == latest,
                slot == self@.store.len(),
                pred == Traces::<X>::outside(gone@),
                p <= latest.len(),
                kept@ == latest.take(p as int).filter(pred),
                forall|k: int|
                    0 <= k < kept@.len() ==> exists|q: int|
                        0 <= q < p && latest[q] == #[trigger] kept@[k],
                kept@.no_duplicates(),
                match first {
                    None => kept@.len() == p && forall|q: int|
                        0 <= q < p ==> !gone@.contains(#[trigger] latest[q]),
                    Some(f) => f < p && f <= kept@.len() && gone@.contains(latest[f as int])
                        && forall|q: int| 0 <= q < f ==> !gone@.contains(#[trigger] latest[q]),
                },
            decreases latest.len() - p,
        {
            let s = self.snapshots[last][p];
            proof {
                assert(latest.take(p + 1) =~= latest.take(p as int).push(s));
                latest.take(p as int).lemma_filter_push(s, pred);
                assert(latest.no_duplicates());
            }
            if Self::holds(gone, s) {
                if first.is_none() {
                    first = Some(p);
                }
            } else {
                let ghost before = kept@;
                kept.push(s);
                proof {
                    assert forall|k: int| 0 <= k < kept@.len() implies exists|q: int|
                        0 <= q < p + 1 && latest[q] == #[trigger] kept@[k] by {
                        if k < before.len() {
                            let q = choose|q: int| 0 <= q < p && latest[q] == before[k];
                            assert(latest[q] == kept@[k]);
                        } else {
                            assert(latest[p as int] == kept@[k]);
                        }
                    }
                    assert forall|i: int, j: int|
                        0 <= i < kept@.len() && 0 <= j < kept@.len() && i != j implies kept@[i]
                        != kept@[j] by {
                        if i < before.len() && j < before.len() {
                            assert(before[i] != before[j]);
                        } else if i < before.len() {
                            let q = choose|q: int| 0 <= q < p && latest[q] == before[i];
                        } else {
                            let q = choose|q: int| 0 <= q < p && latest[q] == before[j];
                        }
                    }
                }
            }
            p += 1;
        }
        assert(latest.take(p as int) =~= latest);
        let at = match first {
            Some(f) => f,
            None => {
                proof {
                    let q = latest.index_of(gone@[0]);
                    assert(gone@.contains(gone@[0]));
                    assert(gone@.contains(latest[q]));
                    assert(false);
                }
                0
            },
        };
        self.mem.push(Trace { val, birth });
        kept.insert(at, slot);
        self.snapshots.push(kept);
        proof {
            self.lemma_fits();
            let goal = old(self)@.spliced(gone@, val);
            let found = old(self)@.first_of(gone@);
            assert(found == at) by {
                if found < at {
                    assert(!gone@.contains(latest[found]));
                } else if found > at {
                    assert(!gone@.contains(latest[at as int]));
                }
            }
            let order = old(self)@.remaining(gone@).insert(at as int, slot);
            assert(self@.store =~= goal.store);
            assert(self@.births =~= goal.births);
            assert(self@.snapshots =~= goal.snapshots);
            let rest = old(self)@.remaining(gone@);
            assert forall|k: int| 0 <= k < order.len() implies #[trigger] order[k] <= slot by {
                if k < at {
                    let q = choose|q: int| 0 <= q < latest.len() && latest[q] == rest[k];
                    assert(order[k] == rest[k]);
                } else if k > at {
                    let q = choose|q: int| 0 <= q < latest.len() && latest[q] == rest[k - 1];
                    assert(order[k] == rest[k - 1]);
                }
            }
            assert(order.no_duplicates()) by {
                assert forall|i: int, j: int| 0 <= i < order.len() && 0 <= j < order.len() && i != j
                implies order[i] != order[j] by {
                    let oi = if i < at { i } else { i - 1 };
                    let oj = if j < at { j } else { j - 1 };
                    if i != at {
                        let q = choose|q: int| 0 <= q < latest.len() && latest[q] == rest[oi];
                        assert(order[i] == rest[oi]);
                        assert(order[i] < slot);
                    }
                    if j != at {
                        let q = choose|q: int| 0 <= q < latest.len() && latest[q] == rest[oj];
                        assert(order[j] == rest[oj]);
                        assert(order[j] < slot);
                    }
                }
            }
            assert forall|t: int| 0 <= t < self@.snapshots.len() implies (
            #[trigger] self@.snapshots[t]).no_duplicates() by {
                if t < old(self)@.snapshots.len() {
                    assert(old(self)@.snapshots[t].no_duplicates());
                }
            }
            assert forall|t: int, q: int|
                0 <= t < self@.snapshots.len() && 0 <= q < self@.snapshots[t].len() implies (
            #[trigger] self@.snapshots[t][q]) < self@.store.len() by {
                if t < old(self)@.snapshots.len() {
                    assert(old(self)@.snapshots[t][q] < old(self)@.store.len());
                } else {
                    assert(order[q] <= slot);
                }
            }
        }
        at
    }
}

} // verus!
