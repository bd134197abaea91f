//! Replacing several values of a tracing vector by one.

use super::{IndexError, TimedIndex, TimelessIndex, Traces, TracingIndex, TracingVec};
use vstd::prelude::*;

verus! {

impl<X: Clone> Traces<X> {
    /// Whether `vals` holds, one for one, a clone of the value that each
    /// index of the list names.
    pub open spec fn clones_of(self, indices: Seq<TracingIndex>, vals: Seq<X>) -> bool {
        &&& vals.len() == indices.len()
        &&& forall|i: int|
            0 <= i < indices.len() ==> cloned(
                self.store[self.resolved(indices)[i] as int],
                #[trigger] vals[i],
            )
    }
}

impl<X> TracingVec<X> {
    /// Takes the values that the indices name out of the order and puts
    /// `val` where the first of them stood, all in one new snapshot. Returns
    /// the slot of each index, in the order given. Fails, changing nothing,
    /// if the list is empty or one of the values is not alive.
    pub fn try_replace(&mut self, indices: Vec<TracingIndex>, val: X) -> (res: Result<
        Vec<TimelessIndex>,
        IndexError,
    >)
        requires
            old(self).wf(),
        ensures
            final(self).wf(),
            old(self)@.kept_by(final(self)@),
            res is Ok ==> old(self)@.replaced_by(
                indices@,
                final(self)@,
                old(self)@.first_of(old(self)@.resolved(indices@)),
            ),
            match res {
                Ok(slots) => indices@.len() > 0 && old(self)@.all_alive(indices@) && final(self)@
                    == old(self)@.spliced(old(self)@.resolved(indices@), val) && slots@.len()
                    == indices@.len() && forall|i: int|
                    0 <= i < indices@.len() ==> old(self)@.timeless(indices@[i]) == Ok::<
                        TimelessIndex,
                        IndexError,
                    >(#[trigger] slots@[i]),
                Err(e) => old(self)@.splice_failure(indices@, e) && final(self)@ == old(self)@,
            },
    {
        let gone = match self.resolve_all(&indices) {
            Ok(gone) => gone,
            Err(e) => {
                return Err(e);
            },
        };
        let mut slots: Vec<TimelessIndex> = Vec::new();
        let mut i: usize = 0;
        while i < gone.len()
            invariant
                i <= gone.len(),
                slots@.len() == i,
                forall|k: int| 0 <= k < i ==> (#[trigger] slots@[k]).pos == gone@[k],
            decreases gone.len() - i,
        {
            slots.push(TimelessIndex { pos: gone[i] });
            i += 1;
        }
        proof {
            self@.lemma_resolved_alive(indices@);
        }
        self.splice(&gone, val);
        proof {
            old(self)@.lemma_spliced_replaces(indices@, val);
        }
        Ok(slots)
    }
}

impl<X: Clone> TracingVec<X> {
    /// A clone of the value in each of the given slots.
    fn clones(&self, gone: &Vec<usize>) -> (vals: Vec<X>)
        requires
            self.wf(),
            forall|i: int| 0 <= i < gone@.len() ==> (#[trigger] gone@[i]) < self@.store.len(),
        ensures
            vals@.len() == gone@.len(),
            forall|i: int|
                0 <= i < gone@.len() ==> cloned(self@.store[gone@[i] as int], #[trigger] vals@[i]),
    {
        let mut vals: Vec<X> = Vec::new();
        let mut i: usize = 0;
        while i < gone.len()
            invariant
                self.wf(),
                i <= gone.len(),
                vals@.len() == i,
                forall|k: int| 0 <= k < gone@.len() ==> (#[trigger] gone@[k]) < self@.store.len(),
                forall|k: int|
                    0 <= k < i ==> cloned(self@.store[gone@[k] as int], #[trigger] vals@[k]),
            decreases gone.len() - i,
        {
            let val = match self.get(TracingIndex::Timeless(TimelessIndex { pos: gone[i] })) {
                Ok(val) => val.clone(),
                Err(_) => {
                    proof {
                        assert(false);
                    }
                    return vals;
                },
            };
            vals.push(val);
            i += 1;
        }
        vals
    }

    /// Takes the values that the indices name out of the order, hands
    /// clones of them to `f`, in the order given, and puts what `f` makes of
    /// them where the first of them stood, all in one new snapshot. Fails,
    /// changing nothing and without calling `f`, if the list is empty or one
    /// of the values is not alive.
    pub fn try_replace_with<F: FnOnce(Vec<X>) -> X>(
        &mut self,
        indices: Vec<TracingIndex>,
        f: F,
    ) -> (res: Result<TimedIndex, IndexError>)
        requires
            old(self).wf(),
            forall|vals: Vec<X>| old(self)@.clones_of(indices@, vals@) ==> f.requires((vals,)),
        ensures
            final(self).wf(),
            old(self)@.kept_by(final(self)@),
            res is Ok ==> old(self)@.replaced_by(
                indices@,
                final(self)@,
                old(self)@.first_of(old(self)@.resolved(indices@)),
            ),
            match res {
                Ok(timed) => indices@.len() > 0 && old(self)@.all_alive(indices@) && (exists|
                    vals: Vec<X>,
                |
                    old(self)@.clones_of(indices@, vals@) && f.ensures(
                        (vals,),
                        final(self)@.store.last(),
                    )) && final(self)@ == old(self)@.spliced(
                    old(self)@.resolved(indices@),
                    final(self)@.store.last(),
                ) && timed.pos == old(self)@.first_of(old(self)@.resolved(indices@))
                    && timed.pseudotime == final(self)@.pseudotime(),
                Err(e) => old(self)@.splice_failure(indices@, e) && final(self)@ == old(self)@,
            },
    {
        let gone = match self.resolve_all(&indices) {
            Ok(gone) => gone,
            Err(e) => {
                return Err(e);
            },
        };
        proof {
            self@.lemma_resolved_alive(indices@);
        }
        let vals = self.clones(&gone);
        let ghost handed = vals;
        assert(self@.clones_of(indices@, vals@));
        let val = f(vals);
        let pos = self.splice(&gone, val);
        proof {
            old(self)@.lemma_spliced_replaces(indices@, val);
        }
        assert(self@.store.last() == val);
        assert(old(self)@.clones_of(indices@, handed@) && f.ensures((handed,), val));
        Ok(TimedIndex { pos, pseudotime: self.pseudotime() })
    }

    /// As `try_replace_with`, for a list of indices that is not empty and
    /// names only values that are alive.
    pub fn replace_with<F: FnOnce(Vec<X>) -> X>(&mut self, indices: Vec<TracingIndex>, f: F) -> (timed:
        TimedIndex)
        requires
            old(self).wf(),
            indices@.len() > 0,
            old(self)@.all_alive(indices@),
            forall|vals: Vec<X>| old(self)@.clones_of(indices@, vals@) ==> f.requires((vals,)),
        ensures
            final(self).wf(),
            old(self)@.kept_by(final(self)@),
            old(self)@.replaced_by(
                indices@,
                final(self)@,
                old(self)@.first_of(old(self)@.resolved(indices@)),
            ),
            exists|vals: Vec<X>|
                old(self)@.clones_of(indices@, vals@) && f.ensures(
                    (vals,),
                    final(self)@.store.last(),
                ),
            final(self)@ == old(self)@.spliced(
                old(self)@.resolved(indices@),
                final(self)@.store.last(),
            ),
            timed.pos == old(self)@.first_of(old(self)@.resolved(indices@)),
            timed.pseudotime == final(self)@.pseudotime(),
    {
        match self.try_replace_with(indices, f) {
            Ok(timed) => timed,
            Err(e) => {
                proof {
                    old(self)@.lemma_failure_not_alive(indices@, e);
                    assert(false);
                }
                TimedIndex { pos: 0, pseudotime: 0 }
            },
        }
    }
}

impl<X> TracingVec<X> {
    /// As `try_replace`, for a list of indices that is not empty and names
    /// only values that are alive.
    pub fn replace(&mut self, indices: Vec<TracingIndex>, val: X) -> (slots: Vec<TimelessIndex>)
        requires
            old(self).wf(),
            indices@.len() > 0,
            old(self)@.all_alive(indices@),
        ensures
            final(self).wf(),
            old(self)@.kept_by(final(self)@),
            old(self)@.replaced_by(
                indices@,
                final(self)@,
                old(self)@.first_of(old(self)@.resolved(indices@)),
            ),
            final(self)@ == old(self)@.spliced(old(self)@.resolved(indices@), val),
            slots@.len() == indices@.len(),
            forall|i: int|
                0 <= i < indices@.len() ==> old(self)@.timeless(indices@[i]) == Ok::<
                    TimelessIndex,
                    IndexError,
                >(#[trigger] slots@[i]),
    {
        match self.try_replace(indices, val) {
            Ok(slots) => slots,
            Err(e) => {
                proof {
                    old(self)@.lemma_failure_not_alive(indices@, e);
                    assert(false);
                }
                Vec::new()
            },
        }
    }
}

} // verus!
