//! What holds of a tracing vector across its operations.

use super::{IndexError, TimedIndex, TimelessIndex, Traces, TracingIndex};
use vstd::prelude::*;

verus! {

impl<X> Traces<X> {
    /// Whether `later` still has all that `self` has: the same values in the
    /// same slots, and every snapshot of `self`, each grown at its end at
    /// most.
    pub open spec fn kept_by(self, later: Self) -> bool {
        &&& self.store.is_prefix_of(later.store)
        &&& self.snapshots.len() <= later.snapshots.len()
        &&& forall|t: int|
            0 <= t < self.snapshots.len() ==> (#[trigger] self.snapshots[t]).is_prefix_of(
                later.snapshots[t],
            )
    }

    /// Nothing is lost by doing nothing.
    pub proof fn lemma_kept_by_itself(self)
        ensures
            self.kept_by(self),
    {
    }

    /// What is kept twice over is kept.
    pub proof fn lemma_kept_by_chain(self, mid: Self, later: Self)
        requires
            self.kept_by(mid),
            mid.kept_by(later),
        ensures
            self.kept_by(later),
    {
        assert forall|t: int| 0 <= t < self.snapshots.len() implies (
        #[trigger] self.snapshots[t]).is_prefix_of(later.snapshots[t]) by {
            assert(self.snapshots[t].is_prefix_of(mid.snapshots[t]));
            assert(mid.snapshots[t].is_prefix_of(later.snapshots[t]));
        }
    }

    /// Appending keeps everything.
    pub proof fn lemma_pushed_keeps(self, val: X)
        requires
            self.wf(),
        ensures
            self.kept_by(self.pushed(val)),
    {
    }

    /// Starting a snapshot keeps everything.
    pub proof fn lemma_advanced_keeps(self, order: Seq<usize>)
        requires
            self.wf(),
        ensures
            self.kept_by(self.advanced(order)),
    {
    }

    /// Inserting keeps everything.
    pub proof fn lemma_inserted_keeps(self, at: int, val: X)
        requires
            self.wf(),
        ensures
            self.kept_by(self.inserted(at, val)),
    {
    }

    /// Removing keeps everything.
    pub proof fn lemma_removed_keeps(self, at: int)
        requires
            self.wf(),
        ensures
            self.kept_by(self.removed(at)),
    {
    }

    /// Splicing keeps everything.
    pub proof fn lemma_spliced_keeps(self, gone: Seq<usize>, val: X)
        requires
            self.wf(),
        ensures
            self.kept_by(self.spliced(gone, val)),
    {
    }

    /// Snapshot stability: a timed index that resolves in a vector resolves
    /// to the same slot, and to the same value, in every vector that keeps
    /// what the first one had, whatever was inserted or removed in between.
    pub proof fn lemma_snapshot_stability(self, later: Self, index: TimedIndex)
        requires
            self.wf(),
            self.kept_by(later),
            self.location(index).is_ok(),
        ensures
            later.location(index) == self.location(index),
            later.timeless(TracingIndex::Timed(index)) == self.timeless(TracingIndex::Timed(index)),
            later.value(TracingIndex::Timed(index)) == self.value(TracingIndex::Timed(index)),
    {
        let t = index.pseudotime as int;
        assert(self.snapshots[t].is_prefix_of(later.snapshots[t]));
        assert(self.snapshots[t][index.pos as int] < self.store.len());
    }

    /// A slot, once it names a value, names the same value in every vector
    /// that keeps what the first one had.
    pub proof fn lemma_slot_stability(self, later: Self, index: TimelessIndex)
        requires
            self.kept_by(later),
            index.pos < self.store.len(),
        ensures
            later.value(TracingIndex::Timeless(index)) == self.value(TracingIndex::Timeless(index)),
    {
    }

    /// The index that an insertion returns resolves, in its own snapshot, to
    /// the value that was inserted.
    pub proof fn lemma_inserted_resolves(self, at: usize, val: X)
        requires
            self.wf(),
            at <= self.latest().len(),
            self.snapshots.len() < usize::MAX,
            self.store.len() < usize::MAX,
        ensures
            self.inserted(at as int, val).value(
                TracingIndex::Timed(
                    TimedIndex { pos: at, pseudotime: self.snapshots.len() as usize },
                ),
            ) == Ok::<X, IndexError>(val),
    {
        let after = self.inserted(at as int, val);
        let order = self.latest().insert(at as int, self.store.len() as usize);
        assert(after.snapshots[self.snapshots.len() as int] == order);
        assert(order[at as int] == self.store.len());
    }

    /// What a snapshot without the slots in `gone` still holds.
    pub proof fn lemma_filtered(order: Seq<usize>, gone: Seq<usize>)
        requires
            order.no_duplicates(),
        ensures
            order.filter(Self::outside(gone)).no_duplicates(),
            forall|k: int|
                0 <= k < order.filter(Self::outside(gone)).len() ==> order.contains(
                    #[trigger] order.filter(Self::outside(gone))[k],
                ) && !gone.contains(order.filter(Self::outside(gone))[k]),
            forall|p: int|
                0 <= p < order.len() && !gone.contains(#[trigger] order[p]) ==> order.filter(
                    Self::outside(gone),
                ).contains(order[p]),
        decreases order.len(),
    {
        reveal(Seq::filter);
        let pred = Self::outside(gone);
        let kept = order.filter(pred);
        if order.len() > 0 {
            let front = order.drop_last();
            let part = front.filter(pred);
            Self::lemma_filtered(front, gone);
            assert forall|k: int| 0 <= k < kept.len() implies order.contains(#[trigger] kept[k])
                && !gone.contains(kept[k]) by {
                if k < part.len() {
                    assert(front.contains(part[k]));
                    let q = choose|q: int| 0 <= q < front.len() && front[q] == part[k];
                    assert(order[q] == kept[k]);
                } else {
                    assert(order[order.len() - 1] == kept[k]);
                }
            }
            assert forall|i: int, j: int| 0 <= i < kept.len() && 0 <= j < kept.len() && i != j
            implies kept[i] != kept[j] by {
                if i < part.len() && j < part.len() {
                    assert(part[i] != part[j]);
                } else if i < part.len() {
                    assert(front.contains(part[i]));
                    let q = choose|q: int| 0 <= q < front.len() && front[q] == part[i];
                    assert(order[q] != order[order.len() - 1]);
                } else if j < part.len() {
                    assert(front.contains(part[j]));
                    let q = choose|q: int| 0 <= q < front.len() && front[q] == part[j];
                    assert(order[q] != order[order.len() - 1]);
                }
            }
            assert forall|p: int| 0 <= p < order.len() && !gone.contains(#[trigger] order[p])
            implies kept.contains(order[p]) by {
                if p < front.len() {
                    assert(front[p] == order[p]);
                    assert(part.contains(front[p]));
                    let k = choose|k: int| 0 <= k < part.len() && part[k] == front[p];
                    assert(kept[k] == order[p]);
                } else {
                    assert(kept[kept.len() - 1] == order[p]);
                }
            }
        }
    }

    /// A snapshot without the slots in `gone` begins as the snapshot does,
    /// up to the first slot that is in `gone`.
    pub proof fn lemma_filtered_front(order: Seq<usize>, gone: Seq<usize>, n: int)
        requires
            0 <= n <= order.len(),
            forall|q: int| 0 <= q < n ==> !gone.contains(#[trigger] order[q]),
        ensures
            order.take(n).is_prefix_of(order.filter(Self::outside(gone))),
        decreases n,
    {
        let pred = Self::outside(gone);
        assert(order.take(n).filter(pred) == order.take(n)) by {
            Self::lemma_all_outside(order.take(n), gone);
        }
        order.take(n).lemma_filter_monotone(order, pred);
    }

    /// A snapshot that holds no slot in `gone` is left as it is.
    pub proof fn lemma_all_outside(order: Seq<usize>, gone: Seq<usize>)
        requires
            forall|q: int| 0 <= q < order.len() ==> !gone.contains(#[trigger] order[q]),
        ensures
            order.filter(Self::outside(gone)) == order,
        decreases order.len(),
    {
        reveal(Seq::filter);
        if order.len() > 0 {
            let front = order.drop_last();
            assert forall|q: int| 0 <= q < front.len() implies !gone.contains(
                #[trigger] front[q],
            ) by {
                assert(front[q] == order[q]);
            }
            Self::lemma_all_outside(front, gone);
            assert(!gone.contains(order[order.len() - 1]));
            assert(front.push(order.last()) =~= order);
        }
    }

    /// Among the positions up to `n` whose slot is in `gone`, the least.
    pub proof fn lemma_least_gone(order: Seq<usize>, gone: Seq<usize>, n: int) -> (p: int)
        requires
            0 <= n < order.len(),
            gone.contains(order[n]),
        ensures
            0 <= p <= n,
            gone.contains(order[p]),
            forall|q: int| 0 <= q < p ==> !gone.contains(#[trigger] order[q]),
        decreases n,
    {
        if exists|q: int| 0 <= q < n && gone.contains(order[q]) {
            let q = choose|q: int| 0 <= q < n && gone.contains(order[q]);
            Self::lemma_least_gone(order, gone, q)
        } else {
            n
        }
    }

    /// Where a splice puts its value: at a position whose slot is in `gone`,
    /// before which none is.
    pub proof fn lemma_first_of(self, gone: Seq<usize>)
        requires
            exists|p: int| 0 <= p < self.latest().len() && gone.contains(self.latest()[p]),
        ensures
            0 <= self.first_of(gone) < self.latest().len(),
            gone.contains(self.latest()[self.first_of(gone)]),
            forall|q: int| 0 <= q < self.first_of(gone) ==> !gone.contains(#[trigger] self.latest()[q]),
    {
        let n = choose|p: int| 0 <= p < self.latest().len() && gone.contains(self.latest()[p]);
        let p = Self::lemma_least_gone(self.latest(), gone, n);
        assert(0 <= p < self.latest().len() && gone.contains(self.latest()[p]) && forall|q: int|
            0 <= q < p ==> !gone.contains(#[trigger] self.latest()[q]));
    }

    /// Whether `after` has one new value in place of what some indices
    /// named in `self`: none of the indices is alive in it, and the new
    /// value stands at `at`, the least of the positions that they had.
    pub open spec fn replaced_by(self, indices: Seq<TracingIndex>, after: Self, at: int) -> bool {
        &&& forall|i: int| 0 <= i < indices.len() ==> !after.alive(#[trigger] indices[i])
        &&& 0 <= at < self.latest().len()
        &&& after.latest()[at] == self.store.len()
        &&& forall|i: int|
            0 <= i < indices.len() ==> at <= self.position(#[trigger] indices[i]).unwrap()
        &&& exists|i: int|
            0 <= i < indices.len() && self.position(#[trigger] indices[i]) == Ok::<
                int,
                IndexError,
            >(at)
    }

    /// No aliasing on replace: after a splice on indices that were all
    /// alive, the vector is valid, none of those indices is alive, and the
    /// new value stands in the latest snapshot at the least of the positions
    /// that they had.
    pub proof fn lemma_spliced_replaces(self, indices: Seq<TracingIndex>, val: X)
        requires
            self.wf(),
            self.snapshots.len() < usize::MAX,
            self.store.len() < usize::MAX,
            indices.len() > 0,
            self.all_alive(indices),
        ensures
            self.replaced_by(
                indices,
                self.spliced(self.resolved(indices), val),
                self.first_of(self.resolved(indices)),
            ),
            ({
                let after = self.spliced(self.resolved(indices), val);
                let at = self.first_of(self.resolved(indices));
                &&& after.wf()
                &&& forall|i: int| 0 <= i < indices.len() ==> !after.alive(#[trigger] indices[i])
                &&& 0 <= at < self.latest().len()
                &&& after.latest()[at] == self.store.len()
                &&& after.store[self.store.len() as int] == val
                &&& forall|i: int|
                    0 <= i < indices.len() ==> at <= self.position(#[trigger] indices[i]).unwrap()
                &&& exists|i: int|
                    0 <= i < indices.len() && self.position(#[trigger] indices[i]) == Ok::<
                        int,
                        IndexError,
                    >(at)
            }),
    {
        let gone = self.resolved(indices);
        let after = self.spliced(gone, val);
        let latest = self.latest();
        let rest = self.remaining(gone);
        let fresh = self.store.len() as usize;
        self.lemma_resolved_alive(indices);
        assert(latest.contains(gone[0]));
        assert(gone.contains(gone[0]));
        let witness = latest.index_of(gone[0]);
        assert(0 <= witness < latest.len() && gone.contains(latest[witness]));
        self.lemma_first_of(gone);
        let at = self.first_of(gone);
        assert(latest.no_duplicates());
        Self::lemma_filtered(latest, gone);
        Self::lemma_filtered_front(latest, gone, at);
        assert(latest.take(at).len() == at);
        assert(at <= rest.len());
        let order = rest.insert(at, fresh);
        assert(after.latest() == order);
        assert forall|k: int| 0 <= k < order.len() && k != at implies (#[trigger] order[k])
            < fresh && !gone.contains(order[k]) by {
            let r = if k < at { k } else { k - 1 };
            assert(order[k] == rest[r]);
            assert(latest.contains(rest[r]));
            let q = choose|q: int| 0 <= q < latest.len() && latest[q] == rest[r];
            assert(self.snapshots[self.pseudotime()][q] < self.store.len());
        }
        assert(order.no_duplicates()) by {
            assert forall|i: int, j: int| 0 <= i < order.len() && 0 <= j < order.len() && i != j
            implies order[i] != order[j] by {
                let ri = if i < at { i } else { i - 1 };
                let rj = if j < at { j } else { j - 1 };
                if i != at && j != at {
                    assert(order[i] == rest[ri]);
                    assert(order[j] == rest[rj]);
                }
            }
        }
        assert(after.wf()) by {
            assert forall|t: int| 0 <= t < after.snapshots.len() implies (
            #[trigger] after.snapshots[t]).no_duplicates() by {
                if t < self.snapshots.len() {
                    assert(self.snapshots[t].no_duplicates());
                }
            }
            assert forall|t: int, q: int|
                0 <= t < after.snapshots.len() && 0 <= q < after.snapshots[t].len() implies (
            #[trigger] after.snapshots[t][q]) < after.store.len() by {
                if t < self.snapshots.len() {
                    assert(self.snapshots[t][q] < self.store.len());
                } else if q != at {
                    assert(order[q] < fresh);
                }
            }
        }
        self.lemma_spliced_keeps(gone, val);
        assert forall|i: int| 0 <= i < indices.len() implies !after.alive(#[trigger] indices[i]) by {
            assert(self.alive(indices[i]));
            assert(gone.contains(gone[i]));
            match indices[i] {
                TracingIndex::Timed(timed) => {
                    self.lemma_snapshot_stability(after, timed);
                },
                TracingIndex::Timeless(timeless) => {},
            }
            assert(after.timeless(indices[i]) == Ok::<TimelessIndex, IndexError>(
                TimelessIndex { pos: gone[i] },
            ));
            if order.contains(gone[i]) {
                let k = choose|k: int| 0 <= k < order.len() && order[k] == gone[i];
                if k != at {
                    assert(!gone.contains(order[k]));
                }
                assert(false);
            }
        }
        assert forall|i: int| 0 <= i < indices.len() implies at <= self.position(
            #[trigger] indices[i],
        ).unwrap() by {
            assert(self.alive(indices[i]));
            assert(gone.contains(gone[i]));
            let p = latest.index_of(gone[i]);
            if p < at {
                assert(!gone.contains(latest[p]));
            }
        }
        let i = choose|i: int| 0 <= i < gone.len() && gone[i] == latest[at];
        assert(self.alive(indices[i]));
        assert(self.position(indices[i]) == Ok::<int, IndexError>(at)) by {
            let p = latest.index_of(gone[i]);
            assert(latest[p] == latest[at]);
        }
    }
}

impl<X> Traces<X> {
    /// The same history over other values: each value of the store seen
    /// through `f`.
    pub open spec fn map_values<Y>(self, f: spec_fn(X) -> Y) -> Traces<Y> {
        Traces {
            store: Seq::new(self.store.len(), |i: int| f(self.store[i])),
            births: self.births,
            snapshots: self.snapshots,
        }
    }

    /// Seeing the values through `f` changes nothing about indices.
    pub proof fn lemma_map_indices<Y>(self, f: spec_fn(X) -> Y, index: TracingIndex)
        ensures
            self.map_values(f).wf() == self.wf(),
            self.map_values(f).timeless(index) == self.timeless(index),
            self.map_values(f).position(index) == self.position(index),
            self.map_values(f).alive(index) == self.alive(index),
    {
    }

    /// Inserting and then seeing through `f` is seeing through `f` and then
    /// inserting what `f` makes of the value.
    pub proof fn lemma_map_inserted<Y>(self, f: spec_fn(X) -> Y, at: int, val: X)
        ensures
            self.inserted(at, val).map_values(f) == self.map_values(f).inserted(at, f(val)),
    {
        let a = self.inserted(at, val).map_values(f);
        let b = self.map_values(f).inserted(at, f(val));
        assert(a.store =~= b.store);
        assert(a.births =~= b.births);
        assert(a.snapshots =~= b.snapshots);
    }

    /// Appending and then seeing through `f` is seeing through `f` and then
    /// appending what `f` makes of the value.
    pub proof fn lemma_map_pushed<Y>(self, f: spec_fn(X) -> Y, val: X)
        ensures
            self.pushed(val).map_values(f) == self.map_values(f).pushed(f(val)),
    {
        let a = self.pushed(val).map_values(f);
        let b = self.map_values(f).pushed(f(val));
        assert(a.store =~= b.store);
        assert(a.births =~= b.births);
        assert(a.snapshots =~= b.snapshots);
    }

    /// Splicing and then seeing through `f` is seeing through `f` and then
    /// splicing with what `f` makes of the value.
    pub proof fn lemma_map_spliced<Y>(self, f: spec_fn(X) -> Y, gone: Seq<usize>, val: X)
        ensures
            self.spliced(gone, val).map_values(f) == self.map_values(f).spliced(gone, f(val)),
    {
        let a = self.spliced(gone, val).map_values(f);
        let b = self.map_values(f).spliced(gone, f(val));
        assert(self.map_values(f).latest() == self.latest());
        assert(self.map_values(f).remaining(gone) == self.remaining(gone));
        assert(self.map_values(f).first_of(gone) == self.first_of(gone));
        assert(a.store =~= b.store);
        assert(a.births =~= b.births);
        assert(a.snapshots =~= b.snapshots);
    }

    /// Making a vector of values and then seeing through `f` is making a
    /// vector of what `f` makes of the values.
    pub proof fn lemma_map_of_values<Y>(vals: Seq<X>, f: spec_fn(X) -> Y)
        ensures
            Self::of_values(vals).map_values(f) == Traces::<Y>::of_values(
                Seq::new(vals.len(), |i: int| f(vals[i])),
            ),
    {
        let a = Self::of_values(vals).map_values(f);
        let b = Traces::<Y>::of_values(Seq::new(vals.len(), |i: int| f(vals[i])));
        assert(a.store =~= b.store);
        assert(a.births =~= b.births);
        assert(a.snapshots[0] =~= b.snapshots[0]);
        assert(a.snapshots =~= b.snapshots);
    }
}

impl<X> Traces<X> {
    /// The error that a splice on `indices` ends in, if it ends in one:
    /// that of an empty list, or that of the first index that is not alive.
    pub open spec fn splice_error(self, indices: Seq<TracingIndex>) -> Option<IndexError> {
        if indices.len() == 0 {
            Some(IndexError::NoIndicesProvided)
        } else if self.all_alive(indices) {
            None
        } else {
            let k = choose|k: int|
                0 <= k < indices.len() && !self.alive(#[trigger] indices[k]) && self.all_alive(
                    indices.take(k),
                );
            Some(self.position(indices[k])->Err_0)
        }
    }

    /// The error that a splice ends in is the one that `splice_error`
    /// names.
    pub proof fn lemma_splice_error(self, indices: Seq<TracingIndex>, e: IndexError)
        requires
            self.splice_failure(indices, e),
        ensures
            self.splice_error(indices) == Some(e),
    {
        if indices.len() > 0 {
            let k = choose|k: int|
                0 <= k < indices.len() && self.position(#[trigger] indices[k]) == Err::<
                    int,
                    IndexError,
                >(e) && self.all_alive(indices.take(k));
            assert(!self.alive(indices[k]));
            let j = choose|j: int|
                0 <= j < indices.len() && !self.alive(#[trigger] indices[j]) && self.all_alive(
                    indices.take(j),
                );
            if j < k {
                assert(indices.take(k)[j] == indices[j]);
                assert(self.alive(indices.take(k)[j]));
            } else if k < j {
                assert(indices.take(j)[k] == indices[k]);
                assert(self.alive(indices.take(j)[k]));
            }
        }
    }
}

impl<X> Traces<X> {
    /// Seeing the values through `f` changes nothing about which indices
    /// are alive, where they resolve to, or how a splice on them ends.
    pub proof fn lemma_map_splice<Y>(self, f: spec_fn(X) -> Y, indices: Seq<TracingIndex>)
        ensures
            self.map_values(f).all_alive(indices) == self.all_alive(indices),
            self.map_values(f).resolved(indices) == self.resolved(indices),
            self.map_values(f).splice_error(indices) == self.splice_error(indices),
    {
        let mapped = self.map_values(f);
        assert forall|i: int| 0 <= i < indices.len() implies mapped.alive(#[trigger] indices[i])
            == self.alive(indices[i]) && mapped.timeless(indices[i]) == self.timeless(indices[i])
            && mapped.position(indices[i]) == self.position(indices[i]) by {
            self.lemma_map_indices(f, indices[i]);
        }
        assert(mapped.resolved(indices) =~= self.resolved(indices));
        if self.all_alive(indices) {
            assert forall|i: int| 0 <= i < indices.len() implies mapped.alive(
                #[trigger] indices[i],
            ) by {
                assert(self.alive(indices[i]));
            }
        }
        if mapped.all_alive(indices) {
            assert forall|i: int| 0 <= i < indices.len() implies self.alive(
                #[trigger] indices[i],
            ) by {
                assert(mapped.alive(indices[i]));
            }
        }
        if indices.len() > 0 && !self.all_alive(indices) {
            let first = self.lemma_first_dead(indices);
            self.lemma_map_alive(f, indices.take(first));
            let k1 = choose|k: int|
                0 <= k < indices.len() && !mapped.alive(#[trigger] indices[k]) && mapped.all_alive(
                    indices.take(k),
                );
            let k2 = choose|k: int|
                0 <= k < indices.len() && !self.alive(#[trigger] indices[k]) && self.all_alive(
                    indices.take(k),
                );
            if k1 < first {
                assert(indices.take(first)[k1] == indices[k1]);
                assert(self.alive(indices.take(first)[k1]));
            } else if first < k1 {
                assert(indices.take(k1)[first] == indices[first]);
                assert(mapped.alive(indices.take(k1)[first]));
            }
            if k2 < first {
                assert(indices.take(first)[k2] == indices[k2]);
                assert(self.alive(indices.take(first)[k2]));
            } else if first < k2 {
                assert(indices.take(k2)[first] == indices[first]);
                assert(self.alive(indices.take(k2)[first]));
            }
        }
    }

    /// Among indices that are not all alive, the first that is not.
    pub proof fn lemma_first_dead(self, indices: Seq<TracingIndex>) -> (k: int)
        requires
            !self.all_alive(indices),
        ensures
            0 <= k < indices.len(),
            !self.alive(indices[k]),
            self.all_alive(indices.take(k)),
        decreases indices.len(),
    {
        let front = indices.drop_last();
        if indices.len() == 0 {
            0
        } else if self.all_alive(front) {
            assert(indices.take(indices.len() - 1) =~= front);
            if self.alive(indices.last()) {
                assert forall|i: int| 0 <= i < indices.len() implies self.alive(
                    #[trigger] indices[i],
                ) by {
                    if i < front.len() {
                        assert(front[i] == indices[i]);
                        assert(self.alive(front[i]));
                    }
                }
            }
            indices.len() - 1
        } else {
            let k = self.lemma_first_dead(front);
            assert(front.take(k) =~= indices.take(k));
            assert(front[k] == indices[k]);
            k
        }
    }

    /// Seeing the values through `f` changes nothing about which indices
    /// are alive.
    pub proof fn lemma_map_alive<Y>(self, f: spec_fn(X) -> Y, indices: Seq<TracingIndex>)
        ensures
            self.map_values(f).all_alive(indices) == self.all_alive(indices),
    {
        let mapped = self.map_values(f);
        assert forall|i: int| 0 <= i < indices.len() implies mapped.alive(#[trigger] indices[i])
            == self.alive(indices[i]) by {
            self.lemma_map_indices(f, indices[i]);
        }
        if self.all_alive(indices) {
            assert forall|i: int| 0 <= i < indices.len() implies mapped.alive(
                #[trigger] indices[i],
            ) by {
                assert(self.alive(indices[i]));
            }
        }
        if mapped.all_alive(indices) {
            assert forall|i: int| 0 <= i < indices.len() implies self.alive(
                #[trigger] indices[i],
            ) by {
                assert(mapped.alive(indices[i]));
            }
        }
    }
}

} // verus!
