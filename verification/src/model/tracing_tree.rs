//! A tree whose values are found by traces.
//!
//! Each value is stored with the way that leads to it. For now the tree
//! grows at its top only: a value that is appended gets the place after
//! the last value of the top.

pub mod index;

pub use index::{IndexError, Subtree, TimeSpan, TimedIndex, Trace};

use vstd::prelude::*;

verus! {

#[derive(Debug)]
pub struct TTree<X> {
    mem: Vec<(TimedIndex, X)>,
    pseudotime: usize,
}

/// What a tracing tree holds: the traces of each index with its value, in
/// the order of storage, and the pseudotime that the tree has reached.
pub ghost struct Traced<X> {
    pub rows: Seq<(Seq<Trace>, X)>,
    pub pseudotime: usize,
}

impl<X> View for TTree<X> {
    type V = Traced<X>;

    closed spec fn view(&self) -> Traced<X> {
        Traced {
            rows: Seq::new(self.mem@.len(), |i: int| (self.mem@[i].0.traces@, self.mem@[i].1)),
            pseudotime: self.pseudotime,
        }
    }
}

impl<X> Traced<X> {
    /// Every index has a trace, and its last trace names a place below the
    /// number of values.
    pub open spec fn wf(self) -> bool {
        forall|i: int|
            0 <= i < self.rows.len() ==> (#[trigger] self.rows[i]).0.len() > 0
                && self.rows[i].0.last().index < self.rows.len()
    }

    /// Whether the row at `i` is one of the top of the tree.
    pub open spec fn is_top(self, i: int) -> bool {
        self.rows[i].0.last().loc is None
    }

    /// The rows of the top among the first `n`, in order.
    pub open spec fn top(self, n: int) -> Seq<int>
        decreases n,
    {
        if n <= 0 || n > self.rows.len() {
            Seq::empty()
        } else if self.is_top(n - 1) {
            self.top(n - 1).push(n - 1)
        } else {
            self.top(n - 1)
        }
    }

    /// The first place among the first `n` rows of the top whose index
    /// goes the way of the given traces, or the other way round.
    pub open spec fn pos_of(self, traces: Seq<Trace>, n: int) -> Option<int>
        decreases n,
    {
        let top = self.top(self.rows.len() as int);
        if n <= 0 || n > top.len() {
            None
        } else {
            match self.pos_of(traces, n - 1) {
                Some(found) => Some(found),
                None => {
                    let own = self.rows[top[n - 1]].0;
                    if index::leads(traces, own) || index::leads(own, traces) {
                        Some(n - 1)
                    } else {
                        None
                    }
                },
            }
        }
    }

    /// The place that the next value of the top gets: the one after the
    /// last value of the top, or the first.
    pub open spec fn last_pos(self) -> int {
        let top = self.top(self.rows.len() as int);
        if top.len() == 0 {
            0
        } else {
            self.rows[top.last()].0.last().index + 1
        }
    }
}

impl<X> Traced<X> {
    /// A place that is found among the first rows of the top is found
    /// among more of them too.
    pub proof fn lemma_pos_of(self, traces: Seq<Trace>, n: int, m: int)
        requires
            0 <= n <= m <= self.top(self.rows.len() as int).len(),
            self.pos_of(traces, n) is Some,
        ensures
            self.pos_of(traces, m) == self.pos_of(traces, n),
        decreases m - n,
    {
        if n < m {
            self.lemma_pos_of(traces, n, m - 1);
        }
    }
}

impl<X> TTree<X> {
    pub open spec fn wf(self) -> bool {
        self@.wf()
    }

    /// An empty tree at pseudotime 0.
    pub fn new() -> (tree: Self)
        ensures
            tree.wf(),
            tree@.rows.len() == 0,
            tree@.pseudotime == 0,
    {
        TTree { mem: Vec::new(), pseudotime: 0 }
    }

    /// A tree with the given values at its top, in order.
    pub fn from_vec(vals: Vec<X>) -> (tree: Self)
        ensures
            tree.wf(),
            tree@.pseudotime == 0,
            tree@.rows.len() == vals@.len(),
            forall|i: int|
                0 <= i < vals@.len() ==> (#[trigger] tree@.rows[i]).1 == vals@[i]
                    && tree@.rows[i].0.len() == 1 && tree@.rows[i].0[0].index == i
                    && tree@.rows[i].0[0].loc is None && tree@.rows[i].0[0].span.start == 0
                    && tree@.rows[i].0[0].span.end is None,
    {
        let ghost len = vals@.len();
        let mut mem: Vec<(TimedIndex, X)> = Vec::new();
        for val in it: vals
            invariant
                it.seq().len() == len,
                mem@.len() == it.index(),
                forall|i: int|
                    0 <= i < mem@.len() ==> (#[trigger] mem@[i]).1 == it.seq()[i]
                        && mem@[i].0.traces@.len() == 1 && mem@[i].0.traces@[0].index == i
                        && mem@[i].0.traces@[0].loc is None && mem@[i].0.traces@[0].span.start == 0
                        && mem@[i].0.traces@[0].span.end is None,
        {
            let mut traces: Vec<Trace> = Vec::new();
            traces.push(Trace { span: TimeSpan::from_start(0), loc: None, index: mem.len() });
            mem.push((TimedIndex { traces }, val));
        }
        TTree { mem, pseudotime: 0 }
    }

    /// The place that the next value of the top gets.
    fn last_pos(&self) -> (pos: usize)
        requires
            self.wf(),
        ensures
            pos == self@.last_pos(),
            pos <= self@.rows.len(),
    {
        let mut found: usize = 0;
        let mut i: usize = 0;
        while i < self.mem.len()
            invariant
                self.wf(),
                i <= self.mem.len(),
                found <= self@.rows.len(),
                found == (if self@.top(i as int).len() == 0 {
                    0
                } else {
                    self@.rows[self@.top(i as int).last()].0.last().index + 1
                }),
            decreases self.mem.len() - i,
        {
            assert(self@.rows[i as int].0.len() > 0);
            if self.mem[i].0.last().loc.is_none() {
                found = self.mem[i].0.last().index + 1;
            }
            i += 1;
        }
        found
    }

    /// Appends a value to the top. Gives its index.
    pub fn push(&mut self, val: X) -> (index: TimedIndex)
        requires
            old(self).wf(),
        ensures
            final(self).wf(),
            final(self)@.pseudotime == old(self)@.pseudotime,
            final(self)@.rows == old(self)@.rows.push((index.traces@, val)),
            index.traces@.len() == 1,
            index.traces@[0].index == old(self)@.last_pos(),
            index.traces@[0].loc is None,
            index.traces@[0].span.start == old(self)@.pseudotime,
            index.traces@[0].span.end is None,
    {
        let pos = self.last_pos();
        let mut traces: Vec<Trace> = Vec::new();
        traces.push(Trace { span: TimeSpan::from_start(self.pseudotime), loc: None, index: pos });
        let index = TimedIndex { traces };
        self.mem.push((index.duplicate(), val));
        proof {
            assert(self@.rows =~= old(self)@.rows.push((index.traces@, val)));
            assert forall|i: int| 0 <= i < self@.rows.len() implies (#[trigger] self@.rows[i]).0.len()
                > 0 && self@.rows[i].0.last().index < self@.rows.len() by {
                if i < old(self)@.rows.len() {
                    assert(old(self)@.rows[i].0.len() > 0);
                }
            }
        }
        index
    }

    /// The values of the top, in order.
    pub fn iter(&self) -> (vals: Vec<&X>)
        requires
            self.wf(),
        ensures
            vals@.len() == self@.top(self@.rows.len() as int).len(),
            forall|k: int|
                0 <= k < vals@.len() ==> *(#[trigger] vals@[k]) == self@.rows[self@.top(
                    self@.rows.len() as int,
                )[k]].1,
    {
        let mut vals: Vec<&X> = Vec::new();
        let mut i: usize = 0;
        while i < self.mem.len()
            invariant
                self.wf(),
                i <= self.mem.len(),
                vals@.len() == self@.top(i as int).len(),
                forall|k: int|
                    0 <= k < vals@.len() ==> *(#[trigger] vals@[k]) == self@.rows[self@.top(
                        i as int,
                    )[k]].1 && 0 <= self@.top(i as int)[k] < i,
            decreases self.mem.len() - i,
        {
            assert(self@.rows[i as int].0.len() > 0);
            let ghost before = self@.top(i as int);
            if self.mem[i].0.last().loc.is_none() {
                let ghost held = vals@;
                vals.push(&self.mem[i].1);
                assert(self@.is_top(i as int));
                assert(self@.top(i + 1) == before.push(i as int));
                assert(*vals@[held.len() as int] == self@.rows[i as int].1);
                assert forall|k: int| 0 <= k < vals@.len() implies *(#[trigger] vals@[k])
                    == self@.rows[self@.top(i + 1)[k]].1 && 0 <= self@.top(i + 1)[k] < i + 1 by {
                    if k < held.len() {
                        assert(vals@[k] == held[k]);
                        assert(self@.top(i + 1)[k] == before[k]);
                    }
                }
            } else {
                assert(self@.top(i + 1) == before);
            }
            i += 1;
        }
        vals
    }

    /// Where an index stands among those of the top: the first place
    /// whose index is the same as the given one.
    pub fn pos(&self, index: &TimedIndex) -> (res: Result<usize, IndexError>)
        requires
            self.wf(),
        ensures
            match res {
                Ok(at) => self@.pos_of(
                    index.traces@,
                    self@.top(self@.rows.len() as int).len() as int,
                ) == Some(at as int),
                Err(e) => self@.pos_of(
                    index.traces@,
                    self@.top(self@.rows.len() as int).len() as int,
                ) is None && (e matches IndexError::InvalidIndex(given) && given.traces@
                    == index.traces@),
            },
    {
        let all = self.indices();
        let ghost full = all@.len() as int;
        let mut at: usize = 0;
        while at < all.len()
            invariant
                self.wf(),
                at <= all.len(),
                full == all@.len(),
                all@.len() == self@.top(self@.rows.len() as int).len(),
                forall|k: int|
                    0 <= k < all@.len() ==> (#[trigger] all@[k]).traces@ == self@.rows[self@.top(
                        self@.rows.len() as int,
                    )[k]].0,
                self@.pos_of(index.traces@, at as int) is None,
            decreases all.len() - at,
        {
            if all[at].same(index) {
                proof {
                    self@.lemma_pos_of(index.traces@, at + 1, full);
                }
                return Ok(at);
            }
            at += 1;
        }
        Err(IndexError::InvalidIndex(index.duplicate()))
    }

    /// The indices of the values of the top, in order.
    pub fn indices(&self) -> (all: Vec<&TimedIndex>)
        requires
            self.wf(),
        ensures
            all@.len() == self@.top(self@.rows.len() as int).len(),
            forall|k: int|
                0 <= k < all@.len() ==> (#[trigger] all@[k]).traces@ == self@.rows[self@.top(
                    self@.rows.len() as int,
                )[k]].0,
    {
        let mut all: Vec<&TimedIndex> = Vec::new();
        let mut i: usize = 0;
        while i < self.mem.len()
            invariant
                self.wf(),
                i <= self.mem.len(),
                all@.len() == self@.top(i as int).len(),
                forall|k: int|
                    0 <= k < all@.len() ==> (#[trigger] all@[k]).traces@ == self@.rows[self@.top(
                        i as int,
                    )[k]].0 && 0 <= self@.top(i as int)[k] < i,
            decreases self.mem.len() - i,
        {
            assert(self@.rows[i as int].0.len() > 0);
            let ghost before = self@.top(i as int);
            if self.mem[i].0.last().loc.is_none() {
                let ghost held = all@;
                all.push(&self.mem[i].0);
                assert(self@.is_top(i as int));
                assert(self@.top(i + 1) == before.push(i as int));
                assert(all@[held.len() as int].traces@ == self@.rows[i as int].0);
                assert forall|k: int| 0 <= k < all@.len() implies (#[trigger] all@[k]).traces@
                    == self@.rows[self@.top(i + 1)[k]].0 && 0 <= self@.top(i + 1)[k] < i + 1 by {
                    if k < held.len() {
                        assert(all@[k] == held[k]);
                        assert(self@.top(i + 1)[k] == before[k]);
                    }
                }
            } else {
                assert(self@.top(i + 1) == before);
            }
            i += 1;
        }
        all
    }
}

impl<X> Default for TTree<X> {
    fn default() -> (tree: Self)
        ensures
            tree.wf(),
            tree@.rows.len() == 0,
    {
        TTree::new()
    }
}

} // verus!
