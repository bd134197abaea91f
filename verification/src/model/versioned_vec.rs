//! A vector that keeps every version of itself.
//!
//! Appending changes the latest version in place; every other change is
//! made on a copy of it, which becomes the latest. An index names a place
//! in one version and reads that version for good, but only an index into
//! the latest version can be used to change the vector.

pub mod index;

pub use index::{Index, IndexError};

use vstd::prelude::*;

verus! {

pub struct VersionedVec<X> {
    versions: Vec<Vec<X>>,
}

impl<X> View for VersionedVec<X> {
    type V = Seq<Seq<X>>;

    closed spec fn view(&self) -> Seq<Seq<X>> {
        Seq::new(self.versions@.len(), |t: int| self.versions@[t]@)
    }
}

/// Whether `copy` holds, place for place, a clone of what `orig` holds.
pub open spec fn clones<X: Clone>(copy: Seq<X>, orig: Seq<X>) -> bool {
    copy.len() == orig.len() && forall|i: int|
        0 <= i < orig.len() ==> cloned(orig[i], #[trigger] copy[i])
}

/// The place that an index names, if it is one of the latest version.
pub open spec fn absolute<X>(versions: Seq<Seq<X>>, index: Index) -> Result<usize, IndexError> {
    if index.pseudotime + 1 < versions.len() {
        Err(IndexError::AccessToVersionIsRestricted(index))
    } else if index.pseudotime >= versions.len() {
        Err(IndexError::VersionDoesNotExist(index))
    } else if index.pos > versions.last().len() {
        Err(IndexError::IndexOutOfBounds(index))
    } else {
        Ok(index.pos)
    }
}

/// Whether `after` is what an insertion of `val` makes of `before`, and
/// `at` the index of the value. At the end of the latest version the value
/// is appended to that version. Elsewhere all the versions stay and a new
/// one follows them, which holds the value at its place and around it
/// clones of what the latest version held.
pub open spec fn inserts<X: Clone>(before: Seq<Seq<X>>, after: Seq<Seq<X>>, at: Index, val: X) -> bool {
    &&& before.len() > 0
    &&& at.pos <= before.last().len()
    &&& at.pseudotime == after.len() - 1
    &&& if at.pos == before.last().len() {
        after == before.update(before.len() - 1, before.last().push(val))
    } else {
        &&& after.len() == before.len() + 1
        &&& forall|t: int| 0 <= t < before.len() ==> after[t] == before[t]
        &&& after.last().len() == before.last().len() + 1
        &&& after.last()[at.pos as int] == val
        &&& clones(after.last().remove(at.pos as int), before.last())
    }
}

/// The value that an index names in its version.
pub open spec fn value_at<X>(versions: Seq<Seq<X>>, index: Index) -> Option<X> {
    if index.pseudotime < versions.len() && index.pos < versions[index.pseudotime as int].len() {
        Some(versions[index.pseudotime as int][index.pos as int])
    } else {
        None
    }
}

impl<X> VersionedVec<X> {
    /// A vector without any version. Nothing can be read from it or
    /// appended to it: a vector to work on is made by `from_vec`.
    pub fn new() -> (v: Self)
        ensures
            v@.len() == 0,
    {
        VersionedVec { versions: Vec::new() }
    }

    /// A vector whose one version holds the given values.
    pub fn from_vec(val: Vec<X>) -> (v: Self)
        ensures
            v@ == seq![val@],
    {
        let mut versions: Vec<Vec<X>> = Vec::new();
        versions.push(val);
        let v = VersionedVec { versions };
        assert(v@ =~= seq![val@]);
        v
    }

    /// A vector of the given versions, oldest first.
    pub fn from_raw_parts(versions: Vec<Vec<X>>) -> (v: Self)
        ensures
            v@.len() == versions@.len(),
            forall|t: int| 0 <= t < versions@.len() ==> v@[t] == (#[trigger] versions@[t])@,
    {
        VersionedVec { versions }
    }

    fn pseudotime(&self) -> (t: usize)
        requires
            self@.len() > 0,
        ensures
            t == self@.len() - 1,
    {
        self.versions.len() - 1
    }

    /// Appends a value to the latest version, in place.
    pub fn push(&mut self, val: X)
        requires
            old(self)@.len() > 0,
        ensures
            final(self)@ == old(self)@.update(old(self)@.len() - 1, old(self)@.last().push(val)),
    {
        let last = self.versions.len() - 1;
        self.versions[last].push(val);
        assert(self@ =~= old(self)@.update(old(self)@.len() - 1, old(self)@.last().push(val)));
    }

    /// The latest version.
    pub fn latest(&self) -> (vals: &Vec<X>)
        requires
            self@.len() > 0,
        ensures
            vals@ == self@.last(),
    {
        &self.versions[self.versions.len() - 1]
    }

    /// The latest version, for writing in place.
    fn latest_mut(&mut self) -> (vals: &mut Vec<X>)
        requires
            old(self)@.len() > 0,
        ensures
            vals@ == old(self)@.last(),
            final(self)@ == old(self)@.update(old(self)@.len() - 1, final(vals)@),
    {
        let last = self.versions.len() - 1;
        &mut self.versions[last]
    }

    /// The first version.
    pub fn oldest(&self) -> (vals: &Vec<X>)
        requires
            self@.len() > 0,
        ensures
            vals@ == self@[0],
    {
        &self.versions[0]
    }

    /// The last place of the latest version, if it holds anything.
    pub fn last_index(&self) -> (index: Option<Index>)
        requires
            self@.len() > 0,
        ensures
            match index {
                Some(index) => self@.last().len() > 0 && index.pos == self@.last().len() - 1
                    && index.pseudotime == self@.len() - 1,
                None => self@.last().len() == 0,
            },
    {
        let len = self.latest().len();
        if len == 0 {
            None
        } else {
            Some(Index { pos: len - 1, pseudotime: self.pseudotime() })
        }
    }

    /// Whether the index names a value.
    pub fn contains(&self, index: Index) -> (b: bool)
        ensures
            b == value_at(self@, index).is_some(),
    {
        self.get(index).is_some()
    }

    /// The value that the index names in its version.
    pub fn get(&self, index: Index) -> (res: Option<&X>)
        ensures
            match res {
                Some(val) => value_at(self@, index) == Some(*val),
                None => value_at(self@, index) is None,
            },
    {
        if index.pseudotime < self.versions.len() {
            let version = &self.versions[index.pseudotime];
            if index.pos < version.len() {
                return Some(&version[index.pos]);
            }
        }
        None
    }

    /// The value that the index names in its version, for writing. No
    /// other value of any version changes.
    pub fn get_mut(&mut self, index: Index) -> (res: Option<&mut X>)
        ensures
            match res {
                Some(val) => value_at(old(self)@, index) == Some(*val)
                    && final(self)@ == old(self)@.update(
                    index.pseudotime as int,
                    old(self)@[index.pseudotime as int].update(index.pos as int, *final(val)),
                ),
                None => value_at(old(self)@, index) is None && final(self)@ == old(self)@,
            },
    {
        if index.pseudotime < self.versions.len() {
            if index.pos < self.versions[index.pseudotime].len() {
                let version = &mut self.versions[index.pseudotime];
                return Some(&mut version[index.pos]);
            }
        }
        None
    }

    /// The places of the latest version, in order.
    pub fn indices(&self) -> (all: Vec<Index>)
        requires
            self@.len() > 0,
        ensures
            all@.len() == self@.last().len(),
            forall|p: int|
                0 <= p < all@.len() ==> #[trigger] all@[p] == (Index {
                    pos: p as usize,
                    pseudotime: (self@.len() - 1) as usize,
                }),
    {
        let pseudotime = self.pseudotime();
        let len = self.latest().len();
        let mut all: Vec<Index> = Vec::new();
        let mut p: usize = 0;
        while p < len
            invariant
                p <= len,
                all@.len() == p,
                forall|q: int|
                    0 <= q < p ==> #[trigger] all@[q] == (Index { pos: q as usize, pseudotime }),
            decreases len - p,
        {
            all.push(Index { pos: p, pseudotime });
            p += 1;
        }
        all
    }

    /// The values of the latest version, in order.
    pub fn iter(&self) -> (vals: Vec<&X>)
        requires
            self@.len() > 0,
        ensures
            vals@.len() == self@.last().len(),
            forall|p: int| 0 <= p < vals@.len() ==> *(#[trigger] vals@[p]) == self@.last()[p],
    {
        let latest = self.latest();
        let mut vals: Vec<&X> = Vec::new();
        let mut p: usize = 0;
        while p < latest.len()
            invariant
                p <= latest.len(),
                vals@.len() == p,
                forall|q: int| 0 <= q < p ==> *(#[trigger] vals@[q]) == latest@[q],
            decreases latest.len() - p,
        {
            vals.push(&latest[p]);
            p += 1;
        }
        vals
    }

    /// The latest version, for writing its values in place.
    pub fn iter_mut(&mut self) -> (vals: &mut Vec<X>)
        requires
            old(self)@.len() > 0,
        ensures
            vals@ == old(self)@.last(),
            final(self)@ == old(self)@.update(old(self)@.len() - 1, final(vals)@),
    {
        self.latest_mut()
    }

    /// The values of the latest version, each with its place.
    pub fn iter_indices(&self) -> (all: Vec<(Index, &X)>)
        requires
            self@.len() > 0,
        ensures
            all@.len() == self@.last().len(),
            forall|p: int|
                0 <= p < all@.len() ==> (#[trigger] all@[p]).0 == (Index {
                    pos: p as usize,
                    pseudotime: (self@.len() - 1) as usize,
                }) && *all@[p].1 == self@.last()[p],
    {
        let pseudotime = self.pseudotime();
        let latest = self.latest();
        let mut all: Vec<(Index, &X)> = Vec::new();
        let mut p: usize = 0;
        while p < latest.len()
            invariant
                p <= latest.len(),
                all@.len() == p,
                forall|q: int|
                    0 <= q < p ==> (#[trigger] all@[q]).0 == (Index { pos: q as usize, pseudotime })
                        && *all@[q].1 == latest@[q],
            decreases latest.len() - p,
        {
            all.push((Index { pos: p, pseudotime }, &latest[p]));
            p += 1;
        }
        all
    }

    /// The place that an index names, if it is one of the latest version.
    fn to_absolute(&self, index: Index) -> (res: Result<usize, IndexError>)
        requires
            self@.len() > 0,
        ensures
            res == absolute(self@, index),
    {
        if index.pseudotime < self.versions.len() - 1 {
            Err(IndexError::AccessToVersionIsRestricted(index))
        } else if index.pseudotime >= self.versions.len() {
            Err(IndexError::VersionDoesNotExist(index))
        } else if index.pos > self.latest().len() {
            Err(IndexError::IndexOutOfBounds(index))
        } else {
            Ok(index.pos)
        }
    }
}

impl<X: Clone> VersionedVec<X> {
    /// Starts a version that is a copy of the latest one.
    fn new_version(&mut self)
        requires
            old(self)@.len() > 0,
        ensures
            final(self)@.len() == old(self)@.len() + 1,
            forall|t: int| 0 <= t < old(self)@.len() ==> final(self)@[t] == old(self)@[t],
            clones(final(self)@.last(), old(self)@.last()),
    {
        let last = self.versions.len() - 1;
        let copy = self.versions[last].clone();
        self.versions.push(copy);
    }

    /// Takes the last value out, in a new version. A new version is made
    /// even when there is nothing to take.
    pub fn pop(&mut self) -> (res: Option<X>)
        requires
            old(self)@.len() > 0,
        ensures
            final(self)@.len() == old(self)@.len() + 1,
            forall|t: int| 0 <= t < old(self)@.len() ==> final(self)@[t] == old(self)@[t],
            match res {
                Some(val) => old(self)@.last().len() > 0 && clones(
                    final(self)@.last().push(val),
                    old(self)@.last(),
                ),
                None => old(self)@.last().len() == 0 && final(self)@.last().len() == 0,
            },
    {
        self.new_version();
        let ghost copied = self@;
        let res = self.latest_mut().pop();
        proof {
            if res is Some {
                assert(self@.last().push(res->Some_0) =~= copied.last());
            }
        }
        res
    }

    /// Inserts a value at the place that the index names, which must be a
    /// place of the latest version or its end. At the end the value is
    /// appended in place; elsewhere a new version is made.
    pub fn try_insert(&mut self, index: Index, val: X) -> (res: Result<Index, IndexError>)
        requires
            old(self)@.len() > 0,
        ensures
            match res {
                Ok(at) => absolute(old(self)@, index) == Ok::<usize, IndexError>(at.pos) && inserts(
                    old(self)@,
                    final(self)@,
                    at,
                    val,
                ),
                Err(e) => absolute(old(self)@, index) == Err::<usize, IndexError>(e) && final(self)@
                    == old(self)@,
            },
    {
        let at = match self.to_absolute(index) {
            Ok(at) => at,
            Err(e) => {
                return Err(e);
            },
        };
        if at == self.latest().len() {
            self.push(val);
        } else {
            self.new_version();
            let ghost copied = self@;
            self.latest_mut().insert(at, val);
            assert(self@.last().remove(at as int) =~= copied.last());
        }
        Ok(Index { pos: at, pseudotime: self.pseudotime() })
    }

    /// As `try_insert`, for an index that is known to name a place of the
    /// latest version or its end.
    pub fn insert(&mut self, index: Index, val: X) -> (at: Index)
        requires
            old(self)@.len() > 0,
            absolute(old(self)@, index) is Ok,
        ensures
            absolute(old(self)@, index) == Ok::<usize, IndexError>(at.pos),
            inserts(old(self)@, final(self)@, at, val),
    {
        match self.try_insert(index, val) {
            Ok(at) => at,
            Err(_) => unreached(),
        }
    }
}

impl<X> Default for VersionedVec<X> {
    fn default() -> (v: Self)
        ensures
            v@.len() == 0,
    {
        VersionedVec::new()
    }
}

} // verus!
