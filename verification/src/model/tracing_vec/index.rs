use vstd::prelude::*;
use vstd::std_specs::convert::FromSpecImpl;

verus! {

/// A position in one snapshot of a tracing vector.
///
/// It does not point at the data itself: it names a place in the ordering
/// that the vector had at `pseudotime`, and is resolved through that
/// snapshot each time it is used.
#[derive(Debug, Copy, Clone, Ord, PartialOrd, Eq, PartialEq, Hash, Structural)]
pub struct TimedIndex {
    pub pseudotime: usize,
    pub pos: usize,
}

/// A slot of the backing store of a tracing vector. It never moves, and says
/// nothing about where its value stands in any snapshot.
#[derive(Debug, Copy, Clone, Ord, PartialOrd, Eq, PartialEq, Hash, Structural)]
pub struct TimelessIndex {
    pub pos: usize,
}

/// Either kind of index into a tracing vector.
#[derive(Debug, Copy, Clone, Ord, PartialOrd, Eq, PartialEq, Hash, Structural)]
pub enum TracingIndex {
    Timed(TimedIndex),
    Timeless(TimelessIndex),
}

#[derive(Debug, Copy, Clone, Ord, PartialOrd, Eq, PartialEq, Hash, Structural)]
pub enum IndexError {
    /// The snapshot exists, but is shorter than the position asks for.
    IndexOutOfBounds(TimedIndex),
    /// There is no snapshot of that pseudotime.
    VersionDoesNotExist(TimedIndex),
    /// The backing store has no such slot.
    DataDoesNotExist(TimelessIndex),
    /// The value exists, but the latest snapshot no longer holds it.
    DataAlreadyDead(TimelessIndex),
    /// A splice was asked for on an empty list of indices.
    NoIndicesProvided,
}

impl TimedIndex {
    pub fn from_raw_parts(pos: usize, pseudotime: usize) -> (index: Self)
        ensures
            index == (TimedIndex { pos, pseudotime }),
    {
        TimedIndex { pos, pseudotime }
    }

    /// The position `by` places further on in the same snapshot, if it fits.
    pub fn shifted_up(self, by: usize) -> (index: Option<Self>)
        ensures
            index == (if self.pos + by <= usize::MAX {
                Some(TimedIndex { pos: (self.pos + by) as usize, pseudotime: self.pseudotime })
            } else {
                None
            }),
    {
        match self.pos.checked_add(by) {
            Some(pos) => Some(TimedIndex { pos, pseudotime: self.pseudotime }),
            None => None,
        }
    }

    /// The position `by` places earlier in the same snapshot, if there is one.
    pub fn shifted_down(self, by: usize) -> (index: Option<Self>)
        ensures
            index == (if by <= self.pos {
                Some(TimedIndex { pos: (self.pos - by) as usize, pseudotime: self.pseudotime })
            } else {
                None
            }),
    {
        if by <= self.pos {
            Some(TimedIndex { pos: self.pos - by, pseudotime: self.pseudotime })
        } else {
            None
        }
    }
}

impl TimelessIndex {
    pub fn from_raw_parts(pos: usize) -> (index: Self)
        ensures
            index == (TimelessIndex { pos }),
    {
        TimelessIndex { pos }
    }
}

impl From<TimedIndex> for TracingIndex {
    fn from(idx: TimedIndex) -> (index: Self) {
        TracingIndex::Timed(idx)
    }
}

impl FromSpecImpl<TimedIndex> for TracingIndex {
    open spec fn obeys_from_spec() -> bool {
        true
    }

    open spec fn from_spec(idx: TimedIndex) -> Self {
        TracingIndex::Timed(idx)
    }
}

impl From<TimelessIndex> for TracingIndex {
    fn from(idx: TimelessIndex) -> (index: Self) {
        TracingIndex::Timeless(idx)
    }
}

impl FromSpecImpl<TimelessIndex> for TracingIndex {
    open spec fn obeys_from_spec() -> bool {
        true
    }

    open spec fn from_spec(idx: TimelessIndex) -> Self {
        TracingIndex::Timeless(idx)
    }
}

} // verus!
