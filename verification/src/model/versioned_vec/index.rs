use vstd::prelude::*;

verus! {

/// A position in one version of a versioned vector.
#[derive(Debug, Copy, Clone, Ord, PartialOrd, Eq, PartialEq, Hash, Structural)]
pub struct Index {
    pub pos: usize,
    pub pseudotime: usize,
}

#[derive(Debug, Copy, Clone, Ord, PartialOrd, Eq, PartialEq, Hash, Structural)]
pub enum IndexError {
    /// The version exists, but is shorter than the position asks for.
    IndexOutOfBounds(Index),
    /// There is no version of that pseudotime.
    VersionDoesNotExist(Index),
    /// The version is not the latest one: it can be read, not changed.
    AccessToVersionIsRestricted(Index),
}

impl Index {
    pub fn from_raw_parts(pos: usize, pseudotime: usize) -> (index: Self)
        ensures
            index == (Index { pos, pseudotime }),
    {
        Index { pos, pseudotime }
    }
}

} // verus!
