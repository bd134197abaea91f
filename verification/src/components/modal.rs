use vstd::prelude::*;

verus! {

/// What a modal window is about.
#[derive(Debug, Copy, Clone, Ord, PartialOrd, Eq, PartialEq, Hash, Structural)]
pub enum Kind {
    Info,
    Error,
}

} // verus!
