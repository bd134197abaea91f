use vstd::prelude::*;

verus! {

/// How a view treats its cells: whether they answer to clicks, and whether
/// they show their labels.
#[derive(Debug, Copy, Clone, Ord, PartialOrd, Eq, PartialEq, Hash, Structural)]
pub enum Render {
    Interactive,
    InteractiveNoLabel,
    Static,
}

} // verus!
