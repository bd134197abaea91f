use vstd::prelude::*;

verus! {

/// What a tool of the sidebar asks for.
#[derive(Debug, Copy, Clone, Ord, PartialOrd, Eq, PartialEq, Hash, Structural)]
pub enum Message {
    Enclose,
    Sprout,
    Pass,
    Save,
    Load,
}

} // verus!
