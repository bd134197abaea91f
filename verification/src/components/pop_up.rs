use vstd::prelude::*;

verus! {

/// The side of the window at which a pop-up shows.
#[derive(Debug, Copy, Clone, Ord, PartialOrd, Eq, PartialEq, Hash, Structural)]
pub enum Location {
    Top,
    Bottom,
    Left,
    Right,
}

impl Default for Location {
    fn default() -> (location: Self)
        ensures
            location == Location::Top,
    {
        Location::Top
    }
}

impl Location {
    /// Whether the pop-up and the content lie one above the other, and
    /// not side by side.
    pub fn is_vertical(self) -> (b: bool)
        ensures
            b == (self == Location::Top || self == Location::Bottom),
    {
        match self {
            Location::Top | Location::Bottom => true,
            Location::Left | Location::Right => false,
        }
    }

    /// Whether the pop-up comes before the content.
    pub fn is_leading(self) -> (b: bool)
        ensures
            b == (self == Location::Top || self == Location::Left),
    {
        match self {
            Location::Top | Location::Left => true,
            Location::Bottom | Location::Right => false,
        }
    }
}

} // verus!
