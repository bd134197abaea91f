//! Data that can be marked as selected.

use vstd::prelude::*;

verus! {

/// A value with a mark that says whether it is selected.
#[derive(Debug, PartialEq, Eq)]
pub struct Selectable<Data> {
    pub val: Data,
    pub selected: bool,
}

impl<Data> Selectable<Data> {
    /// The value, not selected.
    pub fn new(val: Data) -> (data: Self)
        ensures
            data == (Selectable { val, selected: false }),
    {
        Selectable { val, selected: false }
    }

    pub fn inner(&self) -> (val: &Data)
        ensures
            *val == self.val,
    {
        &self.val
    }

    /// Turns the mark over: a selected value is selected no more, and
    /// another one is selected.
    pub fn select(&mut self)
        ensures
            *final(self) == (Selectable { val: old(self).val, selected: !old(self).selected }),
    {
        self.selected = !self.selected;
    }

    pub fn unselect(&mut self)
        ensures
            *final(self) == (Selectable { val: old(self).val, selected: false }),
    {
        self.selected = false;
    }

    pub fn selected(&self) -> (b: bool)
        ensures
            b == self.selected,
    {
        self.selected
    }
}

impl<Data: Clone> Clone for Selectable<Data> {
    fn clone(&self) -> (copy: Self)
        ensures
            cloned(self.val, copy.val),
            copy.selected == self.selected,
    {
        Selectable { val: self.val.clone(), selected: self.selected }
    }
}

} // verus!
