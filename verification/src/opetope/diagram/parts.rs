//! Taking a stack apart and putting one together, with a check of its
//! validity: for storing it, and for making one of what was stored.

use super::space::{lemma_space_wf, lemma_wf_space};
use super::{cells_wf, space_model, Cell, Diagram};
use crate::model::tracing_vec::TracingVec;
use crate::opetope::{Layer, Tail};
use vstd::prelude::*;

verus! {

/// Whether every tracing vector of a space of cells, nested ones
/// included, is valid.
pub fn space_is_valid<Data>(space: &TracingVec<Cell<Data>>) -> (ok: bool)
    ensures
        ok == cells_wf(space_model(*space)),
    decreases *space,
{
    if !space.is_valid() {
        return false;
    }
    let len = space.store_len();
    let mut i: usize = 0;
    while i < len
        invariant
            space.wf(),
            len == space@.store.len(),
            i <= len,
            forall|k: int| 0 <= k < i ==> (#[trigger] space@.store[k]).model().wf(),
        decreases len - i,
    {
        proof {
            space.lemma_store_decreases(i as int);
        }
        match &space.slot(i).content {
            None => {},
            Some(inner) => {
                if !space_is_valid(inner) {
                    proof {
                        if cells_wf(space_model(*space)) {
                            lemma_space_wf(*space);
                            assert(space@.store[i as int].model().wf());
                        }
                    }
                    return false;
                }
            },
        }
        i += 1;
    }
    proof {
        lemma_wf_space(*space);
    }
    true
}

impl<Data> Tail<Data> {
    /// How many layers lie beneath the top one, if that fits a machine
    /// word.
    pub fn checked_level(&self) -> (level: Option<usize>)
        ensures
            match level {
                Some(level) => level == self@.level(),
                None => self@.level() > usize::MAX,
            },
        decreases *self,
    {
        match self {
            Tail::Tower(_) => Some(0),
            Tail::Diagram(diagram) => match diagram.prev.checked_level() {
                None => None,
                Some(level) => level.checked_add(1),
            },
        }
    }

    /// Whether the stack is valid. A stack that was made and changed by
    /// the functions of this module always is.
    pub fn is_valid(&self) -> (ok: bool)
        ensures
            ok == self.wf(),
        decreases *self, 1int,
    {
        match self {
            Tail::Tower(tower) => tower.is_valid(),
            Tail::Diagram(diagram) => diagram.is_valid(),
        }
    }
}

impl<Data> Diagram<Data> {
    /// Whether the layer and the stack beneath it are valid.
    pub fn is_valid(&self) -> (ok: bool)
        ensures
            ok == self.wf(),
        decreases *self, 0int,
    {
        if !space_is_valid(&self.cells) {
            return false;
        }
        if !self.prev.is_valid() {
            return false;
        }
        match self.prev.checked_level() {
            Some(level) => level < usize::MAX,
            None => false,
        }
    }

    /// The cells of the layer, for reading.
    pub fn cells(&self) -> (cells: &TracingVec<Cell<Data>>)
        ensures
            space_model(*cells) == self@.cells,
    {
        &self.cells
    }

    /// The stack beneath the layer, for reading.
    pub fn prev(&self) -> (prev: &Tail<Data>)
        ensures
            prev@ == self@.prev,
    {
        &self.prev
    }

    /// The layer taken apart: its cells, and the stack beneath it.
    pub fn into_parts(self) -> (parts: (TracingVec<Cell<Data>>, Tail<Data>))
        ensures
            space_model(parts.0) == self@.cells,
            parts.1@ == self@.prev,
    {
        (self.cells, self.prev)
    }

    /// The layer of the given cells over the given stack, if that is
    /// valid.
    pub fn from_parts(cells: TracingVec<Cell<Data>>, prev: Tail<Data>) -> (res: Option<Self>)
        ensures
            match res {
                Some(diagram) => diagram.wf() && diagram@ == (Layer {
                    cells: space_model(cells),
                    prev: prev@,
                }),
                None => !(Layer { cells: space_model(cells), prev: prev@ }).wf(),
            },
    {
        let diagram = Diagram { cells, prev };
        if diagram.is_valid() {
            Some(diagram)
        } else {
            None
        }
    }
}

} // verus!
