//! Copies of cells, of layers and of whole stacks.

use super::{cells_wf, space_model, Cell, CellModel, Diagram, MetaCell};
use crate::model::tracing_vec::{Traces, TracingVec};
use crate::opetope::{Error, Fault, Stack, Tail};
use vstd::prelude::*;

verus! {

impl<Data: Clone> CellModel<Data> {
    /// Whether `self` could be a clone of `orig`: the same face, a clone of
    /// the data, and a clone of the content, cell for cell.
    pub open spec fn clone_of(self, orig: Self) -> bool
        decreases self, 0int,
    {
        &&& cloned(orig.data, self.data)
        &&& self.face == orig.face
        &&& match self.content {
            None => orig.content is None,
            Some(space) => orig.content is Some && cells_clone_of(space, orig.content->Some_0),
        }
    }
}

/// Whether the space `copy` could be a clone of `orig`: the same births
/// and snapshots, and in each slot a clone of the cell that `orig` has
/// there.
pub open spec fn cells_clone_of<Data: Clone>(
    copy: Traces<CellModel<Data>>,
    orig: Traces<CellModel<Data>>,
) -> bool
    decreases copy, 1int,
{
    &&& copy.births == orig.births
    &&& copy.snapshots == orig.snapshots
    &&& copy.store.len() == orig.store.len()
    &&& forall|i: int|
        0 <= i < copy.store.len() ==> (#[trigger] copy.store[i]).clone_of(orig.store[i])
}

impl<Data: Clone> Stack<Data> {
    /// Whether `self` could be a clone of `orig`, layer for layer.
    pub open spec fn clone_of(self, orig: Self) -> bool
        decreases self,
    {
        match self {
            Stack::Tower(cells) => orig is Tower && cells.clone_of(orig->Tower_0),
            Stack::Diagram(layer) => orig is Diagram && cells_clone_of(
                layer.cells,
                orig->Diagram_0.cells,
            ) && layer.prev.clone_of(orig->Diagram_0.prev),
        }
    }
}

impl<Data> Stack<Data> {
    /// The part of the stack whose top is the layer of the given level;
    /// the whole stack where that level is not beneath its top.
    pub open spec fn below(self, level: nat) -> Stack<Data>
        decreases self,
    {
        match self {
            Stack::Tower(_) => self,
            Stack::Diagram(layer) => if layer.level() <= level {
                self
            } else {
                layer.prev.below(level)
            },
        }
    }

    /// The part of a stack below a level of it has that level, and is
    /// valid if the stack is.
    pub proof fn lemma_below(self, level: nat)
        requires
            level <= self.level(),
        ensures
            self.below(level).level() == level,
            self.wf() ==> self.below(level).wf(),
        decreases self,
    {
        match self {
            Stack::Tower(_) => {},
            Stack::Diagram(layer) => {
                if layer.level() > level {
                    layer.prev.lemma_below(level);
                }
            },
        }
    }
}

/// A clone of a valid space is valid, and so is a clone of a valid cell.
pub proof fn lemma_clone_wf<Data: Clone>(copy: Traces<CellModel<Data>>, orig: Traces<CellModel<Data>>)
    requires
        cells_clone_of(copy, orig),
        cells_wf(orig),
    ensures
        cells_wf(copy),
    decreases copy,
{
    assert forall|i: int| 0 <= i < copy.store.len() implies (#[trigger] copy.store[i]).wf() by {
        assert(copy.store[i].clone_of(orig.store[i]));
        assert(orig.store[i].wf());
        match copy.store[i].content {
            None => {},
            Some(inner) => {
                lemma_clone_wf(inner, orig.store[i].content->Some_0);
            },
        }
    }
}

/// A clone of a valid cell is valid.
pub proof fn lemma_cell_clone_wf<Data: Clone>(copy: CellModel<Data>, orig: CellModel<Data>)
    requires
        copy.clone_of(orig),
        orig.wf(),
    ensures
        copy.wf(),
{
    match copy.content {
        None => {},
        Some(inner) => {
            lemma_clone_wf(inner, orig.content->Some_0);
        },
    }
}

/// A clone of a stack has its level, and is valid if the stack is.
pub proof fn lemma_stack_clone<Data: Clone>(copy: Stack<Data>, orig: Stack<Data>)
    requires
        copy.clone_of(orig),
    ensures
        copy.level() == orig.level(),
        orig.wf() ==> copy.wf(),
    decreases copy,
{
    match copy {
        Stack::Tower(_) => {},
        Stack::Diagram(layer) => {
            lemma_stack_clone(layer.prev, orig->Diagram_0.prev);
            if orig.wf() {
                lemma_clone_wf(layer.cells, orig->Diagram_0.cells);
            }
        },
    }
}

impl<Data: Clone> Cell<Data> {
    /// A copy of the cell with all that is nested in it.
    pub fn duplicate(&self) -> (copy: Self)
        ensures
            copy.model().clone_of(self.model()),
        decreases *self, 0int,
    {
        let content = match &self.content {
            None => None,
            Some(space) => Some(duplicate_space(space)),
        };
        Cell {
            meta: MetaCell { data: self.meta.data.clone(), face: self.meta.face.clone() },
            content,
        }
    }
}

/// A copy of a space of cells with its whole history.
pub fn duplicate_space<Data: Clone>(space: &TracingVec<Cell<Data>>) -> (copy: TracingVec<Cell<Data>>)
    ensures
        cells_clone_of(space_model(copy), space_model(*space)),
    decreases *space, 1int,
{
    let mut vals: Vec<Cell<Data>> = Vec::new();
    let len = space.store_len();
    let mut i: usize = 0;
    while i < len
        invariant
            len == space@.store.len(),
            i <= len,
            vals@.len() == i,
            forall|k: int|
                0 <= k < i ==> (#[trigger] vals@[k]).model().clone_of(space@.store[k].model()),
        decreases len - i,
    {
        proof {
            space.lemma_store_decreases(i as int);
        }
        vals.push(space.slot(i).duplicate());
        i += 1;
    }
    let copy = space.rebuild(vals);
    proof {
        let a = space_model(copy);
        let b = space_model(*space);
        assert forall|k: int| 0 <= k < a.store.len() implies (#[trigger] a.store[k]).clone_of(
            b.store[k],
        ) by {
            assert(vals@[k].model().clone_of(space@.store[k].model()));
        }
    }
    copy
}

impl<Data: Clone> Clone for Cell<Data> {
    fn clone(&self) -> (copy: Self)
        ensures
            copy.model().clone_of(self.model()),
    {
        self.duplicate()
    }
}

impl<Data: Clone> Diagram<Data> {
    /// A copy of the layer and of the stack beneath it.
    pub fn duplicate(&self) -> (copy: Self)
        ensures
            Stack::Diagram(Box::new(copy@)).clone_of(Stack::Diagram(Box::new(self@))),
        decreases *self, 0int,
    {
        Diagram { cells: duplicate_space(&self.cells), prev: self.prev.duplicate() }
    }

    /// A copy of the stack up to the layer of the given level. Refused
    /// where the stack has no such layer.
    pub fn deep_copy(&self, level: usize) -> (res: Result<Tail<Data>, Error>)
        requires
            self.wf(),
        ensures
            match res {
                Ok(copy) => level <= self@.level() && copy@.clone_of(
                    Stack::Diagram(Box::new(self@)).below(level as nat),
                ) && copy.wf() && copy@.level() == level && (self@.stack().sound()
                    ==> copy@.sound()),
                Err(e) => level > self@.level() && e@ == Fault::TooMuchDepth(level),
            },
        decreases *self, 0int,
    {
        let own = self.level();
        if own == level {
            let copy = Tail::Diagram(Box::new(self.duplicate()));
            proof {
                lemma_stack_clone(copy@, Stack::Diagram(Box::new(self@)));
                if self@.stack().sound() {
                    copy@.lemma_clone_sound(self@.stack());
                }
            }
            Ok(copy)
        } else {
            match self.prev.deep_copy(level) {
                Ok(copy) => Ok(copy),
                Err(e) => Err(e),
            }
        }
    }
}

impl<Data: Clone> Tail<Data> {
    /// A copy of the whole stack.
    pub fn duplicate(&self) -> (copy: Self)
        ensures
            copy@.clone_of(self@),
        decreases *self, 1int,
    {
        match self {
            Tail::Tower(tower) => Tail::Tower(tower.clone()),
            Tail::Diagram(diagram) => Tail::Diagram(Box::new(diagram.duplicate())),
        }
    }

    /// A copy of the stack up to the layer of the given level. Refused
    /// where the stack has no such layer.
    pub fn deep_copy(&self, level: usize) -> (res: Result<Tail<Data>, Error>)
        requires
            self.wf(),
        ensures
            match res {
                Ok(copy) => level <= self@.level() && copy@.clone_of(self@.below(level as nat))
                    && copy.wf() && copy@.level() == level && (self@.sound() ==> copy@.sound()),
                Err(e) => level > self@.level() && e@ == Fault::TooMuchDepth(level),
            },
        decreases *self, 1int,
    {
        match self {
            Tail::Tower(tower) => tower.deep_copy(level),
            Tail::Diagram(diagram) => diagram.deep_copy(level),
        }
    }
}

impl<Data: Clone> Clone for Diagram<Data> {
    fn clone(&self) -> (copy: Self)
        ensures
            Stack::Diagram(Box::new(copy@)).clone_of(Stack::Diagram(Box::new(self@))),
    {
        self.duplicate()
    }
}

impl<Data: Clone> Clone for Tail<Data> {
    fn clone(&self) -> (copy: Self)
        ensures
            copy@.clone_of(self@),
    {
        self.duplicate()
    }
}

} // verus!
