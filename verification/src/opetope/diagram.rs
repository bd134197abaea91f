//! A layer of cells over another layer.

pub mod access;
pub mod copying;
pub mod editing;
pub mod grouping;
pub mod groups;
pub mod lines;
pub mod parts;
pub mod picking;
pub mod resolving;
pub mod selecting;
pub mod space;
pub mod wraps;

use super::viewing::{copy_lines, lines, Line, ViewIndex};
use super::{Error, Fault, Layer, Tail};
use crate::model::tracing_vec::{TimelessIndex, Traces, TracingIndex, TracingVec};
use vstd::prelude::*;

verus! {

/// The boundary of a cell: the lines that come in, and the one that goes
/// out. All of them point into the layer beneath.
#[derive(Debug, PartialEq, Eq)]
pub struct Face {
    pub ends: Vec<ViewIndex>,
    pub fill: ViewIndex,
}

#[derive(Debug, PartialEq, Eq)]
pub struct MetaCell<Data> {
    pub data: Data,
    pub face: Face,
}

/// A cell of a diagram. Without content it is an end; with content it is a
/// group, and the cells in it are nested in the same layer.
#[derive(Debug, PartialEq, Eq)]
pub struct Cell<Data> {
    pub meta: MetaCell<Data>,
    pub content: Option<TracingVec<Cell<Data>>>,
}

/// A layer of cells over a stack of layers. The faces of its cells point
/// into the top of that stack.
#[derive(Debug, PartialEq, Eq)]
pub struct Diagram<Data> {
    cells: TracingVec<Cell<Data>>,
    prev: Tail<Data>,
}

/// What a `Face` says.
pub ghost struct Boundary {
    pub ends: Seq<Line>,
    pub fill: Line,
}

/// What a `Cell` says, with all that is nested in it.
pub ghost struct CellModel<Data> {
    pub data: Data,
    pub face: Boundary,
    pub content: Option<Traces<CellModel<Data>>>,
}

impl View for Face {
    type V = Boundary;

    open spec fn view(&self) -> Boundary {
        Boundary { ends: lines(self.ends@), fill: self.fill@ }
    }
}

/// What a space of cells says: each cell of the store by its model.
pub open spec fn space_model<Data>(space: TracingVec<Cell<Data>>) -> Traces<CellModel<Data>>
    decreases space, 1int,
{
    Traces {
        store: Seq::new(
            space@.store.len(),
            |i: int|
                if 0 <= i < space@.store.len() {
                    proof {
                        space.lemma_store_decreases(i);
                    }
                    space@.store[i].model()
                } else {
                    arbitrary()
                },
        ),
        births: space@.births,
        snapshots: space@.snapshots,
    }
}

impl<Data> Cell<Data> {
    pub open spec fn model(self) -> CellModel<Data>
        decreases self, 0int,
    {
        CellModel {
            data: self.meta.data,
            face: self.meta.face@,
            content: match self.content {
                None => None,
                Some(space) => Some(space_model(space)),
            },
        }
    }
}

/// Every tracing vector of the space, nested ones included, is valid.
pub open spec fn cells_wf<Data>(space: Traces<CellModel<Data>>) -> bool
    decreases space, 1int,
{
    &&& space.wf()
    &&& forall|i: int| 0 <= i < space.store.len() ==> (#[trigger] space.store[i]).wf()
}

impl<Data> CellModel<Data> {
    /// Every tracing vector in the cell is valid.
    pub open spec fn wf(self) -> bool
        decreases self, 0int,
    {
        match self.content {
            None => true,
            Some(space) => cells_wf(space),
        }
    }

    pub open spec fn is_end(self) -> bool {
        self.content is None
    }
}

impl<Data> Diagram<Data> {
    pub closed spec fn model(self) -> Layer<Data>
        decreases self, 0int,
    {
        Layer { cells: space_model(self.cells), prev: self.prev.model() }
    }

    pub open spec fn wf(self) -> bool {
        self.model().wf()
    }
}

impl<Data> View for Diagram<Data> {
    type V = Layer<Data>;

    open spec fn view(&self) -> Layer<Data> {
        self.model()
    }
}

impl Clone for Face {
    fn clone(&self) -> (copy: Self)
        ensures
            copy@ == self@,
    {
        Face { ends: copy_lines(&self.ends), fill: self.fill.clone() }
    }
}

impl<Data> MetaCell<Data> {
    pub fn face(&self) -> (face: &Face)
        ensures
            *face == self.face,
    {
        &self.face
    }

    pub fn data(&self) -> (data: &Data)
        ensures
            *data == self.data,
    {
        &self.data
    }
}

impl<Data: Clone> Clone for MetaCell<Data> {
    fn clone(&self) -> (copy: Self)
        ensures
            cloned(self.data, copy.data),
            copy.face@ == self.face@,
    {
        MetaCell { data: self.data.clone(), face: self.face.clone() }
    }
}

impl<Data> Cell<Data> {
    /// A cell without content.
    pub fn end(data: Data, face: Face) -> (cell: Self)
        ensures
            cell.model() == (CellModel { data, face: face@, content: None }),
    {
        Cell { meta: MetaCell { data, face }, content: None }
    }

    pub fn is_end(&self) -> (b: bool)
        ensures
            b == self.model().is_end(),
    {
        self.content.is_none()
    }

    pub fn is_group(&self) -> (b: bool)
        ensures
            b == !self.model().is_end(),
    {
        self.content.is_some()
    }

    pub fn face(&self) -> (face: &Face)
        ensures
            face@ == self.model().face,
    {
        &self.meta.face
    }

    /// How many lines come into the cell.
    pub fn input_count(&self) -> (n: usize)
        ensures
            n == self.model().face.ends.len(),
    {
        self.meta.face.ends.len()
    }

    pub fn data(&self) -> (data: &Data)
        ensures
            *data == self.model().data,
    {
        &self.meta.data
    }

    /// The cell in the given slot of the content, if this is a group that
    /// has such a slot.
    pub fn get(&self, seg: TimelessIndex) -> (res: Option<&Self>)
        requires
            self.model().wf(),
        ensures
            match res {
                Some(cell) => self.model().content is Some && seg.pos
                    < self.model().content->Some_0.store.len() && cell.model()
                    == self.model().content->Some_0.store[seg.pos as int],
                None => self.model().content is None || seg.pos
                    >= self.model().content->Some_0.store.len(),
            },
    {
        match &self.content {
            None => None,
            Some(space) => {
                proof {
                    space::lemma_space_wf(*space);
                }
                match space.get(TracingIndex::Timeless(seg)) {
                    Ok(cell) => Some(cell),
                    Err(_) => None,
                }
            },
        }
    }
}

impl<Data> Diagram<Data> {
    /// A diagram over the given stack, with no cells yet. Refused only
    /// where the level of the diagram would not fit a machine word.
    pub fn new(tail: Tail<Data>) -> (res: Result<Self, Error>)
        requires
            tail.wf(),
        ensures
            match res {
                Ok(next) => next.wf() && next@.prev == tail@ && next@.cells == Traces::<
                    CellModel<Data>,
                >::of_values(Seq::empty()) && tail@.level() < usize::MAX && (tail@.sound()
                    ==> next@.stack().sound()),
                Err(e) => tail@.level() == usize::MAX && e@ == Fault::TooMuchDepth(usize::MAX),
            },
    {
        let level = tail.level();
        if level == usize::MAX {
            return Err(Error::TooMuchDepth(level));
        }
        let cells: TracingVec<Cell<Data>> = TracingVec::from_vec(Vec::new());
        let next = Diagram { cells, prev: tail };
        proof {
            assert(space_model(next.cells).store =~= Seq::<CellModel<Data>>::empty());
            assert(space_model(next.cells) == Traces::<CellModel<Data>>::of_values(Seq::empty()));
        }
        Ok(next)
    }

    /// How many layers lie beneath this one.
    pub fn level(&self) -> (level: usize)
        requires
            self.wf(),
        ensures
            level == self@.level(),
            level >= 1,
        decreases *self, 0int,
    {
        self.prev.level() + 1
    }

    /// The address of the cell of this layer that a path leads to.
    pub fn into_index(&self, path: Vec<TimelessIndex>) -> (index: ViewIndex)
        requires
            self.wf(),
        ensures
            index@ == self@.line(path@),
            index.wf(),
    {
        ViewIndex::Leveled { level: self.level() - 1, path }
    }

    /// The cell that a path leads to.
    pub fn get(&self, path: &Vec<TimelessIndex>) -> (res: Option<&Cell<Data>>)
        requires
            self.wf(),
        ensures
            match res {
                Some(cell) => space::cell_at(self@.cells, path@) == Some(cell.model())
                    && cell.model().wf(),
                None => space::cell_at(self@.cells, path@) is None,
            },
    {
        assert(path@.skip(0) =~= path@);
        space::cell_ref(&self.cells, path, 0)
    }
}

impl<Data> Tail<Data> {
    /// How many layers lie beneath the top one.
    pub fn level(&self) -> (level: usize)
        requires
            self.wf(),
        ensures
            level == self@.level(),
        decreases *self, 1int,
    {
        match self {
            Tail::Tower(tower) => tower.level(),
            Tail::Diagram(diagram) => diagram.level(),
        }
    }
}

} // verus!
