//! Reading and renaming the cells of a stack, and listing its groups.

use super::space::{cell_at, cell_mut, with_cell};
use super::{Boundary, Cell, CellModel, Diagram, Face};
use crate::model::tracing_vec::{IndexError, Traces, TracingIndex};
use crate::opetope::tower;
use crate::opetope::viewing::{Line, ViewIndex};
use crate::opetope::{Error, Fault, Layer, Stack, Tail};
use vstd::prelude::*;

verus! {

impl<Data> Stack<Data> {
    /// The data of the cell that a line points at and, for a cell of a
    /// diagram, its face.
    pub open spec fn entry(self, line: Line) -> Result<(Data, Option<Boundary>), Fault>
        decreases self,
    {
        match self {
            Stack::Tower(cells) => match line {
                Line::Leveled { .. } => Err(Fault::TooMuchDepth(line.level() as usize)),
                Line::Ground(index) => match cells.value(TracingIndex::Timeless(index)) {
                    Ok(data) => Ok((data, None)),
                    Err(e) => Err(Fault::IndexError(e)),
                },
            },
            Stack::Diagram(layer) => if line.level() > layer.level() {
                Err(Fault::TooMuchDepth(line.level() as usize))
            } else if line.level() == layer.level() {
                match cell_at(layer.cells, line.path()) {
                    Some(cell) => Ok((cell.data, Some(cell.face))),
                    None => Err(Fault::NoSuchCell(line)),
                }
            } else {
                layer.prev.entry(line)
            },
        }
    }

    /// The stack with other data in the cell that a line points at.
    pub open spec fn renamed(self, line: Line, data: Data) -> Result<Stack<Data>, Fault>
        decreases self,
    {
        match self {
            Stack::Tower(cells) => match line {
                Line::Leveled { .. } => Err(Fault::TooMuchDepth(line.level() as usize)),
                Line::Ground(index) => if index.pos < cells.store.len() {
                    Ok(
                        Stack::Tower(
                            Traces { store: cells.store.update(index.pos as int, data), ..cells },
                        ),
                    )
                } else {
                    Err(Fault::NoSuchCell(line))
                },
            },
            Stack::Diagram(layer) => if line.level() > layer.level() {
                Err(Fault::TooMuchDepth(line.level() as usize))
            } else if line.level() == layer.level() {
                match cell_at(layer.cells, line.path()) {
                    Some(cell) => Ok(
                        Stack::Diagram(
                            Box::new(
                                Layer {
                                    cells: with_cell(
                                        layer.cells,
                                        line.path(),
                                        CellModel { data, ..cell },
                                    ),
                                    ..*layer
                                },
                            ),
                        ),
                    ),
                    None => Err(Fault::NoSuchCell(line)),
                }
            } else {
                match layer.prev.renamed(line, data) {
                    Ok(prev) => Ok(Stack::Diagram(Box::new(Layer { prev, ..*layer }))),
                    Err(e) => Err(e),
                }
            },
        }
    }

    /// Renaming keeps the level of a stack.
    pub proof fn lemma_renamed(self, line: Line, data: Data)
        ensures
            self.renamed(line, data) is Ok ==> self.renamed(line, data)->Ok_0.level()
                == self.level(),
        decreases self,
    {
        match self {
            Stack::Tower(_) => {},
            Stack::Diagram(layer) => {
                layer.prev.lemma_renamed(line, data);
            },
        }
    }
}

impl<Data> Layer<Data> {
    /// Whether the cell of this layer that a line points at is an end.
    pub open spec fn end_at(self, line: Line) -> Result<bool, Fault> {
        if line.level() != self.level() {
            Err(Fault::TooMuchDepth(line.level() as usize))
        } else {
            match cell_at(self.cells, line.path()) {
                Some(cell) => Ok(cell.content is None),
                None => Err(Fault::NoSuchCell(line)),
            }
        }
    }
}

impl<Data> crate::opetope::Cell<Data> {
    /// The data of the cell.
    pub open spec fn data_of(self) -> Data {
        match self {
            crate::opetope::Cell::Ground(data) => data,
            crate::opetope::Cell::Leveled(meta) => meta.data,
        }
    }

    /// The face of the cell, if it is one of a diagram.
    pub open spec fn face_of(self) -> Option<Boundary> {
        match self {
            crate::opetope::Cell::Ground(_) => None,
            crate::opetope::Cell::Leveled(meta) => Some(meta.face@),
        }
    }

    pub fn data(&self) -> (data: &Data)
        ensures
            *data == self.data_of(),
    {
        match self {
            crate::opetope::Cell::Ground(data) => data,
            crate::opetope::Cell::Leveled(meta) => &meta.data,
        }
    }

    pub fn to_data(self) -> (data: Data)
        ensures
            data == self.data_of(),
    {
        match self {
            crate::opetope::Cell::Ground(data) => data,
            crate::opetope::Cell::Leveled(meta) => meta.data,
        }
    }

    pub fn face(&self) -> (face: Option<&Face>)
        ensures
            match face {
                Some(face) => self.face_of() == Some(face@),
                None => self.face_of() is None,
            },
    {
        match self {
            crate::opetope::Cell::Ground(_) => None,
            crate::opetope::Cell::Leveled(meta) => Some(&meta.face),
        }
    }
}

impl<Data> Diagram<Data> {
    /// Whether the cell of this layer that the address names is an end.
    pub fn is_end(&self, cell: &ViewIndex) -> (res: Result<bool, Error>)
        requires
            self.wf(),
            cell.wf(),
        ensures
            match res {
                Ok(b) => self@.end_at(cell@) == Ok::<bool, Fault>(b),
                Err(e) => self@.end_at(cell@) == Err::<bool, Fault>(e@),
            },
    {
        if !cell.at_level(self.level()) {
            return Err(Error::TooMuchDepth(cell.level()));
        }
        let path = cell.path();
        match self.get(&path) {
            Some(found) => Ok(found.content.is_none()),
            None => Err(Error::NoSuchCell(cell.clone())),
        }
    }

    /// Puts new data into the addressed cell, in this layer or beneath it.
    pub fn rename(&mut self, cell: &ViewIndex, new_data: Data) -> (res: Result<(), Error>)
        requires
            old(self).wf(),
            cell.wf(),
        ensures
            final(self).wf(),
            final(self)@.level() == old(self)@.level(),
            old(self)@.stack().sound() ==> final(self)@.stack().sound(),
            match res {
                Ok(_) => old(self)@.stack().renamed(cell@, new_data) == Ok::<Stack<Data>, Fault>(
                    final(self)@.stack(),
                ),
                Err(e) => old(self)@.stack().renamed(cell@, new_data) == Err::<Stack<Data>, Fault>(
                    e@,
                ) && final(self)@ == old(self)@,
            },
        decreases *old(self), 0int,
    {
        proof {
            if self@.stack().sound() && self@.stack().renamed(cell@, new_data) is Ok {
                self@.stack().lemma_renamed_sound(cell@, new_data);
            }
        }
        let own = self.level();
        if cell.above_level(own) {
            Err(Error::TooMuchDepth(cell.level()))
        } else if cell.at_level(own) {
            let path = cell.path();
            assert(path@.skip(0) =~= path@);
            match cell_mut(&mut self.cells, &path, 0) {
                Some(found) => {
                    found.meta.data = new_data;
                    Ok(())
                },
                None => Err(Error::NoSuchCell(cell.clone())),
            }
        } else {
            proof {
                old(self)@.prev.lemma_renamed(cell@, new_data);
            }
            self.prev.rename(cell, new_data)
        }
    }
}

impl<Data: Clone> Diagram<Data> {
    /// The data of the addressed cell, cloned, and its face if it is a
    /// cell of a diagram.
    pub fn cell(&self, cell: &ViewIndex) -> (res: Result<crate::opetope::Cell<Data>, Error>)
        requires
            self.wf(),
            cell.wf(),
        ensures
            match res {
                Ok(found) => self@.stack().entry(cell@) is Ok && cloned(
                    self@.stack().entry(cell@)->Ok_0.0,
                    found.data_of(),
                ) && found.face_of() == self@.stack().entry(cell@)->Ok_0.1,
                Err(e) => self@.stack().entry(cell@) == Err::<(Data, Option<Boundary>), Fault>(e@),
            },
        decreases *self, 0int,
    {
        let own = self.level();
        if cell.above_level(own) {
            Err(Error::TooMuchDepth(cell.level()))
        } else if cell.at_level(own) {
            let path = cell.path();
            match self.get(&path) {
                Some(found) => Ok(crate::opetope::Cell::Leveled(found.meta.clone())),
                None => Err(Error::NoSuchCell(cell.clone())),
            }
        } else {
            self.prev.cell(cell)
        }
    }
}

impl<Data> Tail<Data> {
    /// Puts new data into the addressed cell.
    pub fn rename(&mut self, cell: &ViewIndex, new_data: Data) -> (res: Result<(), Error>)
        requires
            old(self).wf(),
            cell.wf(),
        ensures
            final(self).wf(),
            final(self)@.level() == old(self)@.level(),
            old(self)@.sound() ==> final(self)@.sound(),
            match res {
                Ok(_) => old(self)@.renamed(cell@, new_data) == Ok::<Stack<Data>, Fault>(
                    final(self)@,
                ),
                Err(e) => old(self)@.renamed(cell@, new_data) == Err::<Stack<Data>, Fault>(e@)
                    && final(self)@ == old(self)@,
            },
        decreases *old(self), 1int,
    {
        match self {
            Tail::Tower(tower) => tower.rename(cell, new_data),
            Tail::Diagram(diagram) => diagram.rename(cell, new_data),
        }
    }
}

impl<Data: Clone> Tail<Data> {
    /// The data of the addressed cell, cloned, and its face if it is a
    /// cell of a diagram.
    pub fn cell(&self, cell: &ViewIndex) -> (res: Result<crate::opetope::Cell<Data>, Error>)
        requires
            self.wf(),
            cell.wf(),
        ensures
            match res {
                Ok(found) => self@.entry(cell@) is Ok && cloned(
                    self@.entry(cell@)->Ok_0.0,
                    found.data_of(),
                ) && found.face_of() == self@.entry(cell@)->Ok_0.1,
                Err(e) => self@.entry(cell@) == Err::<(Data, Option<Boundary>), Fault>(e@),
            },
        decreases *self, 1int,
    {
        match self {
            Tail::Tower(tower) => tower.cell(cell),
            Tail::Diagram(diagram) => diagram.cell(cell),
        }
    }
}

} // verus!
