//! The layers of an opetope and the edits on them.
//!
//! The lowest layer is a tower: a plain sequence of cells. Over it lie
//! diagrams, each a sequence of cells whose faces point into the layer
//! beneath. A stack of layers is edited from its top; an edit that aims
//! deeper than the layer under the top is made on a copy.

pub mod data;
pub mod diagram;
pub mod tower;
pub mod viewing;

pub use diagram::{Diagram, Face, MetaCell};
pub use tower::Tower;
pub use viewing::{Message, Selection, ViewIndex};

use crate::model::tracing_vec::{IndexError, Traces};
use diagram::CellModel;
use viewing::{lines, Line, Picked};
use vstd::prelude::*;

verus! {

#[derive(Debug, Clone, Ord, PartialOrd, Eq, PartialEq, Hash)]
pub enum Error {
    IndexError(IndexError),
    TooMuchDepth(usize),
    NoSuchCell(ViewIndex),
    CannotSproutGroup(ViewIndex),
    NoCellWithInputs(Vec<ViewIndex>),
    CannotSplitBoundaryCells(Selection),
    CannotExtrudeNestedCells(Selection),
    CannotGroupDisconnected(Vec<ViewIndex>),
    CellsDoNotFormTree(Vec<ViewIndex>),
}

/// What an `Error` says.
pub ghost enum Fault {
    IndexError(IndexError),
    TooMuchDepth(usize),
    NoSuchCell(Line),
    CannotSproutGroup(Line),
    NoCellWithInputs(Seq<Line>),
    CannotSplitBoundaryCells(Picked),
    CannotExtrudeNestedCells(Picked),
    CannotGroupDisconnected(Seq<Line>),
    CellsDoNotFormTree(Seq<Line>),
}

impl View for Error {
    type V = Fault;

    open spec fn view(&self) -> Fault {
        match *self {
            Error::IndexError(e) => Fault::IndexError(e),
            Error::TooMuchDepth(level) => Fault::TooMuchDepth(level),
            Error::NoSuchCell(cell) => Fault::NoSuchCell(cell@),
            Error::CannotSproutGroup(cell) => Fault::CannotSproutGroup(cell@),
            Error::NoCellWithInputs(inputs) => Fault::NoCellWithInputs(lines(inputs@)),
            Error::CannotSplitBoundaryCells(cells) => Fault::CannotSplitBoundaryCells(cells@),
            Error::CannotExtrudeNestedCells(cells) => Fault::CannotExtrudeNestedCells(cells@),
            Error::CannotGroupDisconnected(cells) => Fault::CannotGroupDisconnected(lines(cells@)),
            Error::CellsDoNotFormTree(cells) => Fault::CellsDoNotFormTree(lines(cells@)),
        }
    }
}

/// What an edit did to the layer that it was made in.
#[derive(Debug, Clone, Ord, PartialOrd, Eq, PartialEq, Hash)]
pub enum Action {
    Extrude { group: ViewIndex, contents: Vec<ViewIndex> },
    Split { group: ViewIndex, contents: Vec<ViewIndex> },
    Sprout { group: ViewIndex, end: ViewIndex },
    Delete { cell: ViewIndex },
}

/// Where an edit was made, seen from the layer that was asked: in that
/// layer itself, or in the one beneath it, and then with the cells that
/// were added to the asked layer to wrap what is new beneath.
#[derive(Debug, Clone, Ord, PartialOrd, Eq, PartialEq, Hash)]
pub enum Interaction {
    InPrevious { action: Action, wraps: Vec<ViewIndex> },
    Here { action: Action },
}

/// What an `Action` says.
pub ghost enum Move {
    Extrude { group: Line, contents: Seq<Line> },
    Split { group: Line, contents: Seq<Line> },
    Sprout { group: Line, end: Line },
    Delete { cell: Line },
}

/// What an `Interaction` says.
pub ghost enum Outcome {
    InPrevious { action: Move, wraps: Seq<Line> },
    Here { action: Move },
}

impl View for Action {
    type V = Move;

    open spec fn view(&self) -> Move {
        match *self {
            Action::Extrude { group, contents } => Move::Extrude {
                group: group@,
                contents: lines(contents@),
            },
            Action::Split { group, contents } => Move::Split {
                group: group@,
                contents: lines(contents@),
            },
            Action::Sprout { group, end } => Move::Sprout { group: group@, end: end@ },
            Action::Delete { cell } => Move::Delete { cell: cell@ },
        }
    }
}

impl View for Interaction {
    type V = Outcome;

    open spec fn view(&self) -> Outcome {
        match *self {
            Interaction::InPrevious { action, wraps } => Outcome::InPrevious {
                action: action@,
                wraps: lines(wraps@),
            },
            Interaction::Here { action } => Outcome::Here { action: action@ },
        }
    }
}

/// A cell as it is handed out: the data of a cell of the tower, or the data
/// and the face of a cell of a diagram.
#[derive(Debug, PartialEq, Eq)]
pub enum Cell<Data> {
    Ground(Data),
    Leveled(MetaCell<Data>),
}

/// A stack of layers: a tower, or a diagram with the stack beneath it.
#[derive(Debug, PartialEq, Eq)]
pub enum Tail<Data> {
    Tower(Tower<Data>),
    Diagram(Box<Diagram<Data>>),
}

/// The result of an edit: done in place, done on a copy of the stack that
/// is handed back, or refused.
#[must_use]
#[derive(Debug, PartialEq, Eq)]
pub enum EditResult<O, Data> {
    Done(O),
    OkCopied { result: O, copy: Tail<Data> },
    Failed(Error),
}

/// What a stack of layers says.
pub ghost enum Stack<Data> {
    Tower(Traces<Data>),
    Diagram(Box<Layer<Data>>),
}

/// What a diagram says: its cells, and the stack beneath it.
pub ghost struct Layer<Data> {
    pub cells: Traces<CellModel<Data>>,
    pub prev: Stack<Data>,
}

impl<Data> Stack<Data> {
    /// How many layers lie beneath the top one.
    pub open spec fn level(self) -> nat
        decreases self,
    {
        match self {
            Stack::Tower(_) => 0,
            Stack::Diagram(layer) => layer.prev.level() + 1,
        }
    }

    /// Every tracing vector of the stack is valid, and the levels fit a
    /// machine word.
    pub open spec fn wf(self) -> bool
        decreases self,
    {
        match self {
            Stack::Tower(cells) => cells.wf(),
            Stack::Diagram(layer) => diagram::cells_wf(layer.cells) && layer.prev.wf()
                && layer.prev.level() < usize::MAX,
        }
    }
}

impl<Data> Layer<Data> {
    pub open spec fn level(self) -> nat {
        self.prev.level() + 1
    }

    /// The stack that has this layer as its top.
    pub open spec fn stack(self) -> Stack<Data> {
        Stack::Diagram(Box::new(self))
    }

    /// The line that points at the cell of this layer with the given path.
    pub open spec fn line(self, path: Seq<crate::model::tracing_vec::TimelessIndex>) -> Line {
        Line::Leveled { level: self.prev.level() as usize, path }
    }

    pub open spec fn wf(self) -> bool {
        diagram::cells_wf(self.cells) && self.prev.wf() && self.prev.level() < usize::MAX
    }
}

impl<Data> Tail<Data> {
    pub open spec fn model(self) -> Stack<Data>
        decreases self, 1int,
    {
        match self {
            Tail::Tower(tower) => Stack::Tower(tower@),
            Tail::Diagram(diagram) => Stack::Diagram(Box::new(diagram.model())),
        }
    }

    pub open spec fn wf(self) -> bool {
        self.model().wf()
    }
}

impl<Data> View for Tail<Data> {
    type V = Stack<Data>;

    open spec fn view(&self) -> Stack<Data> {
        self.model()
    }
}

impl<O, Data> EditResult<O, Data> {
    /// What the edit gave, or why it was refused.
    pub open spec fn outcome(self) -> Result<O, Error> {
        match self {
            EditResult::Done(done) => Ok(done),
            EditResult::OkCopied { result, .. } => Ok(result),
            EditResult::Failed(e) => Err(e),
        }
    }

    /// The copy of the stack on which the edit was made, if it was made on
    /// one.
    pub open spec fn copied(self) -> Option<Tail<Data>> {
        match self {
            EditResult::OkCopied { copy, .. } => Some(copy),
            _ => None,
        }
    }

    /// What the edit gave. The edit must not have been refused.
    pub fn unwrap(self) -> (result: O)
        requires
            !(self is Failed),
        ensures
            self.outcome() == Ok::<O, Error>(result),
    {
        match self {
            EditResult::Done(result) => result,
            EditResult::OkCopied { result, .. } => result,
            EditResult::Failed(_) => unreached(),
        }
    }

    /// What the edit gave, without the copy, or why it was refused.
    pub fn ok(self) -> (res: Result<O, Error>)
        ensures
            res == self.outcome(),
    {
        match self {
            EditResult::Done(result) => Ok(result),
            EditResult::OkCopied { result, .. } => Ok(result),
            EditResult::Failed(e) => Err(e),
        }
    }

    /// The result with `f` applied to what the edit gave. A copy is kept.
    pub fn map<D, F: FnOnce(O) -> D>(self, f: F) -> (res: EditResult<D, Data>)
        requires
            self.outcome() is Ok ==> f.requires((self.outcome()->Ok_0,)),
        ensures
            res.copied() == self.copied(),
            res is Done == self is Done,
            match self.outcome() {
                Ok(result) => res.outcome() is Ok && f.ensures((result,), res.outcome()->Ok_0),
                Err(e) => res.outcome() == Err::<D, Error>(e),
            },
    {
        match self {
            EditResult::Done(result) => EditResult::Done(f(result)),
            EditResult::OkCopied { result, copy } => EditResult::OkCopied { result: f(result), copy },
            EditResult::Failed(e) => EditResult::Failed(e),
        }
    }

    /// Shows the error to `f`, if the edit was refused, and hands the
    /// result on as it is.
    pub fn inspect_err<F: FnOnce(&Error)>(self, f: F) -> (res: Self)
        requires
            self matches EditResult::Failed(e) ==> f.requires((&e,)),
        ensures
            res == self,
            self matches EditResult::Failed(e) ==> f.ensures((&e,), ()),
    {
        match self {
            EditResult::Failed(e) => {
                f(&e);
                EditResult::Failed(e)
            },
            other => other,
        }
    }

    /// What `op` makes of what the edit gave and of the copy, if there is
    /// one; the refusal otherwise.
    pub fn and_then<U, F: FnOnce(O, Option<Tail<Data>>) -> EditResult<U, Data>>(self, op: F) -> (res:
        EditResult<U, Data>)
        requires
            self.outcome() is Ok ==> op.requires((self.outcome()->Ok_0, self.copied())),
        ensures
            match self.outcome() {
                Ok(result) => op.ensures((result, self.copied()), res),
                Err(e) => res == EditResult::<U, Data>::Failed(e),
            },
    {
        match self {
            EditResult::Done(result) => op(result, None),
            EditResult::OkCopied { result, copy } => op(result, Some(copy)),
            EditResult::Failed(e) => EditResult::Failed(e),
        }
    }

    /// The result as it is, unless the edit was refused: then what `op`
    /// makes of the error.
    pub fn or_else<F: FnOnce(Error) -> Self>(self, op: F) -> (res: Self)
        requires
            self matches EditResult::Failed(e) ==> op.requires((e,)),
        ensures
            match self {
                EditResult::Failed(e) => op.ensures((e,), res),
                _ => res == self,
            },
    {
        match self {
            EditResult::Failed(e) => op(e),
            other => other,
        }
    }

    /// The result of an edit that was made in place, or refused.
    pub fn from_result(res: Result<O, Error>) -> (edit: Self)
        ensures
            edit.outcome() == res,
            !(edit is OkCopied),
    {
        match res {
            Ok(result) => EditResult::Done(result),
            Err(e) => EditResult::Failed(e),
        }
    }
}

} // verus!
