//! The lowest layer: a plain sequence of cells.

use super::data::Selectable;
use super::diagram::lines::reached;
use super::diagram::selecting::{picked_view, tower_picked, tower_selected, tower_unselected};
use super::viewing::{lines, Line, Picked, Selection, ViewIndex};
use super::{Action, Cell, EditResult, Error, Fault, Interaction, Move, Outcome, Tail};
use crate::model::tracing_vec::{IndexError, TimelessIndex, Traces, TracingIndex, TracingVec};
use vstd::prelude::*;

verus! {

/// The lowest layer. Its cells have no faces: each one but the first holds
/// the one that stands before it.
#[derive(Debug, PartialEq, Eq)]
pub struct Tower<Data> {
    cells: TracingVec<Data>,
}

impl<Data> View for Tower<Data> {
    type V = Traces<Data>;

    closed spec fn view(&self) -> Traces<Data> {
        self.cells@
    }
}

/// What an edit of a tower gives: the cells after it, the address of the
/// new cell, and the addresses of the cells that it holds.
pub type Grown<Data> = (Traces<Data>, Line, Seq<Line>);

/// The slot that the next value of the store will get.
pub open spec fn fresh<X>(cells: Traces<X>) -> TimelessIndex {
    TimelessIndex { pos: cells.store.len() as usize }
}

/// What `extrude` does to the cells of a tower: a new cell after the last
/// one, which must be the one selected.
pub open spec fn extruded<Data>(cells: Traces<Data>, picked: Picked, group: Data) -> Result<
    Grown<Data>,
    Fault,
> {
    match picked {
        Picked::Leveled { .. } => Err(Fault::TooMuchDepth(picked.level() as usize)),
        Picked::Ground(index) => match cells.position(TracingIndex::Timeless(index)) {
            Err(_) => Err(Fault::NoSuchCell(Line::Ground(index))),
            Ok(p) => if p + 1 != cells.latest().len() {
                Err(Fault::CannotExtrudeNestedCells(picked))
            } else {
                Ok(
                    (
                        cells.inserted(p + 1, group),
                        Line::Ground(fresh(cells)),
                        seq![Line::Ground(index)],
                    ),
                )
            },
        },
    }
}

/// What `split` does to the cells of a tower: a new cell after the one
/// selected, which must not be the last.
pub open spec fn split<Data>(cells: Traces<Data>, picked: Picked, group: Data) -> Result<
    Grown<Data>,
    Fault,
> {
    match picked {
        Picked::Leveled { .. } => Err(Fault::TooMuchDepth(picked.level() as usize)),
        Picked::Ground(index) => match cells.position(TracingIndex::Timeless(index)) {
            Err(_) => Err(Fault::NoSuchCell(Line::Ground(index))),
            Ok(p) => if p + 1 == cells.latest().len() {
                Err(Fault::CannotSplitBoundaryCells(picked))
            } else {
                Ok(
                    (
                        cells.inserted(p + 1, group),
                        Line::Ground(fresh(cells)),
                        seq![Line::Ground(index)],
                    ),
                )
            },
        },
    }
}

/// What `sprout` does to the cells of a tower: a new cell before the one
/// addressed, which must be the first. Gives the cells after it and the
/// address of the new cell.
pub open spec fn sprouted<Data>(cells: Traces<Data>, line: Line, end: Data) -> Result<
    (Traces<Data>, Line),
    Fault,
> {
    match line {
        Line::Leveled { .. } => Err(Fault::TooMuchDepth(line.level() as usize)),
        Line::Ground(index) => match cells.position(TracingIndex::Timeless(index)) {
            Err(_) => Err(Fault::NoSuchCell(line)),
            Ok(p) => if p != 0 {
                Err(Fault::CannotSproutGroup(line))
            } else {
                Ok((cells.inserted(0, end), Line::Ground(fresh(cells))))
            },
        },
    }
}

/// What `delete` does to the cells of a tower. Gives the cells after it
/// and the address of the cell that left.
pub open spec fn deleted<Data>(cells: Traces<Data>, line: Line) -> Result<
    (Traces<Data>, Line),
    Fault,
> {
    match line {
        Line::Leveled { .. } => Err(Fault::TooMuchDepth(line.level() as usize)),
        Line::Ground(index) => match cells.position(TracingIndex::Timeless(index)) {
            Err(e) => Err(Fault::IndexError(e)),
            Ok(p) => Ok((cells.removed(p), line)),
        },
    }
}

/// The cells that a cell of a tower holds: the one that stands before it,
/// if it is alive and not the first.
pub open spec fn held<Data>(cells: Traces<Data>, path: Seq<TimelessIndex>) -> Option<Seq<Line>> {
    if path.len() != 1 {
        None
    } else {
        match cells.position(TracingIndex::Timeless(path[0])) {
            Err(_) => None,
            Ok(p) => if p == 0 {
                Some(Seq::empty())
            } else {
                Some(seq![Line::Ground(TimelessIndex { pos: cells.latest()[p - 1] })])
            },
        }
    }
}

/// Whether the cell that the first line points at stands before that of
/// the second. Lines that do not point at cells alive in the tower are
/// before nothing.
pub open spec fn before<Data>(cells: Traces<Data>, a: Line, b: Line) -> bool {
    match (a, b) {
        (Line::Ground(a), Line::Ground(b)) => cells.before(
            TracingIndex::Timeless(a),
            TracingIndex::Timeless(b),
        ) == Ok::<bool, IndexError>(true),
        _ => false,
    }
}

/// Whether the selection is the last cell of the tower.
pub open spec fn at_bottom<Data>(cells: Traces<Data>, picked: Picked) -> Result<bool, Fault> {
    match picked {
        Picked::Leveled { .. } => Err(Fault::TooMuchDepth(picked.level() as usize)),
        Picked::Ground(index) => Ok(
            cells.latest().len() > 0 && cells.latest().last() == index.pos,
        ),
    }
}

impl<Data> Tower<Data> {
    pub open spec fn wf(self) -> bool {
        self@.wf()
    }

    /// A tower of one cell, and the address of that cell.
    pub fn init(root: Data) -> (res: (ViewIndex, Self))
        ensures
            res.1.wf(),
            res.1@ == Traces::of_values(seq![root]),
            res.0@ == Line::Ground(TimelessIndex { pos: 0 }),
    {
        let mut vals: Vec<Data> = Vec::new();
        vals.push(root);
        assert(vals@ =~= seq![root]);
        let cells = TracingVec::from_vec(vals);
        (ViewIndex::Ground(TimelessIndex { pos: 0 }), Tower { cells })
    }

    pub fn level(&self) -> (level: usize)
        ensures
            level == 0,
    {
        0
    }

    /// Whether the tower is valid. A tower that was made and changed by
    /// the functions of this module always is.
    pub fn is_valid(&self) -> (ok: bool)
        ensures
            ok == self.wf(),
    {
        self.cells.is_valid()
    }

    /// The cells of the tower, for reading.
    pub fn cells(&self) -> (cells: &TracingVec<Data>)
        ensures
            cells@ == self@,
    {
        &self.cells
    }

    /// The cells of the tower, with their history.
    pub fn into_cells(self) -> (cells: TracingVec<Data>)
        ensures
            cells@ == self@,
    {
        self.cells
    }

    /// The tower of the given cells, if they are valid.
    pub fn from_cells(cells: TracingVec<Data>) -> (res: Option<Self>)
        ensures
            match res {
                Some(tower) => tower.wf() && tower@ == cells@,
                None => !cells.wf(),
            },
    {
        if cells.is_valid() {
            Some(Tower { cells })
        } else {
            None
        }
    }

    /// The slot that a selection names, if it is one of the tower.
    fn extract(sel: &Selection) -> (res: Result<TimelessIndex, Error>)
        requires
            sel.wf(),
        ensures
            match res {
                Ok(index) => sel@ == Picked::Ground(index),
                Err(e) => sel@ is Leveled && e@ == Fault::TooMuchDepth(sel@.level() as usize),
            },
    {
        match sel.as_ground() {
            Some(index) => Ok(index),
            None => Err(Error::TooMuchDepth(sel.level())),
        }
    }

    /// The slot that an address names, if it is one of the tower.
    fn valid_level(cell: &ViewIndex) -> (res: Result<TimelessIndex, Error>)
        requires
            cell.wf(),
        ensures
            match res {
                Ok(index) => cell@ == Line::Ground(index),
                Err(e) => cell@ is Leveled && e@ == Fault::TooMuchDepth(cell@.level() as usize),
            },
    {
        match cell.as_ground() {
            Some(index) => Ok(index),
            None => Err(Error::TooMuchDepth(cell.level())),
        }
    }

    /// Where a cell stands, if it is alive.
    fn standing(&self, index: TimelessIndex) -> (res: Result<usize, Error>)
        requires
            self.wf(),
        ensures
            match res {
                Ok(p) => self@.position(TracingIndex::Timeless(index)) == Ok::<int, IndexError>(
                    p as int,
                ) && p < self@.latest().len(),
                Err(e) => self@.position(TracingIndex::Timeless(index)) is Err && e@
                    == Fault::NoSuchCell(Line::Ground(index)),
            },
    {
        match self.cells.into_timed(TracingIndex::Timeless(index)) {
            Ok(timed) => {
                proof {
                    let latest = self@.latest();
                    assert(latest.contains(index.pos));
                    assert(0 <= latest.index_of(index.pos) < latest.len());
                }
                Ok(timed.pos)
            },
            Err(_) => Err(Error::NoSuchCell(ViewIndex::Ground(index))),
        }
    }

    fn one(index: TimelessIndex) -> (all: Vec<ViewIndex>)
        ensures
            lines(all@) == seq![Line::Ground(index)],
    {
        let mut all: Vec<ViewIndex> = Vec::new();
        all.push(ViewIndex::Ground(index));
        assert(lines(all@) =~= seq![Line::Ground(index)]);
        all
    }

    /// Adds a cell after the selected one, which must be the last. Gives
    /// the address of the new cell and of the cell that it holds.
    pub fn extrude_here(&mut self, sel: &Selection, group: Data) -> (res: Result<
        (ViewIndex, Vec<ViewIndex>),
        Error,
    >)
        requires
            old(self).wf(),
            sel.wf(),
        ensures
            final(self).wf(),
            match res {
                Ok(grown) => extruded(old(self)@, sel@, group) == Ok::<Grown<Data>, Fault>(
                    (final(self)@, grown.0@, lines(grown.1@)),
                ),
                Err(e) => extruded(old(self)@, sel@, group) == Err::<Grown<Data>, Fault>(e@)
                    && final(self)@ == old(self)@,
            },
    {
        let index = match Self::extract(sel) {
            Ok(index) => index,
            Err(e) => {
                return Err(e);
            },
        };
        let p = match self.standing(index) {
            Ok(p) => p,
            Err(e) => {
                return Err(e);
            },
        };
        let len = self.cells.len();
        if p + 1 != len {
            return Err(Error::CannotExtrudeNestedCells(sel.clone()));
        }
        let slot = self.cells.store_len();
        match self.cells.try_insert_after(TracingIndex::Timeless(index), group) {
            Ok(_) => Ok((ViewIndex::Ground(TimelessIndex { pos: slot }), Self::one(index))),
            Err(e) => Err(Error::IndexError(e)),
        }
    }

    /// Adds a cell after the selected one, which must not be the last.
    /// Gives the address of the new cell and of the cell that it holds.
    pub fn split_here(&mut self, sel: &Selection, group: Data) -> (res: Result<
        (ViewIndex, Vec<ViewIndex>),
        Error,
    >)
        requires
            old(self).wf(),
            sel.wf(),
        ensures
            final(self).wf(),
            match res {
                Ok(grown) => split(old(self)@, sel@, group) == Ok::<Grown<Data>, Fault>(
                    (final(self)@, grown.0@, lines(grown.1@)),
                ),
                Err(e) => split(old(self)@, sel@, group) == Err::<Grown<Data>, Fault>(e@)
                    && final(self)@ == old(self)@,
            },
    {
        let index = match Self::extract(sel) {
            Ok(index) => index,
            Err(e) => {
                return Err(e);
            },
        };
        let p = match self.standing(index) {
            Ok(p) => p,
            Err(e) => {
                return Err(e);
            },
        };
        let len = self.cells.len();
        if p + 1 == len {
            return Err(Error::CannotSplitBoundaryCells(sel.clone()));
        }
        let slot = self.cells.store_len();
        match self.cells.try_insert_after(TracingIndex::Timeless(index), group) {
            Ok(_) => Ok((ViewIndex::Ground(TimelessIndex { pos: slot }), Self::one(index))),
            Err(e) => Err(Error::IndexError(e)),
        }
    }

    /// Adds a cell before the addressed one, which must be the first.
    /// Gives the address of the new cell.
    pub fn sprout_here(&mut self, index: &ViewIndex, end: Data) -> (res: Result<ViewIndex, Error>)
        requires
            old(self).wf(),
            index.wf(),
        ensures
            final(self).wf(),
            match res {
                Ok(new) => sprouted(old(self)@, index@, end) == Ok::<(Traces<Data>, Line), Fault>(
                    (final(self)@, new@),
                ),
                Err(e) => sprouted(old(self)@, index@, end) == Err::<(Traces<Data>, Line), Fault>(
                    e@,
                ) && final(self)@ == old(self)@,
            },
    {
        let slot_of = match Self::valid_level(index) {
            Ok(slot_of) => slot_of,
            Err(e) => {
                return Err(e);
            },
        };
        let p = match self.standing(slot_of) {
            Ok(p) => p,
            Err(e) => {
                return Err(e);
            },
        };
        if p != 0 {
            return Err(Error::CannotSproutGroup(index.clone()));
        }
        let slot = self.cells.store_len();
        match self.cells.try_insert_before(TracingIndex::Timeless(slot_of), end) {
            Ok(_) => Ok(ViewIndex::Ground(TimelessIndex { pos: slot })),
            Err(e) => Err(Error::IndexError(e)),
        }
    }

    /// Adds a cell after the selected one, which must be the last. A tower
    /// has nothing to wrap: the second value is not used.
    pub fn extrude(&mut self, sel: &Selection, group: Data, _wrap: Data) -> (res: EditResult<
        Interaction,
        Data,
    >)
        requires
            old(self).wf(),
            sel.wf(),
        ensures
            final(self).wf(),
            match res {
                EditResult::Done(done) => done@ matches Outcome::Here {
                    action: Move::Extrude { group: new, contents: held },
                } && extruded(old(self)@, sel@, group) == Ok::<Grown<Data>, Fault>(
                    (final(self)@, new, held),
                ),
                EditResult::OkCopied { .. } => false,
                EditResult::Failed(e) => extruded(old(self)@, sel@, group) == Err::<
                    Grown<Data>,
                    Fault,
                >(e@) && final(self)@ == old(self)@,
            },
    {
        match self.extrude_here(sel, group) {
            Ok((new, contents)) => {
                assert(extruded(old(self)@, sel@, group) == Ok::<Grown<Data>, Fault>(
                    (self@, new@, lines(contents@)),
                ));
                EditResult::Done(
                    Interaction::Here { action: Action::Extrude { group: new, contents } },
                )
            },
            Err(e) => EditResult::Failed(e),
        }
    }

    /// Adds a cell after the selected one, which must not be the last. A
    /// tower has nothing to wrap: the last two values are not used.
    pub fn split(&mut self, sel: &Selection, group: Data, _wrap_top: Data, _wrap_bot: Data) -> (res:
        EditResult<Interaction, Data>)
        requires
            old(self).wf(),
            sel.wf(),
        ensures
            final(self).wf(),
            match res {
                EditResult::Done(done) => done@ matches Outcome::Here {
                    action: Move::Split { group: new, contents: held },
                } && split(old(self)@, sel@, group) == Ok::<Grown<Data>, Fault>(
                    (final(self)@, new, held),
                ),
                EditResult::OkCopied { .. } => false,
                EditResult::Failed(e) => split(old(self)@, sel@, group) == Err::<
                    Grown<Data>,
                    Fault,
                >(e@) && final(self)@ == old(self)@,
            },
    {
        match self.split_here(sel, group) {
            Ok((new, contents)) => {
                assert(split(old(self)@, sel@, group) == Ok::<Grown<Data>, Fault>(
                    (self@, new@, lines(contents@)),
                ));
                EditResult::Done(
                    Interaction::Here { action: Action::Split { group: new, contents } },
                )
            },
            Err(e) => EditResult::Failed(e),
        }
    }

    /// Adds a cell before the addressed one, which must be the first. A
    /// tower has nothing to wrap: the last value is not used.
    pub fn sprout(&mut self, index: &ViewIndex, end: Data, _wrap: Data) -> (res: EditResult<
        Interaction,
        Data,
    >)
        requires
            old(self).wf(),
            index.wf(),
        ensures
            final(self).wf(),
            match res {
                EditResult::Done(done) => done@ matches Outcome::Here {
                    action: Move::Sprout { group: old_end, end: new },
                } && old_end == index@ && sprouted(old(self)@, index@, end) == Ok::<
                    (Traces<Data>, Line),
                    Fault,
                >((final(self)@, new)),
                EditResult::OkCopied { .. } => false,
                EditResult::Failed(e) => sprouted(old(self)@, index@, end) == Err::<
                    (Traces<Data>, Line),
                    Fault,
                >(e@) && final(self)@ == old(self)@,
            },
    {
        match self.sprout_here(index, end) {
            Ok(new) => {
                assert(sprouted(old(self)@, index@, end) == Ok::<(Traces<Data>, Line), Fault>(
                    (self@, new@),
                ));
                EditResult::Done(
                    Interaction::Here {
                        action: Action::Sprout { group: index.clone(), end: new },
                    },
                )
            },
            Err(e) => EditResult::Failed(e),
        }
    }

    /// Takes the addressed cell out of the tower.
    pub fn delete(&mut self, index: &ViewIndex) -> (res: EditResult<Interaction, Data>)
        requires
            old(self).wf(),
            index.wf(),
        ensures
            final(self).wf(),
            match res {
                EditResult::Done(done) => deleted(old(self)@, index@) == Ok::<
                    (Traces<Data>, Line),
                    Fault,
                >((final(self)@, index@)) && done@ == (Outcome::Here {
                    action: Move::Delete { cell: index@ },
                }),
                EditResult::OkCopied { .. } => false,
                EditResult::Failed(e) => deleted(old(self)@, index@) == Err::<
                    (Traces<Data>, Line),
                    Fault,
                >(e@) && final(self)@ == old(self)@,
            },
    {
        let slot_of = match Self::valid_level(index) {
            Ok(slot_of) => slot_of,
            Err(e) => {
                return EditResult::Failed(e);
            },
        };
        match self.cells.try_remove(TracingIndex::Timeless(slot_of)) {
            Ok(slot) => EditResult::Done(
                Interaction::Here { action: Action::Delete { cell: ViewIndex::Ground(slot) } },
            ),
            Err(e) => EditResult::Failed(Error::IndexError(e)),
        }
    }

    /// The cells that a cell holds: the one that stands before it, if any.
    /// Nothing for a path that is not one slot of a cell that is alive.
    pub fn contents_of(&self, index: &Vec<TimelessIndex>) -> (res: Option<Vec<ViewIndex>>)
        requires
            self.wf(),
        ensures
            match res {
                Some(all) => held(self@, index@) == Some(lines(all@)),
                None => held(self@, index@) is None,
            },
    {
        if index.len() != 1 {
            return None;
        }
        match self.cells.into_timed(TracingIndex::Timeless(index[0])) {
            Err(_) => None,
            Ok(timed) => {
                match timed.shifted_down(1) {
                    None => {
                        let all: Vec<ViewIndex> = Vec::new();
                        assert(lines(all@) =~= Seq::<Line>::empty());
                        Some(all)
                    },
                    Some(before) => {
                        proof {
                            let latest = self@.latest();
                            assert(latest.contains(index@[0].pos));
                            assert(0 <= latest.index_of(index@[0].pos) < latest.len());
                        }
                        match self.cells.into_timeless(TracingIndex::Timed(before)) {
                            Ok(slot) => Some(Self::one(slot)),
                            Err(_) => {
                                proof {
                                    assert(false);
                                }
                                None
                            },
                        }
                    },
                }
            },
        }
    }

    /// Puts new data into the addressed cell.
    pub fn rename(&mut self, cell: &ViewIndex, new_data: Data) -> (res: Result<(), Error>)
        requires
            old(self).wf(),
            cell.wf(),
        ensures
            final(self).wf(),
            match res {
                Ok(_) => super::Stack::Tower(old(self)@).renamed(cell@, new_data) == Ok::<
                    super::Stack<Data>,
                    Fault,
                >(super::Stack::Tower(final(self)@)),
                Err(e) => super::Stack::Tower(old(self)@).renamed(cell@, new_data) == Err::<
                    super::Stack<Data>,
                    Fault,
                >(e@) && final(self)@ == old(self)@,
            },
    {
        let index = match Self::valid_level(cell) {
            Ok(index) => index,
            Err(e) => {
                return Err(e);
            },
        };
        match self.cells.get_mut(TracingIndex::Timeless(index)) {
            Ok(data) => {
                *data = new_data;
                Ok(())
            },
            Err(_) => Err(Error::NoSuchCell(cell.clone())),
        }
    }

    /// Whether the cell that the first address names stands before that of
    /// the second. Addresses of cells that are not alive in the tower are
    /// before nothing.
    pub fn is_before(&self, a: &ViewIndex, b: &ViewIndex) -> (res: bool)
        requires
            self.wf(),
        ensures
            res == before(self@, a@, b@),
    {
        match (a.as_ground(), b.as_ground()) {
            (Some(a), Some(b)) => match self.cells.is_before(
                TracingIndex::Timeless(a),
                TracingIndex::Timeless(b),
            ) {
                Ok(res) => res,
                Err(_) => false,
            },
            _ => false,
        }
    }

    /// Whether the selection is the last cell of the tower.
    pub fn is_at_bottom(&self, cells: &Selection) -> (res: Result<bool, Error>)
        requires
            self.wf(),
            cells.wf(),
        ensures
            match res {
                Ok(b) => at_bottom(self@, cells@) == Ok::<bool, Fault>(b),
                Err(e) => at_bottom(self@, cells@) == Err::<bool, Fault>(e@),
            },
    {
        let index = match Self::extract(cells) {
            Ok(index) => index,
            Err(e) => {
                return Err(e);
            },
        };
        match self.cells.try_last_index() {
            None => Ok(false),
            Some(last) => match self.cells.into_timeless(TracingIndex::Timed(last)) {
                Ok(slot) => Ok(slot.pos == index.pos),
                Err(_) => {
                    proof {
                        assert(false);
                    }
                    Ok(false)
                },
            },
        }
    }

    /// The diagram that has this tower beneath it and no cells yet.
    pub fn into_next(self) -> (res: Result<super::Diagram<Data>, Error>)
        requires
            self.wf(),
        ensures
            match res {
                Ok(next) => next.wf() && next@.prev == super::Stack::Tower(self@)
                    && next@.cells == Traces::<super::diagram::CellModel<Data>>::of_values(
                    Seq::empty(),
                ) && next@.stack().sound(),
                Err(_) => false,
            },
    {
        super::Diagram::new(Tail::Tower(self))
    }
}

impl<Data: Clone> Tower<Data> {
    /// The data of the addressed cell, cloned.
    pub fn cell(&self, cell: &ViewIndex) -> (res: Result<Cell<Data>, Error>)
        requires
            self.wf(),
            cell.wf(),
        ensures
            match res {
                Ok(found) => super::Stack::Tower(self@).entry(cell@) is Ok && cloned(
                    super::Stack::Tower(self@).entry(cell@)->Ok_0.0,
                    found.data_of(),
                ) && found.face_of() == super::Stack::Tower(self@).entry(cell@)->Ok_0.1,
                Err(e) => super::Stack::Tower(self@).entry(cell@) == Err::<
                    (Data, Option<super::diagram::Boundary>),
                    Fault,
                >(e@),
            },
    {
        let index = match Self::valid_level(cell) {
            Ok(index) => index,
            Err(e) => {
                return Err(e);
            },
        };
        match self.cells.get(TracingIndex::Timeless(index)) {
            Ok(data) => Ok(Cell::Ground(data.clone())),
            Err(e) => Err(Error::IndexError(e)),
        }
    }

    /// A copy of the stack up to the given level, which for a tower can
    /// only be 0.
    pub fn deep_copy(&self, level: usize) -> (res: Result<Tail<Data>, Error>)
        requires
            self.wf(),
        ensures
            match res {
                Ok(copy) => level == 0 && copy@ is Tower && copy@->Tower_0.clone_of(self@)
                    && copy.wf(),
                Err(e) => level != 0 && e@ == Fault::TooMuchDepth(level),
            },
    {
        if level == 0 {
            Ok(Tail::Tower(Tower { cells: self.cells.clone() }))
        } else {
            Err(Error::TooMuchDepth(level))
        }
    }
}

impl<Data: Clone> Clone for Tower<Data> {
    fn clone(&self) -> (copy: Self)
        ensures
            copy@.clone_of(self@),
    {
        Tower { cells: self.cells.clone() }
    }
}

impl<Data> Tower<Selectable<Data>> {
    /// Takes the mark off every cell that is alive. The depth is not
    /// used: a tower has nothing beneath it.
    pub fn unselect_all(&mut self, _max_depth: usize)
        requires
            old(self).wf(),
        ensures
            final(self).wf(),
            final(self)@ == tower_unselected(old(self)@),
    {
        let alive = self.cells.timeless_indices();
        let ghost before = self.cells@;
        let ghost goal = tower_unselected(before);
        let ghost order = before.latest();
        let mut p: usize = 0;
        while p < alive.len()
            invariant
                self.cells.wf(),
                before.wf(),
                before == old(self)@,
                order == before.latest(),
                goal == tower_unselected(before),
                p <= alive.len(),
                alive@.len() == order.len(),
                forall|q: int| 0 <= q < alive@.len() ==> (#[trigger] alive@[q]).pos == order[q],
                self.cells@.births == before.births,
                self.cells@.snapshots == before.snapshots,
                self.cells@.store.len() == before.store.len(),
                forall|i: int|
                    0 <= i < before.store.len() && !reached(order, p as int, i) ==> (
                    #[trigger] self.cells@.store[i]) == before.store[i],
                forall|i: int|
                    0 <= i < before.store.len() && reached(order, p as int, i) ==> (
                    #[trigger] self.cells@.store[i]) == goal.store[i],
            decreases alive.len() - p,
        {
            let slot = alive[p].pos;
            proof {
                assert(before.snapshots[before.pseudotime()][p as int] < before.store.len());
                assert(order.no_duplicates());
                if reached(order, p as int, slot as int) {
                    let q = choose|q: int| 0 <= q < p && #[trigger] order[q] == slot as int;
                    assert(order[q] == order[p as int]);
                }
            }
            let data = self.cells.slot_mut(slot);
            data.unselect();
            proof {
                assert(order.contains(slot));
                assert forall|i: int|
                    0 <= i < before.store.len() && !reached(order, p + 1, i) implies (
                #[trigger] self.cells@.store[i]) == before.store[i] by {
                    assert(!reached(order, p as int, i));
                    assert(i != slot);
                }
                assert forall|i: int|
                    0 <= i < before.store.len() && reached(order, p + 1, i) implies (
                #[trigger] self.cells@.store[i]) == goal.store[i] by {
                    if i != slot {
                        let q = choose|q: int| 0 <= q < p + 1 && #[trigger] order[q] == i;
                        assert(reached(order, p as int, i));
                    }
                }
            }
            p += 1;
        }
        proof {
            assert forall|i: int| 0 <= i < before.store.len() implies (
            #[trigger] self.cells@.store[i]) == goal.store[i] by {
                if order.contains(i as usize) {
                    let q = choose|q: int| 0 <= q < order.len() && order[q] == i as usize;
                    assert(reached(order, p as int, i));
                } else {
                    assert(!reached(order, p as int, i));
                }
            }
            assert(self.cells@.store =~= goal.store);
        }
    }

    /// The first cell alive in the tower that is selected.
    pub fn selected_cells(&self) -> (res: Option<Selection>)
        requires
            self.wf(),
        ensures
            picked_view(res) == tower_picked(self@, self@.latest().len() as int),
            res is Some ==> res->Some_0.wf(),
    {
        let alive = self.cells.iter_timeless_indices();
        let mut p: usize = 0;
        while p < alive.len()
            invariant
                self.wf(),
                p <= alive.len(),
                alive@.len() == self@.latest().len(),
                forall|q: int|
                    0 <= q < alive@.len() ==> (#[trigger] alive@[q]).0.pos == self@.latest()[q]
                        && *alive@[q].1 == self@.latest_values()[q],
                tower_picked(self@, p as int) is None,
            decreases alive.len() - p,
        {
            proof {
                assert(self@.snapshots[self@.pseudotime()][p as int] < self@.store.len());
            }
            if alive[p].1.selected {
                let found = Selection::ground(alive[p].0);
                proof {
                    let full = self@.latest().len() as int;
                    lemma_tower_picked(self@, p + 1, full);
                }
                return Some(found);
            }
            p += 1;
        }
        None
    }

    /// Marks the addressed cell, unless it was marked, and takes the marks
    /// off all other cells that are alive. Gives the selection, if the
    /// cell was marked.
    pub fn select(&mut self, cell: &ViewIndex) -> (res: Result<Option<Selection>, Error>)
        requires
            old(self).wf(),
            cell.wf(),
        ensures
            final(self).wf(),
            match res {
                Ok(sel) => tower_selected(old(self)@, cell@) == Ok::<
                    (Traces<Selectable<Data>>, Option<Picked>),
                    Fault,
                >((final(self)@, picked_view(sel))),
                Err(e) => tower_selected(old(self)@, cell@) == Err::<
                    (Traces<Selectable<Data>>, Option<Picked>),
                    Fault,
                >(e@) && final(self)@ == old(self)@,
            },
    {
        let index = match Self::valid_level(cell) {
            Ok(index) => index,
            Err(e) => {
                return Err(e);
            },
        };
        if index.pos >= self.cells.store_len() {
            return Err(Error::NoSuchCell(cell.clone()));
        }
        let selected = self.cells.slot(index.pos).selected;
        self.unselect_all(0);
        if !selected {
            let data = self.cells.slot_mut(index.pos);
            data.select();
            Ok(Some(Selection::ground(index)))
        } else {
            Ok(None)
        }
    }
}

/// A selected cell that is found among the first cells of a tower is
/// found among more of them too.
pub proof fn lemma_tower_picked<Data>(cells: Traces<Selectable<Data>>, n: int, m: int)
    requires
        0 <= n <= m <= cells.latest().len(),
        tower_picked(cells, n) is Some,
    ensures
        tower_picked(cells, m) == tower_picked(cells, n),
    decreases m - n,
{
    if n < m {
        lemma_tower_picked(cells, n, m - 1);
    }
}

} // verus!
