//! The edits of a layer: extruding, splitting and sprouting, in the layer
//! itself, in the one beneath it, or on a copy of the stack.

use super::copying::lemma_stack_clone;
use super::grouping::paths_of;
use super::lines::{lemma_relined_all_cell, relined_all};
use super::resolving::face_resolves;
use super::space::{cell_at, cell_mut, lemma_model_is_map, lemma_wf_space, modeller, with_cell};
use super::wraps::{find_inputs, find_with_inputs, lemma_find_inputs, split_cell, wrap_cell};
use super::{Cell, CellModel, Diagram, Face, MetaCell};
use crate::model::tracing_vec::{TimelessIndex, Traces, TracingVec};
use crate::opetope::tower;
use crate::opetope::viewing::{lines, Line, Picked, Selection, ViewIndex};
use crate::opetope::{
    Action, EditResult, Error, Fault, Interaction, Layer, Move, Outcome, Stack, Tail,
};
use vstd::prelude::*;

verus! {

impl<Data> Layer<Data> {
    /// Why the selected cells of this layer cannot be extruded, if they
    /// cannot: they are not all alive at its top, or they cannot be
    /// grouped.
    pub open spec fn extrude_here_fault(self, picked: Picked) -> Option<Fault> {
        if self.at_bottom(picked) == Ok::<bool, Fault>(true) {
            self.group_fault(picked.paths())
        } else {
            Some(Fault::CannotExtrudeNestedCells(picked))
        }
    }

    /// Why the selected cells of this layer cannot be split off, if they
    /// cannot: they are all alive at its top, or they cannot be grouped.
    pub open spec fn split_here_fault(self, picked: Picked) -> Option<Fault> {
        if self.at_bottom(picked) == Ok::<bool, Fault>(false) {
            self.group_fault(picked.paths())
        } else {
            Some(Fault::CannotSplitBoundaryCells(picked))
        }
    }

    /// Why the cell of this layer that a line points at cannot sprout, if
    /// it cannot: there is no such cell, or it is a group.
    pub open spec fn sprout_here_fault(self, line: Line) -> Option<Fault> {
        match cell_at(self.cells, line.path()) {
            None => Some(Fault::NoSuchCell(line)),
            Some(cell) => if cell.content is Some {
                Some(Fault::CannotSproutGroup(line))
            } else {
                None
            },
        }
    }

    /// The layer after the end that a line points at has sprouted: it is a
    /// group of one end, which has the given data and the face of the
    /// group.
    pub open spec fn sprouted_here(self, line: Line, end: Data) -> Layer<Data> {
        let cell = cell_at(self.cells, line.path())->Some_0;
        Layer {
            cells: with_cell(
                self.cells,
                line.path(),
                CellModel {
                    content: Some(
                        Traces::of_values(seq![wrap_cell(end, cell.face.ends, cell.face.fill)]),
                    ),
                    ..cell
                },
            ),
            ..self
        }
    }

    /// The line of the end that a sprout makes in the cell that a line
    /// points at.
    pub open spec fn sprout_end(self, line: Line) -> Line {
        self.line(line.path().push(TimelessIndex { pos: 0 }))
    }

    /// The layer with one replacement of lines for each pair of an old and
    /// a new line, over another stack.
    pub open spec fn relined_over(self, old_lines: Seq<Line>, new_lines: Seq<Line>, prev: Stack<Data>) -> Layer<
        Data,
    > {
        Layer {
            cells: relined_all(self.cells, old_lines, new_lines, old_lines.len() as int),
            prev,
        }
    }
}

impl<Data: Clone> Stack<Data> {
    /// Why the selected cells of the top layer cannot be extruded, if they
    /// cannot.
    pub open spec fn extrude_here_fault(self, picked: Picked, group: Data) -> Option<Fault> {
        match self {
            Stack::Tower(cells) => match tower::extruded(cells, picked, group) {
                Err(e) => Some(e),
                Ok(_) => None,
            },
            Stack::Diagram(layer) => layer.extrude_here_fault(picked),
        }
    }

    /// Whether extruding the selected cells of the top layer may give the
    /// stack `after`, with a new cell at `new` that holds the cells at
    /// `held`.
    pub open spec fn extruded_here(
        self,
        picked: Picked,
        group: Data,
        after: Stack<Data>,
        new: Line,
        held: Seq<Line>,
    ) -> bool {
        match self {
            Stack::Tower(cells) => after is Tower && tower::extruded(cells, picked, group) == Ok::<
                tower::Grown<Data>,
                Fault,
            >((after->Tower_0, new, held)),
            Stack::Diagram(layer) => after is Diagram && layer.extrude_here_fault(picked) is None
                && layer.groups_to(picked.paths(), group, *after->Diagram_0, new, held),
        }
    }

    /// Why the selected cells of the top layer cannot be split off, if
    /// they cannot.
    pub open spec fn split_here_fault(self, picked: Picked, group: Data) -> Option<Fault> {
        match self {
            Stack::Tower(cells) => match tower::split(cells, picked, group) {
                Err(e) => Some(e),
                Ok(_) => None,
            },
            Stack::Diagram(layer) => layer.split_here_fault(picked),
        }
    }

    /// Whether splitting off the selected cells of the top layer may give
    /// the stack `after`, with a new cell at `new` that holds the cells at
    /// `held`.
    pub open spec fn split_here(
        self,
        picked: Picked,
        group: Data,
        after: Stack<Data>,
        new: Line,
        held: Seq<Line>,
    ) -> bool {
        match self {
            Stack::Tower(cells) => after is Tower && tower::split(cells, picked, group) == Ok::<
                tower::Grown<Data>,
                Fault,
            >((after->Tower_0, new, held)),
            Stack::Diagram(layer) => after is Diagram && layer.split_here_fault(picked) is None
                && layer.groups_to(picked.paths(), group, *after->Diagram_0, new, held),
        }
    }

    /// Why the cell of the top layer that a line points at cannot sprout,
    /// if it cannot.
    pub open spec fn sprout_here_fault(self, line: Line, end: Data) -> Option<Fault> {
        match self {
            Stack::Tower(cells) => match tower::sprouted(cells, line, end) {
                Err(e) => Some(e),
                Ok(_) => None,
            },
            Stack::Diagram(layer) => layer.sprout_here_fault(line),
        }
    }

    /// Whether a sprout of the cell of the top layer that a line points at
    /// gives the stack `after`, with the new cell at `new`.
    pub open spec fn sprouted_here(self, line: Line, end: Data, after: Stack<Data>, new: Line) -> bool {
        match self {
            Stack::Tower(cells) => after is Tower && tower::sprouted(cells, line, end) == Ok::<
                (Traces<Data>, Line),
                Fault,
            >((after->Tower_0, new)),
            Stack::Diagram(layer) => after is Diagram && layer.sprout_here_fault(line) is None
                && *after->Diagram_0 == layer.sprouted_here(line, end) && new == layer.sprout_end(
                line,
            ),
        }
    }
}

impl<Data: Clone> Layer<Data> {
    /// Whether extruding the selected cells of the layer beneath may give
    /// the layer `after`: the layer beneath is edited, the lines of this
    /// layer follow the cells that moved into the new one, and a wrap is
    /// added into which the lines of those cells come and out of which
    /// that of the new cell goes.
    pub open spec fn extruded_below(
        self,
        picked: Picked,
        group: Data,
        wrap: Data,
        after: Layer<Data>,
        new: Line,
        held: Seq<Line>,
    ) -> bool {
        let mid = self.relined_over(picked.cells(), held, after.prev);
        &&& self.prev.extruded_here(picked, group, after.prev, new, held)
        &&& after == mid.wrapped(mid.extrusion_place(held), wrap_cell(wrap, held, new))
    }

    /// Why the selected cells of the layer beneath cannot be split off, if
    /// they cannot: no end of this layer has their lines coming in one
    /// after another, or the layer beneath refuses.
    pub open spec fn split_below_fault(self, picked: Picked, group: Data) -> Option<Fault> {
        if find_inputs(self.cells, picked.cells(), 0) is None {
            Some(Fault::NoCellWithInputs(picked.cells()))
        } else {
            self.prev.split_here_fault(picked, group)
        }
    }

    /// Whether splitting off the selected cells of the layer beneath may
    /// give the layer `after`: the layer beneath is edited, the lines of
    /// this layer follow the cells that moved into the new one, and the
    /// end into which their lines came is split by a wrap.
    pub open spec fn split_below(
        self,
        picked: Picked,
        group: Data,
        wrap_top: Data,
        wrap_bot: Data,
        after: Layer<Data>,
        new: Line,
        held: Seq<Line>,
    ) -> bool {
        let mid = self.relined_over(picked.cells(), held, after.prev);
        let found = find_inputs(self.cells, picked.cells(), 0)->Some_0;
        &&& find_inputs(self.cells, picked.cells(), 0) is Some
        &&& self.prev.split_here(picked, group, after.prev, new, held)
        &&& after == (Layer {
            cells: with_cell(
                mid.cells,
                found.0,
                split_cell(
                    cell_at(mid.cells, found.0)->Some_0,
                    found.1,
                    wrap_top,
                    wrap_bot,
                    held,
                    new,
                ),
            ),
            ..mid
        })
    }

    /// The lines of the two wraps that a split beneath makes.
    pub open spec fn split_wraps(self, picked: Picked) -> Seq<Line> {
        let found = find_inputs(self.cells, picked.cells(), 0)->Some_0;
        seq![
            self.line(found.0.push(TimelessIndex { pos: 0 })),
            self.line(found.0.push(TimelessIndex { pos: 1 })),
        ]
    }

    /// Whether a sprout of the cell of the layer beneath that a line
    /// points at gives the layer `after`: the layer beneath is edited, and
    /// a wrap is added into which the line of the new cell comes and out
    /// of which the old line goes.
    pub open spec fn sprouted_below(
        self,
        line: Line,
        end: Data,
        wrap: Data,
        after: Layer<Data>,
        new: Line,
    ) -> bool {
        let mid = self.relined_over(seq![line], seq![line], after.prev);
        &&& self.prev.sprouted_here(line, end, after.prev, new)
        &&& after == mid.wrapped(mid.sprout_place(line), wrap_cell(wrap, seq![new], line))
    }

    /// Whether `res` and `after` may be the result of extruding the
    /// selected cells, which are of this layer or of the one beneath, and
    /// the layer after it.
    pub open spec fn extrude_result(
        self,
        picked: Picked,
        group: Data,
        wrap: Data,
        after: Layer<Data>,
        res: Result<Outcome, Fault>,
    ) -> bool {
        if picked.level() > self.level() {
            res == Err::<Outcome, Fault>(Fault::TooMuchDepth(picked.level() as usize)) && after
                == self
        } else if picked.level() == self.level() {
            match res {
                Ok(done) => done matches Outcome::Here {
                    action: Move::Extrude { group: new, contents: held },
                } && self.extrude_here_fault(picked) is None && self.groups_to(
                    picked.paths(),
                    group,
                    after,
                    new,
                    held,
                ),
                Err(e) => self.extrude_here_fault(picked) == Some(e) && after == self,
            }
        } else {
            match res {
                Ok(done) => done matches Outcome::InPrevious {
                    action: Move::Extrude { group: new, contents: held },
                    wraps,
                } && self.extruded_below(picked, group, wrap, after, new, held) && wraps
                    == seq![self.relined_over(picked.cells(), held, after.prev).next_line()],
                Err(e) => self.prev.extrude_here_fault(picked, group) == Some(e) && after == self,
            }
        }
    }

    /// Whether `res` and `after` may be the result of splitting off the
    /// selected cells, which are of this layer or of the one beneath, and
    /// the layer after it. A split beneath is reported as an extrusion.
    pub open spec fn split_result(
        self,
        picked: Picked,
        group: Data,
        wrap_top: Data,
        wrap_bot: Data,
        after: Layer<Data>,
        res: Result<Outcome, Fault>,
    ) -> bool {
        if picked.level() > self.level() {
            res == Err::<Outcome, Fault>(Fault::TooMuchDepth(picked.level() as usize)) && after
                == self
        } else if picked.level() == self.level() {
            match res {
                Ok(done) => done matches Outcome::Here {
                    action: Move::Split { group: new, contents: held },
                } && self.split_here_fault(picked) is None && self.groups_to(
                    picked.paths(),
                    group,
                    after,
                    new,
                    held,
                ),
                Err(e) => self.split_here_fault(picked) == Some(e) && after == self,
            }
        } else {
            match res {
                Ok(done) => done matches Outcome::InPrevious {
                    action: Move::Extrude { group: new, contents: held },
                    wraps,
                } && self.split_below(picked, group, wrap_top, wrap_bot, after, new, held) && wraps
                    == self.split_wraps(picked),
                Err(e) => self.split_below_fault(picked, group) == Some(e) && after == self,
            }
        }
    }

    /// Whether `res` and `after` may be the result of a sprout of the cell
    /// that a line points at, which is of this layer or of the one beneath,
    /// and the layer after it.
    pub open spec fn sprout_result(
        self,
        line: Line,
        end: Data,
        wrap: Data,
        after: Layer<Data>,
        res: Result<Outcome, Fault>,
    ) -> bool {
        if line.level() > self.level() {
            res == Err::<Outcome, Fault>(Fault::TooMuchDepth(line.level() as usize)) && after
                == self
        } else if line.level() == self.level() {
            match res {
                Ok(done) => done == (Outcome::Here {
                    action: Move::Sprout { group: line, end: self.sprout_end(line) },
                }) && self.sprout_here_fault(line) is None && after == self.sprouted_here(line, end),
                Err(e) => self.sprout_here_fault(line) == Some(e) && after == self,
            }
        } else {
            match res {
                Ok(done) => done matches Outcome::InPrevious {
                    action: Move::Sprout { group: old_end, end: new },
                    wraps,
                } && old_end == line && self.sprouted_below(line, end, wrap, after, new) && wraps
                    == seq![self.relined_over(seq![line], seq![line], after.prev).next_line()],
                Err(e) => self.prev.sprout_here_fault(line, end) == Some(e) && after == self,
            }
        }
    }
}

/// What an edit gave, or why it was refused, as a model.
pub open spec fn told(res: Result<Interaction, Error>) -> Result<Outcome, Fault> {
    match res {
        Ok(done) => Ok(done@),
        Err(e) => Err(e@),
    }
}

impl<Data: Clone> Diagram<Data> {
    /// Groups the selected cells, which must be of this layer and all alive
    /// at its top. Gives the address of the group and those of the cells
    /// in it.
    pub fn extrude_here(&mut self, cells: &Selection, group: Data) -> (res: Result<
        (ViewIndex, Vec<ViewIndex>),
        Error,
    >)
        requires
            old(self).wf(),
            cells.wf(),
            cells@.level() == old(self)@.level(),
        ensures
            final(self).wf(),
            final(self)@.prev == old(self)@.prev,
            match res {
                Ok(made) => old(self)@.extrude_here_fault(cells@) is None && old(self)@.groups_to(
                    cells@.paths(),
                    group,
                    final(self)@,
                    made.0@,
                    lines(made.1@),
                ),
                Err(e) => old(self)@.extrude_here_fault(cells@) == Some(e@)
                    && final(self)@ == old(self)@,
            },
    {
        match self.is_at_bottom(cells) {
            Ok(true) => {},
            _ => {
                return Err(Error::CannotExtrudeNestedCells(cells.clone()));
            },
        }
        let paths = cells.as_paths();
        assert(paths_of(paths@) =~= cells@.paths());
        self.group(&paths, group)
    }

    /// Groups the selected cells, which must be of this layer and not all
    /// alive at its top. Gives the address of the group and those of the
    /// cells in it.
    pub fn split_here(&mut self, cells: &Selection, group: Data) -> (res: Result<
        (ViewIndex, Vec<ViewIndex>),
        Error,
    >)
        requires
            old(self).wf(),
            cells.wf(),
            cells@.level() == old(self)@.level(),
        ensures
            final(self).wf(),
            final(self)@.prev == old(self)@.prev,
            match res {
                Ok(made) => old(self)@.split_here_fault(cells@) is None && old(self)@.groups_to(
                    cells@.paths(),
                    group,
                    final(self)@,
                    made.0@,
                    lines(made.1@),
                ),
                Err(e) => old(self)@.split_here_fault(cells@) == Some(e@)
                    && final(self)@ == old(self)@,
            },
    {
        match self.is_at_bottom(cells) {
            Ok(false) => {},
            _ => {
                return Err(Error::CannotSplitBoundaryCells(cells.clone()));
            },
        }
        let paths = cells.as_paths();
        assert(paths_of(paths@) =~= cells@.paths());
        self.group(&paths, group)
    }

    /// Extrudes the selected cells of the layer beneath and wraps the new
    /// cell.
    fn extrude_below(&mut self, cells: &Selection, group: Data, wrap: Data) -> (res: Result<
        Interaction,
        Error,
    >)
        requires
            old(self).wf(),
            cells.wf(),
            cells@.level() + 1 == old(self)@.level(),
        ensures
            final(self).wf(),
            final(self)@.level() == old(self)@.level(),
            old(self)@.extrude_result(cells@, group, wrap, final(self)@, told(res)),
    {
        let old_lines = cells.as_cells();
        match self.prev.extrude_here(cells, group) {
            Err(e) => Err(e),
            Ok((fill, ends)) => {
                proof {
                    old(self)@.prev.lemma_extruded_here(cells@, group, self@.prev, fill@, lines(ends@));
                }
                self.replace_lines(&old_lines, &ends);
                let wraps = Self::one(self.wrap_extrusion(wrap, &ends, fill.clone()));
                Ok(
                    Interaction::InPrevious {
                        action: Action::Extrude { group: fill, contents: ends },
                        wraps,
                    },
                )
            },
        }
    }

    /// Splits off the selected cells of the layer beneath and splits the
    /// end into which their lines come by a wrap.
    fn split_below(
        &mut self,
        cells: &Selection,
        group: Data,
        wrap_top: Data,
        wrap_bot: Data,
    ) -> (res: Result<Interaction, Error>)
        requires
            old(self).wf(),
            cells.wf(),
            cells@.level() + 1 == old(self)@.level(),
        ensures
            final(self).wf(),
            final(self)@.level() == old(self)@.level(),
            old(self)@.split_result(cells@, group, wrap_top, wrap_bot, final(self)@, told(res)),
    {
        let old_lines = cells.as_cells();
        let (path, at) = match find_with_inputs(&self.cells, &old_lines) {
            None => {
                return Err(Error::NoCellWithInputs(old_lines));
            },
            Some(found) => found,
        };
        proof {
            lemma_find_inputs(self@.cells, lines(old_lines@), 0);
        }
        match self.prev.split_here(cells, group) {
            Err(e) => Err(e),
            Ok((fill, ends)) => {
                proof {
                    old(self)@.prev.lemma_split_here(cells@, group, self@.prev, fill@, lines(ends@));
                    lemma_relined_all_cell(
                        old(self)@.cells,
                        lines(old_lines@),
                        lines(ends@),
                        old_lines@.len() as int,
                        path@,
                    );
                }
                self.replace_lines(&old_lines, &ends);
                let wraps = self.wrap_split(&path, at, wrap_top, wrap_bot, &ends, fill.clone());
                Ok(
                    Interaction::InPrevious {
                        action: Action::Extrude { group: fill, contents: ends },
                        wraps,
                    },
                )
            },
        }
    }

    /// Extrudes the selected cells: groups them and, where they are of the
    /// layer beneath, wraps the group. Where they lie deeper, the edit is
    /// made on a copy of the stack up to the layer above theirs, which is
    /// handed back, and this stack is left as it is.
    pub fn extrude(&mut self, cells: &Selection, group: Data, wrap: Data) -> (res: EditResult<
        Interaction,
        Data,
    >)
        requires
            old(self).wf(),
            cells.wf(),
        ensures
            final(self).wf(),
            final(self)@.level() == old(self)@.level(),
            if cells@.level() + 1 >= old(self)@.level() {
                !(res is OkCopied) && old(self)@.extrude_result(
                    cells@,
                    group,
                    wrap,
                    final(self)@,
                    told(res.outcome()),
                )
            } else {
                final(self)@ == old(self)@ && !(res is Done) && exists|base: Layer<Data>|
                    #![trigger base.stack()]
                    base.stack().clone_of(
                        old(self)@.stack().below((cells@.level() + 1) as nat),
                    ) && base.extrude_result(
                        cells@,
                        group,
                        wrap,
                        match res {
                            EditResult::OkCopied { copy, .. } => *copy@->Diagram_0,
                            _ => base,
                        },
                        told(res.outcome()),
                    ) && (res matches EditResult::OkCopied { copy, .. } ==> copy@ is Diagram
                        && copy.wf())
            },
            old(self)@.stack().sound() ==> final(self)@.stack().sound()
                && (res matches EditResult::OkCopied {
                copy,
                ..
            } ==> copy@.sound()),
    {
        let ghost before = self@;
        let ghost given = (group, wrap);
        let own = self.level();
        let res = if cells.above_level(own) {
            EditResult::Failed(Error::TooMuchDepth(cells.level()))
        } else if cells.at_level(own) {
            match self.extrude_here(cells, group) {
                Ok((group, contents)) => EditResult::Done(
                    Interaction::Here { action: Action::Extrude { group, contents } },
                ),
                Err(e) => EditResult::Failed(e),
            }
        } else if cells.at_level(own - 1) {
            match self.extrude_below(cells, group, wrap) {
                Ok(done) => EditResult::Done(done),
                Err(e) => EditResult::Failed(e),
            }
        } else {
            let target = cells.level() + 1;
            match self.deep_copy(target) {
                Ok(Tail::Diagram(boxed)) => {
                    let mut copy = *boxed;
                    let ghost base = copy@;
                    assert(base.stack().clone_of(old(self)@.stack().below(target as nat)));
                    proof {
                        lemma_stack_clone(base.stack(), old(self)@.stack().below(target as nat));
                    }
                    match copy.extrude_below(cells, group, wrap) {
                        Ok(result) => {
                            let copy = Tail::Diagram(Box::new(copy));
                            assert(*copy@->Diagram_0 == copy@->Diagram_0.stack()->Diagram_0);
                            EditResult::OkCopied { result, copy }
                        },
                        Err(e) => EditResult::Failed(e),
                    }
                },
                _ => {
                    proof {
                        assert(false);
                    }
                    EditResult::Failed(Error::TooMuchDepth(target))
                },
            }
        };
        proof {
            if before.stack().sound() {
                let target = (cells@.level() + 1) as nat;
                if res is Done {
                    let done = res->Done_0;
                    before.lemma_extrude_keeps_lines(cells@, given.0, given.1, self@, done@);
                } else if res is OkCopied {
                    let result = res->result;
                    let copy = res->copy;
                    let after = *copy@->Diagram_0;
                    let base = choose|base: Layer<Data>|
                        #![trigger base.stack()]
                        base.stack().clone_of(before.stack().below(target))
                            && base.extrude_result(
                            cells@,
                            given.0,
                            given.1,
                            after,
                            told(res.outcome()),
                        );
                    before.stack().lemma_below(target);
                    before.stack().lemma_below_sound(target);
                    lemma_stack_clone(base.stack(), before.stack().below(target));
                    base.stack().lemma_clone_sound(before.stack().below(target));
                    base.lemma_extrude_keeps_lines(cells@, given.0, given.1, after, result@);
                }
            }
        }
        res
    }

    /// Splits off the selected cells: groups them and, where they are of
    /// the layer beneath, splits the end into which their lines come.
    /// Where they lie deeper, the edit is made on a copy of the stack up
    /// to the layer above theirs, which is handed back, and this stack is
    /// left as it is.
    pub fn split(&mut self, cells: &Selection, group: Data, wrap_top: Data, wrap_bot: Data) -> (res:
        EditResult<Interaction, Data>)
        requires
            old(self).wf(),
            cells.wf(),
        ensures
            final(self).wf(),
            final(self)@.level() == old(self)@.level(),
            if cells@.level() + 1 >= old(self)@.level() {
                !(res is OkCopied) && old(self)@.split_result(
                    cells@,
                    group,
                    wrap_top,
                    wrap_bot,
                    final(self)@,
                    told(res.outcome()),
                )
            } else {
                final(self)@ == old(self)@ && !(res is Done) && exists|base: Layer<Data>|
                    #![trigger base.stack()]
                    base.stack().clone_of(
                        old(self)@.stack().below((cells@.level() + 1) as nat),
                    ) && base.split_result(
                        cells@,
                        group,
                        wrap_top,
                        wrap_bot,
                        match res {
                            EditResult::OkCopied { copy, .. } => *copy@->Diagram_0,
                            _ => base,
                        },
                        told(res.outcome()),
                    ) && (res matches EditResult::OkCopied { copy, .. } ==> copy@ is Diagram
                        && copy.wf())
            },
            old(self)@.stack().sound() ==> final(self)@.stack().sound()
                && (res matches EditResult::OkCopied {
                copy,
                ..
            } ==> copy@.sound()),
    {
        let ghost before = self@;
        let ghost given = (group, wrap_top, wrap_bot);
        let own = self.level();
        let res = if cells.above_level(own) {
            EditResult::Failed(Error::TooMuchDepth(cells.level()))
        } else if cells.at_level(own) {
            match self.split_here(cells, group) {
                Ok((group, contents)) => EditResult::Done(
                    Interaction::Here { action: Action::Split { group, contents } },
                ),
                Err(e) => EditResult::Failed(e),
            }
        } else if cells.at_level(own - 1) {
            match self.split_below(cells, group, wrap_top, wrap_bot) {
                Ok(done) => EditResult::Done(done),
                Err(e) => EditResult::Failed(e),
            }
        } else {
            let target = cells.level() + 1;
            match self.deep_copy(target) {
                Ok(Tail::Diagram(boxed)) => {
                    let mut copy = *boxed;
                    let ghost base = copy@;
                    assert(base.stack().clone_of(old(self)@.stack().below(target as nat)));
                    proof {
                        lemma_stack_clone(base.stack(), old(self)@.stack().below(target as nat));
                    }
                    match copy.split_below(cells, group, wrap_top, wrap_bot) {
                        Ok(result) => {
                            let copy = Tail::Diagram(Box::new(copy));
                            assert(*copy@->Diagram_0 == copy@->Diagram_0.stack()->Diagram_0);
                            EditResult::OkCopied { result, copy }
                        },
                        Err(e) => EditResult::Failed(e),
                    }
                },
                _ => {
                    proof {
                        assert(false);
                    }
                    EditResult::Failed(Error::TooMuchDepth(target))
                },
            }
        };
        proof {
            if before.stack().sound() {
                let target = (cells@.level() + 1) as nat;
                if res is Done {
                    let done = res->Done_0;
                    before.lemma_split_keeps_lines(cells@, given.0, given.1, given.2, self@, done@);
                } else if res is OkCopied {
                    let result = res->result;
                    let copy = res->copy;
                    let after = *copy@->Diagram_0;
                    let base = choose|base: Layer<Data>|
                        #![trigger base.stack()]
                        base.stack().clone_of(before.stack().below(target))
                            && base.split_result(
                            cells@,
                            given.0,
                            given.1,
                            given.2,
                            after,
                            told(res.outcome()),
                        );
                    before.stack().lemma_below(target);
                    before.stack().lemma_below_sound(target);
                    lemma_stack_clone(base.stack(), before.stack().below(target));
                    base.stack().lemma_clone_sound(before.stack().below(target));
                    base.lemma_split_keeps_lines(cells@, given.0, given.1, given.2, after, result@);
                }
            }
        }
        res
    }
}

impl<Data> Diagram<Data> {
    fn one(index: ViewIndex) -> (all: Vec<ViewIndex>)
        ensures
            all@.len() == 1,
            lines(all@) == seq![index@],
    {
        let mut all: Vec<ViewIndex> = Vec::new();
        all.push(index);
        assert(lines(all@) =~= seq![index@]);
        all
    }

    /// Turns the end that the address names, which must be of this layer,
    /// into a group of one end with the given data and the same face.
    /// Gives the address of the new end.
    pub fn sprout_here(&mut self, index: &ViewIndex, end: Data) -> (res: Result<ViewIndex, Error>)
        requires
            old(self).wf(),
            index@.level() == old(self)@.level(),
        ensures
            final(self).wf(),
            final(self)@.prev == old(self)@.prev,
            match res {
                Ok(new) => old(self)@.sprout_here_fault(index@) is None
                    && final(self)@ == old(self)@.sprouted_here(index@, end)
                    && new@ == old(self)@.sprout_end(index@),
                Err(e) => old(self)@.sprout_here_fault(index@) == Some(e@)
                    && final(self)@ == old(self)@,
            },
    {
        let level = self.level() - 1;
        let mut path = index.path();
        assert(path@.skip(0) =~= path@);
        match cell_mut(&mut self.cells, &path, 0) {
            None => {
                return Err(Error::NoSuchCell(index.clone()));
            },
            Some(cell) => {
                if cell.content.is_some() {
                    proof {
                        super::space::lemma_with_same_cell(old(self)@.cells, path@);
                    }
                    return Err(Error::CannotSproutGroup(index.clone()));
                }
                let inner = Cell::end(end, cell.meta.face.clone());
                let mut all: Vec<Cell<Data>> = Vec::new();
                all.push(inner);
                let content = TracingVec::from_vec(all);
                proof {
                    lemma_model_is_map(content);
                    Traces::lemma_map_of_values(all@, modeller());
                    assert(Seq::new(all@.len(), |i: int| modeller()(all@[i])) =~= seq![inner.model()]);
                    assert forall|i: int| 0 <= i < content@.store.len() implies (
                    #[trigger] content@.store[i]).model().wf() by {}
                    lemma_wf_space(content);
                }
                cell.content = Some(content);
            },
        }
        path.push(TimelessIndex { pos: 0 });
        Ok(ViewIndex::Leveled { level, path })
    }

}

impl<Data: Clone> Diagram<Data> {
    /// Sprouts the cell of the layer beneath that the address names and
    /// wraps the new cell.
    fn sprout_below(&mut self, index: &ViewIndex, end: Data, wrap: Data) -> (res: Result<
        Interaction,
        Error,
    >)
        requires
            old(self).wf(),
            index.wf(),
            index@.level() + 1 == old(self)@.level(),
        ensures
            final(self).wf(),
            final(self)@.level() == old(self)@.level(),
            old(self)@.sprout_result(index@, end, wrap, final(self)@, told(res)),
    {
        match self.prev.sprout_here(index, end) {
            Err(e) => Err(e),
            Ok(new) => {
                let old_lines = Self::one(index.clone());
                let new_lines = Self::one(index.clone());
                self.replace_lines(&old_lines, &new_lines);
                let wraps = Self::one(self.wrap_sprout(wrap, index, new.clone()));
                Ok(
                    Interaction::InPrevious {
                        action: Action::Sprout { group: index.clone(), end: new },
                        wraps,
                    },
                )
            },
        }
    }

    /// Sprouts the end that the address names: it becomes a group of one
    /// new end and, where it is of the layer beneath, the new end is
    /// wrapped. Where it lies deeper, the edit is made on a copy of the
    /// stack up to the layer above it, which is handed back, and this
    /// stack is left as it is.
    pub fn sprout(&mut self, index: &ViewIndex, end: Data, wrap: Data) -> (res: EditResult<
        Interaction,
        Data,
    >)
        requires
            old(self).wf(),
            index.wf(),
        ensures
            final(self).wf(),
            final(self)@.level() == old(self)@.level(),
            if index@.level() + 1 >= old(self)@.level() {
                !(res is OkCopied) && old(self)@.sprout_result(
                    index@,
                    end,
                    wrap,
                    final(self)@,
                    told(res.outcome()),
                )
            } else {
                final(self)@ == old(self)@ && !(res is Done) && exists|base: Layer<Data>|
                    #![trigger base.stack()]
                    base.stack().clone_of(
                        old(self)@.stack().below((index@.level() + 1) as nat),
                    ) && base.sprout_result(
                        index@,
                        end,
                        wrap,
                        match res {
                            EditResult::OkCopied { copy, .. } => *copy@->Diagram_0,
                            _ => base,
                        },
                        told(res.outcome()),
                    ) && (res matches EditResult::OkCopied { copy, .. } ==> copy@ is Diagram
                        && copy.wf())
            },
            old(self)@.stack().sound() ==> final(self)@.stack().sound()
                && (res matches EditResult::OkCopied {
                copy,
                ..
            } ==> copy@.sound()),
    {
        let ghost before = self@;
        let ghost given = (end, wrap);
        let own = self.level();
        let res = if index.above_level(own) {
            EditResult::Failed(Error::TooMuchDepth(index.level()))
        } else if index.at_level(own) {
            match self.sprout_here(index, end) {
                Ok(new) => EditResult::Done(
                    Interaction::Here { action: Action::Sprout { group: index.clone(), end: new } },
                ),
                Err(e) => EditResult::Failed(e),
            }
        } else if index.at_level(own - 1) {
            match self.sprout_below(index, end, wrap) {
                Ok(done) => EditResult::Done(done),
                Err(e) => EditResult::Failed(e),
            }
        } else {
            let target = index.level() + 1;
            match self.deep_copy(target) {
                Ok(Tail::Diagram(boxed)) => {
                    let mut copy = *boxed;
                    let ghost base = copy@;
                    assert(base.stack().clone_of(old(self)@.stack().below(target as nat)));
                    proof {
                        lemma_stack_clone(base.stack(), old(self)@.stack().below(target as nat));
                    }
                    match copy.sprout_below(index, end, wrap) {
                        Ok(result) => {
                            let copy = Tail::Diagram(Box::new(copy));
                            assert(*copy@->Diagram_0 == copy@->Diagram_0.stack()->Diagram_0);
                            EditResult::OkCopied { result, copy }
                        },
                        Err(e) => EditResult::Failed(e),
                    }
                },
                _ => {
                    proof {
                        assert(false);
                    }
                    EditResult::Failed(Error::TooMuchDepth(target))
                },
            }
        };
        proof {
            if before.stack().sound() {
                let target = (index@.level() + 1) as nat;
                if res is Done {
                    let done = res->Done_0;
                    before.lemma_sprout_keeps_lines(index@, given.0, given.1, self@, done@);
                } else if res is OkCopied {
                    let result = res->result;
                    let copy = res->copy;
                    let after = *copy@->Diagram_0;
                    let base = choose|base: Layer<Data>|
                        #![trigger base.stack()]
                        base.stack().clone_of(before.stack().below(target))
                            && base.sprout_result(
                            index@,
                            given.0,
                            given.1,
                            after,
                            told(res.outcome()),
                        );
                    before.stack().lemma_below(target);
                    before.stack().lemma_below_sound(target);
                    lemma_stack_clone(base.stack(), before.stack().below(target));
                    base.stack().lemma_clone_sound(before.stack().below(target));
                    base.lemma_sprout_keeps_lines(index@, given.0, given.1, after, result@);
                }
            }
        }
        res
    }
}

impl<Data: Clone> Stack<Data> {
    /// An extrusion at the top of a stack keeps its level and, if it was
    /// valid, its validity, and holds one cell at least.
    pub proof fn lemma_extruded_here(
        self,
        picked: Picked,
        group: Data,
        after: Stack<Data>,
        new: Line,
        held: Seq<Line>,
    )
        requires
            self.extruded_here(picked, group, after, new, held),
        ensures
            held.len() == picked.cells().len(),
            held.len() > 0,
    {
        match self {
            Stack::Tower(cells) => {},
            Stack::Diagram(layer) => {},
        }
    }

    /// A split at the top of a stack holds as many cells as were selected,
    /// one at least.
    pub proof fn lemma_split_here(
        self,
        picked: Picked,
        group: Data,
        after: Stack<Data>,
        new: Line,
        held: Seq<Line>,
    )
        requires
            self.split_here(picked, group, after, new, held),
        ensures
            held.len() == picked.cells().len(),
            held.len() > 0,
    {
        match self {
            Stack::Tower(cells) => {},
            Stack::Diagram(layer) => {},
        }
    }
}

impl<Data: Clone> Tail<Data> {
    /// Extrudes the selected cells, which must be of the top layer. Gives
    /// the address of the new cell and those of the cells that it holds.
    pub fn extrude_here(&mut self, cells: &Selection, group: Data) -> (res: Result<
        (ViewIndex, Vec<ViewIndex>),
        Error,
    >)
        requires
            old(self).wf(),
            cells.wf(),
            cells@.level() == old(self)@.level(),
        ensures
            final(self).wf(),
            final(self)@.level() == old(self)@.level(),
            match res {
                Ok(made) => old(self)@.extruded_here(
                    cells@,
                    group,
                    final(self)@,
                    made.0@,
                    lines(made.1@),
                ),
                Err(e) => old(self)@.extrude_here_fault(cells@, group) == Some(e@) && final(self)@
                    == old(self)@,
            },
    {
        match self {
            Tail::Tower(tower) => tower.extrude_here(cells, group),
            Tail::Diagram(diagram) => diagram.extrude_here(cells, group),
        }
    }

    /// Splits off the selected cells, which must be of the top layer.
    /// Gives the address of the new cell and those of the cells that it
    /// holds.
    pub fn split_here(&mut self, cells: &Selection, group: Data) -> (res: Result<
        (ViewIndex, Vec<ViewIndex>),
        Error,
    >)
        requires
            old(self).wf(),
            cells.wf(),
            cells@.level() == old(self)@.level(),
        ensures
            final(self).wf(),
            final(self)@.level() == old(self)@.level(),
            match res {
                Ok(made) => old(self)@.split_here(
                    cells@,
                    group,
                    final(self)@,
                    made.0@,
                    lines(made.1@),
                ),
                Err(e) => old(self)@.split_here_fault(cells@, group) == Some(e@) && final(self)@
                    == old(self)@,
            },
    {
        match self {
            Tail::Tower(tower) => tower.split_here(cells, group),
            Tail::Diagram(diagram) => diagram.split_here(cells, group),
        }
    }

    /// Sprouts the cell that the address names, which must be of the top
    /// layer. Gives the address of the new cell.
    pub fn sprout_here(&mut self, index: &ViewIndex, end: Data) -> (res: Result<ViewIndex, Error>)
        requires
            old(self).wf(),
            index.wf(),
            index@.level() == old(self)@.level(),
        ensures
            final(self).wf(),
            final(self)@.level() == old(self)@.level(),
            match res {
                Ok(new) => old(self)@.sprouted_here(index@, end, final(self)@, new@),
                Err(e) => old(self)@.sprout_here_fault(index@, end) == Some(e@) && final(self)@
                    == old(self)@,
            },
    {
        match self {
            Tail::Tower(tower) => tower.sprout_here(index, end),
            Tail::Diagram(diagram) => diagram.sprout_here(index, end),
        }
    }
}

impl<Data: Clone> Stack<Data> {
    /// Whether `res` and `after` may be the result of extruding the
    /// selected cells, which are of the top layer or of the one beneath,
    /// and the stack after it.
    pub open spec fn extrude_result(
        self,
        picked: Picked,
        group: Data,
        wrap: Data,
        after: Stack<Data>,
        res: Result<Outcome, Fault>,
    ) -> bool {
        match self {
            Stack::Tower(cells) => after is Tower && match res {
                Ok(done) => done matches Outcome::Here {
                    action: Move::Extrude { group: new, contents: held },
                } && tower::extruded(cells, picked, group) == Ok::<tower::Grown<Data>, Fault>(
                    (after->Tower_0, new, held),
                ),
                Err(e) => tower::extruded(cells, picked, group) == Err::<
                    tower::Grown<Data>,
                    Fault,
                >(e) && after == self,
            },
            Stack::Diagram(layer) => after is Diagram && layer.extrude_result(
                picked,
                group,
                wrap,
                *after->Diagram_0,
                res,
            ),
        }
    }

    /// Whether `res` and `after` may be the result of splitting off the
    /// selected cells, which are of the top layer or of the one beneath,
    /// and the stack after it.
    pub open spec fn split_result(
        self,
        picked: Picked,
        group: Data,
        wrap_top: Data,
        wrap_bot: Data,
        after: Stack<Data>,
        res: Result<Outcome, Fault>,
    ) -> bool {
        match self {
            Stack::Tower(cells) => after is Tower && match res {
                Ok(done) => done matches Outcome::Here {
                    action: Move::Split { group: new, contents: held },
                } && tower::split(cells, picked, group) == Ok::<tower::Grown<Data>, Fault>(
                    (after->Tower_0, new, held),
                ),
                Err(e) => tower::split(cells, picked, group) == Err::<tower::Grown<Data>, Fault>(
                    e,
                ) && after == self,
            },
            Stack::Diagram(layer) => after is Diagram && layer.split_result(
                picked,
                group,
                wrap_top,
                wrap_bot,
                *after->Diagram_0,
                res,
            ),
        }
    }

    /// Whether `res` and `after` may be the result of a sprout of the cell
    /// that a line points at, which is of the top layer or of the one
    /// beneath, and the stack after it.
    pub open spec fn sprout_result(
        self,
        line: Line,
        end: Data,
        wrap: Data,
        after: Stack<Data>,
        res: Result<Outcome, Fault>,
    ) -> bool {
        match self {
            Stack::Tower(cells) => after is Tower && match res {
                Ok(done) => done matches Outcome::Here {
                    action: Move::Sprout { group: old_end, end: new },
                } && old_end == line && tower::sprouted(cells, line, end) == Ok::<
                    (Traces<Data>, Line),
                    Fault,
                >((after->Tower_0, new)),
                Err(e) => tower::sprouted(cells, line, end) == Err::<(Traces<Data>, Line), Fault>(
                    e,
                ) && after == self,
            },
            Stack::Diagram(layer) => after is Diagram && layer.sprout_result(
                line,
                end,
                wrap,
                *after->Diagram_0,
                res,
            ),
        }
    }
}

impl<Data: Clone> Tail<Data> {
    /// Extrudes the selected cells. Where they lie deeper than the layer
    /// beneath the top, the edit is made on a copy of the stack up to the
    /// layer above theirs, which is handed back, and this stack is left as
    /// it is.
    pub fn extrude(&mut self, cells: &Selection, group: Data, wrap: Data) -> (res: EditResult<
        Interaction,
        Data,
    >)
        requires
            old(self).wf(),
            cells.wf(),
        ensures
            final(self).wf(),
            final(self)@.level() == old(self)@.level(),
            if cells@.level() + 1 >= old(self)@.level() {
                !(res is OkCopied) && old(self)@.extrude_result(
                    cells@,
                    group,
                    wrap,
                    final(self)@,
                    told(res.outcome()),
                )
            } else {
                final(self)@ == old(self)@ && !(res is Done) && exists|base: Layer<Data>|
                    #![trigger base.stack()]
                    base.stack().clone_of(old(self)@.below((cells@.level() + 1) as nat))
                        && base.extrude_result(
                        cells@,
                        group,
                        wrap,
                        match res {
                            EditResult::OkCopied { copy, .. } => *copy@->Diagram_0,
                            _ => base,
                        },
                        told(res.outcome()),
                    ) && (res matches EditResult::OkCopied { copy, .. } ==> copy@ is Diagram
                        && copy.wf())
            },
            old(self)@.sound() ==> final(self)@.sound() && (res matches EditResult::OkCopied {
                copy,
                ..
            } ==> copy@.sound()),
    {
        match self {
            Tail::Tower(tower) => tower.extrude(cells, group, wrap),
            Tail::Diagram(diagram) => diagram.extrude(cells, group, wrap),
        }
    }

    /// Splits off the selected cells. Where they lie deeper than the layer
    /// beneath the top, the edit is made on a copy of the stack up to the
    /// layer above theirs, which is handed back, and this stack is left as
    /// it is.
    pub fn split(&mut self, cells: &Selection, group: Data, wrap_top: Data, wrap_bot: Data) -> (res:
        EditResult<Interaction, Data>)
        requires
            old(self).wf(),
            cells.wf(),
        ensures
            final(self).wf(),
            final(self)@.level() == old(self)@.level(),
            if cells@.level() + 1 >= old(self)@.level() {
                !(res is OkCopied) && old(self)@.split_result(
                    cells@,
                    group,
                    wrap_top,
                    wrap_bot,
                    final(self)@,
                    told(res.outcome()),
                )
            } else {
                final(self)@ == old(self)@ && !(res is Done) && exists|base: Layer<Data>|
                    #![trigger base.stack()]
                    base.stack().clone_of(old(self)@.below((cells@.level() + 1) as nat))
                        && base.split_result(
                        cells@,
                        group,
                        wrap_top,
                        wrap_bot,
                        match res {
                            EditResult::OkCopied { copy, .. } => *copy@->Diagram_0,
                            _ => base,
                        },
                        told(res.outcome()),
                    ) && (res matches EditResult::OkCopied { copy, .. } ==> copy@ is Diagram
                        && copy.wf())
            },
            old(self)@.sound() ==> final(self)@.sound() && (res matches EditResult::OkCopied {
                copy,
                ..
            } ==> copy@.sound()),
    {
        match self {
            Tail::Tower(tower) => tower.split(cells, group, wrap_top, wrap_bot),
            Tail::Diagram(diagram) => diagram.split(cells, group, wrap_top, wrap_bot),
        }
    }

    /// Sprouts the cell that the address names. Where it lies deeper than
    /// the layer beneath the top, the edit is made on a copy of the stack
    /// up to the layer above it, which is handed back, and this stack is
    /// left as it is.
    pub fn sprout(&mut self, index: &ViewIndex, end: Data, wrap: Data) -> (res: EditResult<
        Interaction,
        Data,
    >)
        requires
            old(self).wf(),
            index.wf(),
        ensures
            final(self).wf(),
            final(self)@.level() == old(self)@.level(),
            if index@.level() + 1 >= old(self)@.level() {
                !(res is OkCopied) && old(self)@.sprout_result(
                    index@,
                    end,
                    wrap,
                    final(self)@,
                    told(res.outcome()),
                )
            } else {
                final(self)@ == old(self)@ && !(res is Done) && exists|base: Layer<Data>|
                    #![trigger base.stack()]
                    base.stack().clone_of(old(self)@.below((index@.level() + 1) as nat))
                        && base.sprout_result(
                        index@,
                        end,
                        wrap,
                        match res {
                            EditResult::OkCopied { copy, .. } => *copy@->Diagram_0,
                            _ => base,
                        },
                        told(res.outcome()),
                    ) && (res matches EditResult::OkCopied { copy, .. } ==> copy@ is Diagram
                        && copy.wf())
            },
            old(self)@.sound() ==> final(self)@.sound() && (res matches EditResult::OkCopied {
                copy,
                ..
            } ==> copy@.sound()),
    {
        match self {
            Tail::Tower(tower) => tower.sprout(index, end, wrap),
            Tail::Diagram(diagram) => diagram.sprout(index, end, wrap),
        }
    }
}

impl<Data> Layer<Data> {
    /// The layer with no cells over a stack.
    pub open spec fn over(prev: Stack<Data>) -> Layer<Data> {
        Layer { cells: Traces::of_values(Seq::empty()), prev }
    }

    /// The layer with a wrap for each of the first `n` of some cells given
    /// by data and face, added one after another as the wrap of an
    /// extrusion is.
    pub open spec fn with_wraps(self, wraps: Seq<MetaCell<Data>>, n: int) -> Layer<Data>
        decreases n,
    {
        if n <= 0 {
            self
        } else {
            let before = self.with_wraps(wraps, n - 1);
            let face = wraps[n - 1].face@;
            before.wrapped(
                before.extrusion_place(face.ends),
                wrap_cell(wraps[n - 1].data, face.ends, face.fill),
            )
        }
    }
}

impl<Data> Diagram<Data> {
    /// Starts the next layer: a diagram over this one, with one wrap for
    /// each of the given cells, each with one line coming in at least.
    /// Refused only where the level of the new layer would not fit a
    /// machine word.
    pub fn into_next(self, wraps: Vec<MetaCell<Data>>) -> (res: Result<Diagram<Data>, Error>)
        requires
            self.wf(),
            forall|i: int| 0 <= i < wraps@.len() ==> (#[trigger] wraps@[i]).face.ends@.len() > 0,
        ensures
            match res {
                Ok(next) => next.wf() && self@.level() < usize::MAX && next@ == Layer::over(
                    self@.stack(),
                ).with_wraps(wraps@, wraps@.len() as int),
                Err(e) => self@.level() == usize::MAX && e@ == Fault::TooMuchDepth(usize::MAX),
            },
            res is Ok && self@.stack().sound() && (forall|i: int|
                0 <= i < wraps@.len() ==> face_resolves(self@.stack(), (#[trigger] wraps@[i]).face@))
                ==> res->Ok_0@.stack().sound(),
    {
        proof {
            if self@.stack().sound() && (forall|i: int|
                0 <= i < wraps@.len() ==> face_resolves(
                    self@.stack(),
                    (#[trigger] wraps@[i]).face@,
                )) {
                Layer::over(self@.stack()).lemma_with_wraps_sound(wraps@, wraps@.len() as int);
            }
        }
        let ghost base = Layer::over(self@.stack());
        let mut next = match Diagram::new(Tail::Diagram(Box::new(self))) {
            Ok(next) => next,
            Err(e) => {
                return Err(e);
            },
        };
        for wrap in it: wraps
            invariant
                it.seq() == wraps@,
                next.wf(),
                next@ == base.with_wraps(wraps@, it.index() as int),
                forall|i: int| 0 <= i < wraps@.len() ==> (#[trigger] wraps@[i]).face.ends@.len() > 0,
        {
            assert(wrap == wraps@[it.index() as int]);
            let MetaCell { data, face } = wrap;
            let Face { ends, fill } = face;
            next.wrap_extrusion(data, &ends, fill);
        }
        Ok(next)
    }
}

} // verus!
