//! Grouping: several cells that form a tree become the content of one new
//! cell.

use super::space::{
    cell_at, lemma_cell_at_wf, lemma_cell_in_space, lemma_model_is_map, lemma_space_wf,
    lemma_wf_space, lemma_with_same_space, modeller, space_at, space_mut, space_ref, with_space,
};
use super::{cells_wf, space_model, Boundary, Cell, CellModel, Diagram, Face, MetaCell};
use crate::model::tracing_vec::{IndexError, TimelessIndex, Traces, TracingIndex, TracingVec};
use crate::opetope::viewing::{copy_path, holds_line, lines, starts_with, Line, ViewIndex};
use crate::opetope::{Error, Fault, Layer};
use vstd::prelude::*;

verus! {

/// The paths that a list of vectors says.
pub open spec fn paths_of(cells: Seq<Vec<TimelessIndex>>) -> Seq<Seq<TimelessIndex>> {
    Seq::new(cells.len(), |i: int| cells[i]@)
}

/// Whether no path is empty and all lead to cells of one parent.
pub open spec fn shared_parent(paths: Seq<Seq<TimelessIndex>>) -> bool {
    forall|i: int|
        0 <= i < paths.len() ==> (#[trigger] paths[i]).len() > 0 && paths[i].drop_last()
            == paths[0].drop_last()
}

/// The last slot of each path.
pub open spec fn heads(paths: Seq<Seq<TimelessIndex>>) -> Seq<TimelessIndex> {
    Seq::new(paths.len(), |i: int| paths[i].last())
}

/// The last slot of each path, as an index into the space of the parent.
pub open spec fn head_indices(paths: Seq<Seq<TimelessIndex>>) -> Seq<TracingIndex> {
    Seq::new(paths.len(), |i: int| TracingIndex::Timeless(paths[i].last()))
}

/// The last slot of each path, as a number.
pub open spec fn head_slots(paths: Seq<Seq<TimelessIndex>>) -> Seq<usize> {
    Seq::new(paths.len(), |i: int| paths[i].last().pos)
}

/// Whether every path leads to a cell.
pub open spec fn all_found<Data>(space: Traces<CellModel<Data>>, paths: Seq<Seq<TimelessIndex>>) -> bool {
    forall|i: int| 0 <= i < paths.len() ==> cell_at(space, #[trigger] paths[i]) is Some
}

/// The first path that leads to no cell.
pub open spec fn first_lost<Data>(space: Traces<CellModel<Data>>, paths: Seq<Seq<TimelessIndex>>) -> int {
    choose|i: int|
        0 <= i < paths.len() && cell_at(space, #[trigger] paths[i]) is None && all_found(
            space,
            paths.take(i),
        )
}

/// The cell that each path leads to.
pub open spec fn members<Data>(space: Traces<CellModel<Data>>, paths: Seq<Seq<TimelessIndex>>) -> Seq<
    CellModel<Data>,
> {
    Seq::new(paths.len(), |i: int| cell_at(space, paths[i])->Some_0)
}

/// All the lines that come into some cells, cell after cell.
pub open spec fn inputs<Data>(cells: Seq<CellModel<Data>>) -> Seq<Line>
    decreases cells.len(),
{
    if cells.len() == 0 {
        Seq::empty()
    } else {
        inputs(cells.drop_last()) + cells.last().face.ends
    }
}

/// The line that goes out of each of some cells.
pub open spec fn outputs<Data>(cells: Seq<CellModel<Data>>) -> Seq<Line> {
    Seq::new(cells.len(), |i: int| cells[i].face.fill)
}

/// The test that a line is not among the given ones.
pub open spec fn absent(given: Seq<Line>) -> spec_fn(Line) -> bool {
    |line: Line| !given.contains(line)
}

/// The lines that go out of some cells and into none of them.
pub open spec fn dangling<Data>(cells: Seq<CellModel<Data>>) -> Seq<Line> {
    outputs(cells).filter(absent(inputs(cells)))
}

/// Whether some cells form a tree: exactly one line goes out of one of
/// them and into none.
pub open spec fn forms_tree<Data>(cells: Seq<CellModel<Data>>) -> bool {
    dangling(cells).len() == 1
}

/// The lines that come into those of the first `p` cells alive in a space
/// whose slot is in `gone`, in the order in which the cells stand, without
/// the lines in `inner`.
pub open spec fn outer_inputs<Data>(
    space: Traces<CellModel<Data>>,
    gone: Seq<usize>,
    inner: Seq<Line>,
    p: int,
) -> Seq<Line>
    decreases p,
{
    if p <= 0 {
        Seq::empty()
    } else {
        let before = outer_inputs(space, gone, inner, p - 1);
        let slot = space.latest()[p - 1];
        if gone.contains(slot) {
            before + space.store[slot as int].face.ends.filter(absent(inner))
        } else {
            before
        }
    }
}

/// The face of a group of cells: what comes into them from without, and
/// the one line that goes out of them.
pub open spec fn joined_face<Data>(
    space: Traces<CellModel<Data>>,
    gone: Seq<usize>,
    cells: Seq<CellModel<Data>>,
) -> Boundary {
    Boundary {
        ends: outer_inputs(space, gone, outputs(cells), space.latest().len() as int),
        fill: dangling(cells)[0],
    }
}

/// The line of each path, as a line of the layer of the given level.
pub open spec fn lines_to(level: usize, paths: Seq<Seq<TimelessIndex>>) -> Seq<Line> {
    Seq::new(paths.len(), |i: int| Line::Leveled { level, path: paths[i] })
}

impl<Data> Layer<Data> {
    /// Why the cells of some paths cannot be grouped, if they cannot: there
    /// are none, they do not share a parent, one of them does not exist,
    /// they do not form a tree, or one of them is not alive.
    pub open spec fn group_fault(self, paths: Seq<Seq<TimelessIndex>>) -> Option<Fault> {
        let level = self.prev.level() as usize;
        if paths.len() == 0 {
            Some(Fault::IndexError(IndexError::NoIndicesProvided))
        } else if !shared_parent(paths) {
            Some(Fault::CannotGroupDisconnected(lines_to(level, paths)))
        } else if !all_found(self.cells, paths) {
            Some(Fault::NoSuchCell(self.line(paths[first_lost(self.cells, paths)])))
        } else if !forms_tree(members(self.cells, paths)) {
            Some(Fault::CellsDoNotFormTree(lines_to(level, paths)))
        } else {
            match space_at(self.cells, paths[0].drop_last())->Some_0.splice_error(
                head_indices(paths),
            ) {
                Some(e) => Some(Fault::IndexError(e)),
                None => None,
            }
        }
    }

    /// The layer after the cells of some paths were grouped: in the space
    /// of their parent, a new cell with the given data, the joined face
    /// and the given copies of the cells as content stands for them.
    pub open spec fn grouped(
        self,
        paths: Seq<Seq<TimelessIndex>>,
        data: Data,
        copies: Seq<CellModel<Data>>,
    ) -> Layer<Data> {
        let tail = paths[0].drop_last();
        let space = space_at(self.cells, tail)->Some_0;
        let gone = head_slots(paths);
        let group = CellModel {
            data,
            face: joined_face(space, gone, members(self.cells, paths)),
            content: Some(Traces::of_values(copies)),
        };
        Layer { cells: with_space(self.cells, tail, space.spliced(gone, group)), ..self }
    }

    /// The path of the group that grouping the cells of some paths makes.
    pub open spec fn group_path(self, paths: Seq<Seq<TimelessIndex>>) -> Seq<TimelessIndex> {
        let tail = paths[0].drop_last();
        tail.push(
            TimelessIndex { pos: space_at(self.cells, tail)->Some_0.store.len() as usize },
        )
    }

    /// The lines of the cells in the group that grouping the cells of some
    /// paths makes, in the order of the paths.
    pub open spec fn group_contents(self, paths: Seq<Seq<TimelessIndex>>) -> Seq<Line> {
        Seq::new(
            paths.len(),
            |i: int| self.line(self.group_path(paths).push(TimelessIndex { pos: i as usize })),
        )
    }
}

impl<Data> Layer<Data> {
    /// Tree invariant: cells that exist and are alive can be grouped if
    /// and only if they share a parent and form a tree, with exactly one
    /// line that goes out of one of them and into none. Where they do not
    /// share a parent, that is the fault; where they do and form no tree,
    /// that is.
    pub proof fn lemma_group_iff_tree(self, paths: Seq<Seq<TimelessIndex>>)
        requires
            paths.len() > 0,
            all_found(self.cells, paths),
            shared_parent(paths) ==> space_at(self.cells, paths[0].drop_last())->Some_0.all_alive(
                head_indices(paths),
            ),
        ensures
            self.group_fault(paths) is None <==> shared_parent(paths) && forms_tree(
                members(self.cells, paths),
            ),
            !shared_parent(paths) ==> self.group_fault(paths) == Some(
                Fault::CannotGroupDisconnected(lines_to(self.prev.level() as usize, paths)),
            ),
            shared_parent(paths) && !forms_tree(members(self.cells, paths)) ==> self.group_fault(
                paths,
            ) == Some(Fault::CellsDoNotFormTree(lines_to(self.prev.level() as usize, paths))),
    {
    }
}

/// Whether each of some cells could be a clone of the one in the same
/// place of a second list.
pub open spec fn clones_of<Data: Clone>(copies: Seq<CellModel<Data>>, cells: Seq<CellModel<Data>>) -> bool {
    &&& copies.len() == cells.len()
    &&& forall|i: int| 0 <= i < cells.len() ==> (#[trigger] copies[i]).clone_of(cells[i])
}

impl<Data: Clone> Layer<Data> {
    /// Whether grouping the cells of some paths, which can be grouped, may
    /// give the layer `after`, with a new cell at `new` that holds copies
    /// of the cells at `held`. What is open is only what a clone of the
    /// data is.
    pub open spec fn groups_to(
        self,
        paths: Seq<Seq<TimelessIndex>>,
        data: Data,
        after: Layer<Data>,
        new: Line,
        held: Seq<Line>,
    ) -> bool {
        &&& new == self.line(self.group_path(paths))
        &&& held == self.group_contents(paths)
        &&& exists|copies: Seq<CellModel<Data>>|
            clones_of(copies, members(self.cells, paths)) && after == #[trigger] self.grouped(
                paths,
                data,
                copies,
            )
    }
}

/// The lines of some paths, as addresses of cells of the layer of the
/// given level.
fn addresses(level: usize, cells: &Vec<Vec<TimelessIndex>>) -> (all: Vec<ViewIndex>)
    ensures
        lines(all@) == lines_to(level, paths_of(cells@)),
{
    let mut all: Vec<ViewIndex> = Vec::new();
    let mut i: usize = 0;
    while i < cells.len()
        invariant
            i <= cells.len(),
            all@.len() == i,
            forall|k: int|
                0 <= k < i ==> (#[trigger] all@[k])@ == (Line::Leveled { level, path: cells@[k]@ }),
        decreases cells.len() - i,
    {
        all.push(ViewIndex::Leveled { level, path: copy_path(&cells[i]) });
        i += 1;
    }
    assert(lines(all@) =~= lines_to(level, paths_of(cells@)));
    all
}

/// Whether no path is empty and all lead to cells of one parent.
fn check_cells_connected(cells: &Vec<Vec<TimelessIndex>>) -> (res: Option<Vec<TimelessIndex>>)
    requires
        cells@.len() > 0,
    ensures
        match res {
            Some(tail) => shared_parent(paths_of(cells@)) && tail@ == cells@[0]@.drop_last(),
            None => !shared_parent(paths_of(cells@)),
        },
{
    let ghost paths = paths_of(cells@);
    if cells[0].len() == 0 {
        assert(paths[0].len() == 0);
        return None;
    }
    let mut tail = copy_path(&cells[0]);
    tail.pop();
    let mut i: usize = 0;
    while i < cells.len()
        invariant
            i <= cells.len(),
            paths == paths_of(cells@),
            cells@[0]@.len() > 0,
            tail@ == cells@[0]@.drop_last(),
            forall|k: int|
                0 <= k < i ==> (#[trigger] paths[k]).len() > 0 && paths[k].drop_last()
                    == paths[0].drop_last(),
        decreases cells.len() - i,
    {
        let path = &cells[i];
        if path.len() == 0 || path.len() - 1 != tail.len() || !starts_with(path, &tail) {
            proof {
                if paths[i as int].len() > 0
                    && paths[i as int].drop_last() == paths[0].drop_last() {
                    assert(tail@.is_prefix_of(path@));
                }
            }
            return None;
        }
        assert(path@.drop_last() =~= tail@);
        i += 1;
    }
    Some(tail)
}

impl<Data> Diagram<Data> {
    /// The first path that leads to no cell, if there is one.
    fn check_cells_found(&self, cells: &Vec<Vec<TimelessIndex>>) -> (res: Option<usize>)
        requires
            self.wf(),
        ensures
            match res {
                Some(i) => !all_found(self@.cells, paths_of(cells@)) && i == first_lost(
                    self@.cells,
                    paths_of(cells@),
                ) && i < cells@.len(),
                None => all_found(self@.cells, paths_of(cells@)),
            },
    {
        let ghost paths = paths_of(cells@);
        let mut i: usize = 0;
        while i < cells.len()
            invariant
                self.wf(),
                i <= cells.len(),
                paths == paths_of(cells@),
                all_found(self@.cells, paths.take(i as int)),
            decreases cells.len() - i,
        {
            if self.get(&cells[i]).is_none() {
                proof {
                    let lost = first_lost(self@.cells, paths);
                    assert(cell_at(self@.cells, paths[i as int]) is None);
                    if lost < i {
                        assert(paths.take(i as int)[lost] == paths[lost]);
                    } else if i < lost {
                        assert(paths.take(lost)[i as int] == paths[i as int]);
                    }
                }
                return Some(i);
            }
            proof {
                assert forall|k: int| 0 <= k < i + 1 implies cell_at(
                    self@.cells,
                    #[trigger] paths.take(i + 1)[k],
                ) is Some by {
                    if k < i {
                        assert(paths.take(i as int)[k] == paths[k]);
                    }
                }
            }
            i += 1;
        }
        assert(paths.take(i as int) =~= paths);
        None
    }

    /// All the lines that come into the cells of some paths, which all
    /// lead to cells, and the line that goes out of each.
    fn collect_lines(&self, cells: &Vec<Vec<TimelessIndex>>) -> (res: (Vec<ViewIndex>, Vec<ViewIndex>))
        requires
            self.wf(),
            all_found(self@.cells, paths_of(cells@)),
        ensures
            lines(res.0@) == inputs(members(self@.cells, paths_of(cells@))),
            lines(res.1@) == outputs(members(self@.cells, paths_of(cells@))),
    {
        let ghost paths = paths_of(cells@);
        let ghost all = members(self@.cells, paths);
        let mut ins: Vec<ViewIndex> = Vec::new();
        let mut outs: Vec<ViewIndex> = Vec::new();
        let mut i: usize = 0;
        assert(lines(ins@) =~= inputs(all.take(0)));
        while i < cells.len()
            invariant
                self.wf(),
                i <= cells.len(),
                paths == paths_of(cells@),
                all == members(self@.cells, paths),
                all_found(self@.cells, paths),
                lines(ins@) == inputs(all.take(i as int)),
                outs@.len() == i,
                forall|k: int| 0 <= k < i ==> (#[trigger] outs@[k])@ == all[k].face.fill,
            decreases cells.len() - i,
        {
            assert(cell_at(self@.cells, paths[i as int]) is Some);
            match self.get(&cells[i]) {
                None => {
                    proof {
                        assert(false);
                    }
                },
                Some(cell) => {
                    let ghost before = lines(ins@);
                    let face = cell.face();
                    let mut k: usize = 0;
                    while k < face.ends.len()
                        invariant
                            k <= face.ends.len(),
                            lines(ins@) == before + lines(face.ends@).take(k as int),
                        decreases face.ends.len() - k,
                    {
                        let ghost prior = lines(ins@);
                        ins.push(face.ends[k].clone());
                        assert(lines(ins@) =~= prior.push(face.ends@[k as int]@));
                        assert(lines(face.ends@).take(k + 1) =~= lines(face.ends@).take(
                            k as int,
                        ).push(face.ends@[k as int]@));
                        k += 1;
                    }
                    outs.push(face.fill.clone());
                    proof {
                        assert(lines(face.ends@).take(k as int) =~= lines(face.ends@));
                        assert(all.take(i + 1).drop_last() =~= all.take(i as int));
                        assert(all.take(i + 1).last() == cell.model());
                    }
                },
            }
            i += 1;
        }
        assert(all.take(i as int) =~= all);
        assert(lines(outs@) =~= outputs(all));
        (ins, outs)
    }
}

/// The lines among `outs` that are not among `ins`.
fn dangling_lines(ins: &Vec<ViewIndex>, outs: &Vec<ViewIndex>) -> (res: Vec<ViewIndex>)
    ensures
        lines(res@) == lines(outs@).filter(absent(lines(ins@))),
{
    let ghost pred = absent(lines(ins@));
    let mut res: Vec<ViewIndex> = Vec::new();
    let mut i: usize = 0;
    assert(lines(outs@).take(0).filter(pred) =~= Seq::<Line>::empty()) by {
        reveal(Seq::filter);
    }
    assert(lines(res@) =~= Seq::<Line>::empty());
    while i < outs.len()
        invariant
            i <= outs.len(),
            pred == absent(lines(ins@)),
            lines(res@) == lines(outs@).take(i as int).filter(pred),
        decreases outs.len() - i,
    {
        proof {
            assert(lines(outs@).take(i + 1) =~= lines(outs@).take(i as int).push(outs@[i as int]@));
            lines(outs@).take(i as int).lemma_filter_push(outs@[i as int]@, pred);
        }
        if !holds_line(ins, &outs[i]) {
            let ghost before = lines(res@);
            res.push(outs[i].clone());
            assert(lines(res@) =~= before.push(outs@[i as int]@));
        }
        i += 1;
    }
    assert(lines(outs@).take(i as int) =~= lines(outs@));
    res
}

/// Whether a slot is among the given ones.
fn holds_slot(slots: &Vec<TimelessIndex>, slot: usize) -> (b: bool)
    ensures
        b == Seq::new(slots@.len(), |i: int| slots@[i].pos).contains(slot),
{
    let ghost all = Seq::new(slots@.len(), |i: int| slots@[i].pos);
    let mut i: usize = 0;
    while i < slots.len()
        invariant
            i <= slots.len(),
            all == Seq::new(slots@.len(), |i: int| slots@[i].pos),
            forall|k: int| 0 <= k < i ==> all[k] != slot,
        decreases slots.len() - i,
    {
        if slots[i].pos == slot {
            assert(all[i as int] == slot);
            return true;
        }
        i += 1;
    }
    false
}

/// The lines that come into those cells alive in a space whose slot is
/// among `gone`, in the order in which the cells stand, without the lines
/// among `inner`.
fn collect_outer<Data>(
    space: &TracingVec<Cell<Data>>,
    gone: &Vec<TimelessIndex>,
    inner: &Vec<ViewIndex>,
) -> (ends: Vec<ViewIndex>)
    requires
        cells_wf(space_model(*space)),
    ensures
        lines(ends@) == outer_inputs(
            space_model(*space),
            Seq::new(gone@.len(), |i: int| gone@[i].pos),
            lines(inner@),
            space_model(*space).latest().len() as int,
        ),
{
    proof {
        lemma_space_wf(*space);
    }
    let ghost model = space_model(*space);
    let ghost slots = Seq::new(gone@.len(), |i: int| gone@[i].pos);
    let ghost pred = absent(lines(inner@));
    let alive = space.iter_timeless_indices();
    let mut ends: Vec<ViewIndex> = Vec::new();
    let mut p: usize = 0;
    assert(lines(ends@) =~= outer_inputs(model, slots, lines(inner@), 0));
    while p < alive.len()
        invariant
            space.wf(),
            model == space_model(*space),
            slots == Seq::new(gone@.len(), |i: int| gone@[i].pos),
            pred == absent(lines(inner@)),
            p <= alive.len(),
            alive@.len() == model.latest().len(),
            forall|q: int|
                0 <= q < alive@.len() ==> (#[trigger] alive@[q]).0.pos == space@.latest()[q]
                    && *alive@[q].1 == space@.latest_values()[q],
            lines(ends@) == outer_inputs(model, slots, lines(inner@), p as int),
        decreases alive.len() - p,
    {
        let slot = alive[p].0.pos;
        let cell = alive[p].1;
        proof {
            assert(space@.snapshots[space@.pseudotime()][p as int] < space@.store.len());
            assert(cell.model() == model.store[slot as int]);
        }
        if holds_slot(gone, slot) {
            let ghost before = lines(ends@);
            let face = cell.face();
            let mut k: usize = 0;
            assert(lines(face.ends@).take(0).filter(pred) =~= Seq::<Line>::empty()) by {
                reveal(Seq::filter);
            }
            assert(lines(ends@) =~= before + lines(face.ends@).take(0).filter(pred));
            while k < face.ends.len()
                invariant
                    k <= face.ends.len(),
                    pred == absent(lines(inner@)),
                    lines(ends@) == before + lines(face.ends@).take(k as int).filter(pred),
                decreases face.ends.len() - k,
            {
                proof {
                    assert(lines(face.ends@).take(k + 1) =~= lines(face.ends@).take(k as int).push(
                        face.ends@[k as int]@,
                    ));
                    lines(face.ends@).take(k as int).lemma_filter_push(face.ends@[k as int]@, pred);
                }
                if !holds_line(inner, &face.ends[k]) {
                    let ghost prior = lines(ends@);
                    ends.push(face.ends[k].clone());
                    assert(lines(ends@) =~= prior.push(face.ends@[k as int]@));
                }
                k += 1;
            }
            assert(lines(face.ends@).take(k as int) =~= lines(face.ends@));
        }
        p += 1;
    }
    ends
}

impl<Data: Clone> Diagram<Data> {
    /// Looks whether the cells that the paths lead to can be grouped as
    /// far as that shows without their parent: there is a path, the paths
    /// share a parent, each leads to a cell, and the cells form a tree.
    /// Gives the path of the parent, the lines that go out of the cells and
    /// the one of them that goes into none.
    fn plan_group(&self, cells: &Vec<Vec<TimelessIndex>>) -> (res: Result<
        (Vec<TimelessIndex>, Vec<ViewIndex>, ViewIndex),
        Error,
    >)
        requires
            self.wf(),
        ensures
            match res {
                Ok(plan) => {
                    let paths = paths_of(cells@);
                    &&& paths.len() > 0
                    &&& shared_parent(paths)
                    &&& all_found(self@.cells, paths)
                    &&& forms_tree(members(self@.cells, paths))
                    &&& plan.0@ == paths[0].drop_last()
                    &&& lines(plan.1@) == outputs(members(self@.cells, paths))
                    &&& plan.2@ == dangling(members(self@.cells, paths))[0]
                },
                Err(e) => self@.group_fault(paths_of(cells@)) == Some(e@),
            },
    {
        let level = self.level() - 1;
        if cells.len() == 0 {
            return Err(Error::IndexError(IndexError::NoIndicesProvided));
        }
        let tail = match check_cells_connected(cells) {
            Some(tail) => tail,
            None => {
                return Err(Error::CannotGroupDisconnected(addresses(level, cells)));
            },
        };
        match self.check_cells_found(cells) {
            Some(lost) => {
                return Err(Error::NoSuchCell(self.into_index(copy_path(&cells[lost]))));
            },
            None => {},
        }
        let (ins, outs) = self.collect_lines(cells);
        let loose = dangling_lines(&ins, &outs);
        if loose.len() != 1 {
            return Err(Error::CellsDoNotFormTree(addresses(level, cells)));
        }
        let fill = loose[0].clone();
        Ok((tail, outs, fill))
    }

    /// Makes the group for the cells that the paths lead to, with copies
    /// of the cells as its content, and the index of each cell in the
    /// space of their parent.
    fn make_group(
        &self,
        cells: &Vec<Vec<TimelessIndex>>,
        tail: &Vec<TimelessIndex>,
        outs: &Vec<ViewIndex>,
        fill: ViewIndex,
        data: Data,
    ) -> (made: (Cell<Data>, Vec<TracingIndex>, Ghost<Seq<CellModel<Data>>>))
        requires
            self.wf(),
            cells@.len() > 0,
            shared_parent(paths_of(cells@)),
            all_found(self@.cells, paths_of(cells@)),
            tail@ == paths_of(cells@)[0].drop_last(),
            lines(outs@) == outputs(members(self@.cells, paths_of(cells@))),
            fill@ == dangling(members(self@.cells, paths_of(cells@)))[0],
        ensures
            space_at(self@.cells, tail@) is Some,
            made.0.model() == (CellModel {
                data,
                face: joined_face(
                    space_at(self@.cells, tail@)->Some_0,
                    head_slots(paths_of(cells@)),
                    members(self@.cells, paths_of(cells@)),
                ),
                content: Some(Traces::of_values(made.2@)),
            }),
            made.0.model().wf(),
            clones_of(made.2@, members(self@.cells, paths_of(cells@))),
            made.1@ == head_indices(paths_of(cells@)),
    {
        let ghost paths = paths_of(cells@);
        let ghost layer = self@;
        let mut gone: Vec<TimelessIndex> = Vec::new();
        let mut indices: Vec<TracingIndex> = Vec::new();
        let mut i: usize = 0;
        while i < cells.len()
            invariant
                i <= cells.len(),
                paths == paths_of(cells@),
                shared_parent(paths),
                gone@.len() == i,
                indices@.len() == i,
                forall|k: int| 0 <= k < i ==> #[trigger] gone@[k] == paths[k].last(),
                forall|k: int|
                    0 <= k < i ==> #[trigger] indices@[k] == TracingIndex::Timeless(paths[k].last()),
            decreases cells.len() - i,
        {
            let path = &cells[i];
            assert(paths[i as int].len() > 0);
            gone.push(path[path.len() - 1]);
            indices.push(TracingIndex::Timeless(path[path.len() - 1]));
            i += 1;
        }
        assert(gone@ =~= heads(paths));
        assert(indices@ =~= head_indices(paths));
        assert(Seq::new(gone@.len(), |i: int| gone@[i].pos) =~= head_slots(paths));
        proof {
            assert(cell_at(layer.cells, paths[0]) is Some);
            assert(tail@.push(paths[0].last()) =~= paths[0]);
            lemma_cell_in_space(layer.cells, tail@, paths[0].last());
            lemma_cell_at_wf(layer.cells, tail@);
        }
        let ghost parent = space_at(layer.cells, tail@)->Some_0;
        let (ends, copies) = match space_ref(&self.cells, tail) {
            None => {
                proof {
                    assert(false);
                }
                (Vec::new(), Vec::new())
            },
            Some(space) => {
                let ends = collect_outer(space, &gone, outs);
                let mut copies: Vec<Cell<Data>> = Vec::new();
                let mut i: usize = 0;
                while i < gone.len()
                    invariant
                        i <= gone.len(),
                        gone@ == heads(paths),
                        paths == paths_of(cells@),
                        shared_parent(paths),
                        tail@ == paths[0].drop_last(),
                        all_found(layer.cells, paths),
                        space_at(layer.cells, tail@) == Some(space_model(*space)),
                        cells_wf(space_model(*space)),
                        copies@.len() == i,
                        forall|k: int|
                            0 <= k < i ==> (#[trigger] copies@[k]).model().clone_of(
                                members(layer.cells, paths)[k],
                            ),
                    decreases gone.len() - i,
                {
                    proof {
                        assert(cell_at(layer.cells, paths[i as int]) is Some);
                        assert(tail@.push(paths[i as int].last()) =~= paths[i as int]);
                        lemma_cell_in_space(layer.cells, tail@, paths[i as int].last());
                    }
                    copies.push(space.slot(gone[i].pos).duplicate());
                    i += 1;
                }
                (ends, copies)
            },
        };
        let ghost copied = Seq::new(copies@.len(), |i: int| copies@[i].model());
        let content = TracingVec::from_vec(copies);
        let group = Cell { meta: MetaCell { data, face: Face { ends, fill } }, content: Some(content) };
        proof {
            lemma_model_is_map(content);
            Traces::lemma_map_of_values(copies@, modeller());
            assert(Seq::new(copies@.len(), |i: int| modeller()(copies@[i])) =~= copied);
            assert(group.model() == (CellModel {
                data,
                face: joined_face(parent, head_slots(paths), members(layer.cells, paths)),
                content: Some(Traces::of_values(copied)),
            }));
            assert(clones_of(copied, members(layer.cells, paths)));
            assert forall|i: int| 0 <= i < copied.len() implies (#[trigger] copied[i]).wf() by {
                assert(copied[i].clone_of(members(layer.cells, paths)[i]));
                lemma_cell_at_wf(layer.cells, paths[i]);
                super::copying::lemma_cell_clone_wf(copied[i], members(layer.cells, paths)[i]);
            }
            assert(group.model().wf());
        }
        (group, indices, Ghost(copied))
    }

    /// Groups the cells that the paths lead to: in the space of their
    /// parent, one new cell with the given data stands for them, at the
    /// place of the first of them, and holds copies of them in the order
    /// of the paths. The face of the new cell is what comes into the cells
    /// from without, and the one line that goes out of them.
    ///
    /// Gives the address of the new cell and those of the copies. Refused,
    /// with nothing changed, where `group_fault` says why.
    pub fn group(&mut self, cells: &Vec<Vec<TimelessIndex>>, data: Data) -> (res: Result<
        (ViewIndex, Vec<ViewIndex>),
        Error,
    >)
        requires
            old(self).wf(),
        ensures
            final(self).wf(),
            final(self)@.prev == old(self)@.prev,
            old(self)@.stack().sound() ==> final(self)@.stack().sound(),
            cells@.len() > 0 && all_found(old(self)@.cells, paths_of(cells@)) && (shared_parent(
                paths_of(cells@),
            ) ==> old(self)@.parent_space(paths_of(cells@)).all_alive(
                head_indices(paths_of(cells@)),
            )) ==> (res is Ok <==> shared_parent(paths_of(cells@)) && forms_tree(
                members(old(self)@.cells, paths_of(cells@)),
            )),
            match res {
                Ok(made) => old(self)@.group_fault(paths_of(cells@)) is None
                    && old(self)@.groups_to(
                    paths_of(cells@),
                    data,
                    final(self)@,
                    made.0@,
                    lines(made.1@),
                ),
                Err(e) => old(self)@.group_fault(paths_of(cells@)) == Some(e@) && final(self)@
                    == old(self)@,
            },
    {
        let ghost paths = paths_of(cells@);
        let ghost layer = self@;
        proof {
            if paths.len() > 0 && all_found(layer.cells, paths) && (shared_parent(paths)
                ==> layer.parent_space(paths).all_alive(head_indices(paths))) {
                layer.lemma_group_iff_tree(paths);
            }
        }
        let level = self.level() - 1;
        let (tail, outs, fill) = match self.plan_group(cells) {
            Ok(plan) => plan,
            Err(e) => {
                return Err(e);
            },
        };
        let (group, indices, Ghost(copied)) = self.make_group(cells, &tail, &outs, fill, data);
        let ghost parent = space_at(layer.cells, tail@)->Some_0;
        let ghost made = group.model();
        let slot = match self.put_group(&tail, indices, group) {
            Ok(slot) => slot,
            Err(e) => {
                return Err(Error::IndexError(e));
            },
        };
        proof {
            assert(parent.resolved(head_indices(paths)) =~= head_slots(paths)) by {
                assert forall|i: int| 0 <= i < paths.len() implies parent.resolved(
                    head_indices(paths),
                )[i] == head_slots(paths)[i] by {
                    assert(parent.alive(head_indices(paths)[i]));
                }
            }
            assert(self@.cells == layer.grouped(paths, data, copied).cells);
            assert(self@ == layer.grouped(paths, data, copied));
            if layer.stack().sound() {
                layer.lemma_grouped_resolves(paths, data, copied);
            }
        }
        let mut group_path = tail;
        group_path.push(TimelessIndex { pos: slot });
        let mut contents: Vec<ViewIndex> = Vec::new();
        let mut i: usize = 0;
        while i < cells.len()
            invariant
                i <= cells.len(),
                contents@.len() == i,
                forall|k: int|
                    0 <= k < i ==> (#[trigger] contents@[k])@ == (Line::Leveled {
                        level,
                        path: group_path@.push(TimelessIndex { pos: k as usize }),
                    }),
            decreases cells.len() - i,
        {
            let mut path = copy_path(&group_path);
            path.push(TimelessIndex { pos: i });
            contents.push(ViewIndex::Leveled { level, path });
            i += 1;
        }
        proof {
            assert(group_path@ == layer.group_path(paths));
            assert(lines(contents@) =~= layer.group_contents(paths));
        }
        Ok((ViewIndex::Leveled { level, path: group_path }, contents))
    }
}

impl<Data> Diagram<Data> {
    /// Puts a cell in the place of the cells at the given indices of the
    /// space that the path leads to. Gives the slot of the cell. Refused,
    /// with nothing changed, where one of the indices names no cell that
    /// is alive.
    fn put_group(&mut self, tail: &Vec<TimelessIndex>, indices: Vec<TracingIndex>, group: Cell<Data>) -> (res:
        Result<usize, IndexError>)
        requires
            old(self).wf(),
            space_at(old(self)@.cells, tail@) is Some,
            group.model().wf(),
        ensures
            final(self).wf(),
            final(self)@.prev == old(self)@.prev,
            match res {
                Ok(slot) => {
                    let space = space_at(old(self)@.cells, tail@)->Some_0;
                    &&& indices@.len() > 0
                    &&& space.all_alive(indices@)
                    &&& slot == space.store.len()
                    &&& final(self)@.cells == with_space(
                        old(self)@.cells,
                        tail@,
                        space.spliced(space.resolved(indices@), group.model()),
                    )
                },
                Err(e) => space_at(old(self)@.cells, tail@)->Some_0.splice_error(indices@) == Some(e)
                    && final(self)@ == old(self)@,
            },
    {
        let ghost layer = self@;
        match space_mut(&mut self.cells, tail) {
            None => {
                proof {
                    assert(false);
                }
                Err(IndexError::NoIndicesProvided)
            },
            Some(space) => {
                proof {
                    lemma_space_wf(*space);
                    lemma_model_is_map(*space);
                    space@.lemma_map_splice(modeller(), indices@);
                }
                let ghost before = *space;
                let ghost given = indices@;
                let slot = space.store_len();
                match space.try_replace(indices, group) {
                    Err(e) => {
                        proof {
                            before@.lemma_splice_error(given, e);
                            lemma_with_same_space(layer.cells, tail@);
                        }
                        Err(e)
                    },
                    Ok(_) => {
                        let ghost after = *space;
                        proof {
                            lemma_model_is_map(after);
                            before@.lemma_map_spliced(modeller(), before@.resolved(given), group);
                            assert forall|i: int| 0 <= i < after@.store.len() implies (
                            #[trigger] after@.store[i]).model().wf() by {
                                if i < before@.store.len() {
                                    assert(after@.store[i] == before@.store[i]);
                                }
                            }
                            lemma_wf_space(after);
                        }
                        Ok(slot)
                    },
                }
            },
        }
    }
}

impl<Data> Diagram<Data> {
    /// How many lines come into the layer from without: into one of its
    /// top cells, and out of none of them.
    pub fn input_count(&self) -> (n: usize)
        requires
            self.wf(),
        ensures
            n == inputs(self@.cells.latest_values()).filter(
                absent(outputs(self@.cells.latest_values())),
            ).len(),
    {
        let ghost cells = self@.cells.latest_values();
        let all = self.top_cells();
        let mut ins: Vec<ViewIndex> = Vec::new();
        let mut outs: Vec<ViewIndex> = Vec::new();
        let mut i: usize = 0;
        assert(lines(ins@) =~= inputs(cells.take(0)));
        while i < all.len()
            invariant
                i <= all.len(),
                all@.len() == cells.len(),
                forall|p: int| 0 <= p < all@.len() ==> (#[trigger] all@[p]).model() == cells[p],
                lines(ins@) == inputs(cells.take(i as int)),
                outs@.len() == i,
                forall|k: int| 0 <= k < i ==> (#[trigger] outs@[k])@ == cells[k].face.fill,
            decreases all.len() - i,
        {
            let ghost before = lines(ins@);
            let face = all[i].face();
            let mut k: usize = 0;
            while k < face.ends.len()
                invariant
                    k <= face.ends.len(),
                    lines(ins@) == before + lines(face.ends@).take(k as int),
                decreases face.ends.len() - k,
            {
                let ghost prior = lines(ins@);
                ins.push(face.ends[k].clone());
                assert(lines(ins@) =~= prior.push(face.ends@[k as int]@));
                assert(lines(face.ends@).take(k + 1) =~= lines(face.ends@).take(k as int).push(
                    face.ends@[k as int]@,
                ));
                k += 1;
            }
            outs.push(face.fill.clone());
            proof {
                assert(lines(face.ends@).take(k as int) =~= lines(face.ends@));
                assert(cells.take(i + 1).drop_last() =~= cells.take(i as int));
                assert(cells.take(i + 1).last() == all@[i as int].model());
            }
            i += 1;
        }
        assert(cells.take(i as int) =~= cells);
        assert(lines(outs@) =~= outputs(cells));
        dangling_lines(&outs, &ins).len()
    }
}

} // verus!
