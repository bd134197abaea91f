//! Selecting cells: marks on the data, confined to one layer and to the
//! cells of one parent.

use super::lines::reached;
use super::picking::only;
use super::space::{cell_at, cell_mut, lemma_space_wf, lemma_wf_space, with_cell};
use super::{cells_wf, space_model, Cell, CellModel, Diagram};
use crate::model::tracing_vec::{TimelessIndex, Traces, TracingVec};
use crate::opetope::data::Selectable;
use crate::opetope::tower::Tower;
use crate::opetope::viewing::{copy_path, same_path, Line, Picked, Selection, ViewIndex};
use crate::opetope::{Error, Fault, Layer, Stack, Tail};
use vstd::prelude::*;

verus! {

/// Each path with a slot put in front.
pub open spec fn prefixed(index: TimelessIndex, paths: Seq<Seq<TimelessIndex>>) -> Seq<
    Seq<TimelessIndex>,
> {
    Seq::new(paths.len(), |i: int| seq![index] + paths[i])
}

impl<Data> CellModel<Selectable<Data>> {
    /// The cell with the mark taken off it and off every cell that is
    /// alive in it.
    pub open spec fn unselected(self) -> Self
        decreases self, 0int,
    {
        CellModel {
            data: Selectable { val: self.data.val, selected: false },
            face: self.face,
            content: match self.content {
                None => None,
                Some(space) => Some(unselected_all(space)),
            },
        }
    }

    /// The cell with its mark turned over.
    pub open spec fn toggled(self) -> Self {
        CellModel { data: Selectable { val: self.data.val, selected: !self.data.selected }, ..self }
    }

    /// The paths, from this cell on, to the selected cells that can be
    /// seen in it: the empty path if the cell itself is selected, and
    /// otherwise those of the cells alive in it.
    pub open spec fn picks(self) -> Seq<Seq<TimelessIndex>>
        decreases self, 0int, 0int,
    {
        if self.data.selected {
            seq![Seq::empty()]
        } else {
            match self.content {
                None => Seq::empty(),
                Some(space) => picks_in(space, space.latest().len() as int),
            }
        }
    }
}

/// The space with the mark taken off every cell that is alive in it,
/// nested ones included.
pub open spec fn unselected_all<Data>(space: Traces<CellModel<Selectable<Data>>>) -> Traces<
    CellModel<Selectable<Data>>,
>
    decreases space, 1int,
{
    Traces {
        store: Seq::new(
            space.store.len(),
            |i: int|
                if 0 <= i < space.store.len() && space.latest().contains(i as usize) {
                    space.store[i].unselected()
                } else {
                    space.store[i]
                },
        ),
        births: space.births,
        snapshots: space.snapshots,
    }
}

/// The paths to the selected cells that can be seen among the first `n`
/// cells alive in a space, in the order in which the cells stand.
pub open spec fn picks_in<Data>(space: Traces<CellModel<Selectable<Data>>>, n: int) -> Seq<
    Seq<TimelessIndex>,
>
    decreases space, 1int, n,
{
    if n <= 0 || n > space.latest().len() {
        Seq::empty()
    } else {
        let slot = space.latest()[n - 1];
        if slot < space.store.len() {
            picks_in(space, n - 1) + prefixed(
                TimelessIndex { pos: slot },
                space.store[slot as int].picks(),
            )
        } else {
            picks_in(space, n - 1)
        }
    }
}

/// The test that a path leads to a cell of the parent of the given path.
pub open spec fn sibling(parent: Seq<TimelessIndex>) -> spec_fn(Seq<TimelessIndex>) -> bool {
    |path: Seq<TimelessIndex>| path.len() > 0 && path.drop_last() == parent
}

/// The selection that some paths to cells of one layer make: the first of
/// them and those that share its parent.
pub open spec fn picked_of(level: usize, paths: Seq<Seq<TimelessIndex>>) -> Option<Picked> {
    if paths.len() == 0 || paths[0].len() == 0 {
        None
    } else {
        let parent = paths[0].drop_last();
        let kept = paths.filter(sibling(parent));
        Some(
            Picked::Leveled {
                level,
                path: parent,
                cells: Seq::new(kept.len(), |i: int| kept[i].last()),
            },
        )
    }
}

/// Taking marks off keeps a space valid.
pub proof fn lemma_unselected_wf<Data>(space: Traces<CellModel<Selectable<Data>>>)
    requires
        cells_wf(space),
    ensures
        cells_wf(unselected_all(space)),
    decreases space,
{
    let after = unselected_all(space);
    assert forall|i: int| 0 <= i < after.store.len() implies (#[trigger] after.store[i]).wf() by {
        assert(space.store[i].wf());
        if space.latest().contains(i as usize) {
            match space.store[i].content {
                None => {},
                Some(inner) => {
                    lemma_unselected_wf(inner);
                },
            }
        }
    }
}

/// What `select` does to the cells of a tower: the marks are taken off
/// all cells that are alive, and the addressed cell is marked unless it
/// was marked before. Gives the cells after it, and the selection if the
/// cell was marked.
pub open spec fn tower_selected<Data>(cells: Traces<Selectable<Data>>, line: Line) -> Result<
    (Traces<Selectable<Data>>, Option<Picked>),
    Fault,
> {
    match line {
        Line::Leveled { .. } => Err(Fault::TooMuchDepth(line.level() as usize)),
        Line::Ground(index) => if index.pos >= cells.store.len() {
            Err(Fault::NoSuchCell(line))
        } else if cells.store[index.pos as int].selected {
            Ok((tower_unselected(cells), None))
        } else {
            let cleared = tower_unselected(cells);
            Ok(
                (
                    Traces {
                        store: cleared.store.update(
                            index.pos as int,
                            Selectable { val: cleared.store[index.pos as int].val, selected: true },
                        ),
                        ..cleared
                    },
                    Some(Picked::Ground(index)),
                ),
            )
        },
    }
}

/// The cells of a tower with the mark taken off every one that is alive.
pub open spec fn tower_unselected<Data>(cells: Traces<Selectable<Data>>) -> Traces<
    Selectable<Data>,
> {
    Traces {
        store: Seq::new(
            cells.store.len(),
            |i: int|
                if 0 <= i < cells.store.len() && cells.latest().contains(i as usize) {
                    Selectable { val: cells.store[i].val, selected: false }
                } else {
                    cells.store[i]
                },
        ),
        births: cells.births,
        snapshots: cells.snapshots,
    }
}

/// The first cell alive in a tower, among the first `n`, that is selected.
pub open spec fn tower_picked<Data>(cells: Traces<Selectable<Data>>, n: int) -> Option<Picked>
    decreases n,
{
    if n <= 0 || n > cells.latest().len() {
        None
    } else {
        match tower_picked(cells, n - 1) {
            Some(found) => Some(found),
            None => {
                let slot = cells.latest()[n - 1];
                if slot < cells.store.len() && cells.store[slot as int].selected {
                    Some(Picked::Ground(TimelessIndex { pos: slot }))
                } else {
                    None
                }
            },
        }
    }
}

impl<Data> Layer<Selectable<Data>> {
    /// The selection that the selected cells of this layer make, if there
    /// are any.
    pub open spec fn picked_here(self) -> Option<Picked> {
        picked_of(
            self.prev.level() as usize,
            picks_in(self.cells, self.cells.latest().len() as int),
        )
    }

    /// The layer with the marks taken off its cells and, if it lies above
    /// the given depth, off those of the layers beneath as far as they do.
    pub open spec fn unselected(self, max_depth: nat) -> Layer<Selectable<Data>>
        decreases self, 0int,
    {
        Layer {
            cells: unselected_all(self.cells),
            prev: if max_depth < self.level() {
                self.prev.unselected(max_depth)
            } else {
                self.prev
            },
        }
    }

    /// What `select` does: the marks are confined to the layer of the
    /// addressed cell and to the cells of its parent, and the mark of the
    /// cell is turned over. Gives the layer after it and the selection
    /// that is left.
    pub open spec fn selected(self, line: Line) -> Result<(Layer<Selectable<Data>>, Option<Picked>), Fault>
        decreases self, 0int,
    {
        if line.level() > self.level() {
            Err(Fault::TooMuchDepth(line.level() as usize))
        } else if line.level() == self.level() {
            match cell_at(self.cells, line.path()) {
                None => Err(Fault::NoSuchCell(line)),
                Some(_) => {
                    let cleared = Layer { prev: self.prev.unselected(0), ..self };
                    let confined = match cleared.picked_here() {
                        Some(picked) => if picked.common_path() != line.tail() {
                            Layer { cells: unselected_all(cleared.cells), ..cleared }
                        } else {
                            cleared
                        },
                        None => cleared,
                    };
                    let turned = Layer {
                        cells: with_cell(
                            confined.cells,
                            line.path(),
                            cell_at(confined.cells, line.path())->Some_0.toggled(),
                        ),
                        ..confined
                    };
                    Ok((turned, turned.stack().picked()))
                },
            }
        } else {
            match self.prev.selected(line) {
                Err(e) => Err(e),
                Ok(done) => Ok((Layer { cells: unselected_all(self.cells), prev: done.0 }, done.1)),
            }
        }
    }
}

impl<Data> Stack<Selectable<Data>> {
    /// The selection of the stack: that of the first layer, from the top,
    /// that has selected cells.
    pub open spec fn picked(self) -> Option<Picked>
        decreases self,
    {
        match self {
            Stack::Tower(cells) => tower_picked(cells, cells.latest().len() as int),
            Stack::Diagram(layer) => match layer.picked_here() {
                Some(picked) => Some(picked),
                None => layer.prev.picked(),
            },
        }
    }

    pub open spec fn unselected(self, max_depth: nat) -> Stack<Selectable<Data>>
        decreases self, 1int,
    {
        match self {
            Stack::Tower(cells) => Stack::Tower(tower_unselected(cells)),
            Stack::Diagram(layer) => Stack::Diagram(Box::new(layer.unselected(max_depth))),
        }
    }

    pub open spec fn selected(self, line: Line) -> Result<(Stack<Selectable<Data>>, Option<Picked>), Fault>
        decreases self, 1int,
    {
        match self {
            Stack::Tower(cells) => match tower_selected(cells, line) {
                Err(e) => Err(e),
                Ok(done) => Ok((Stack::Tower(done.0), done.1)),
            },
            Stack::Diagram(layer) => match layer.selected(line) {
                Err(e) => Err(e),
                Ok(done) => Ok((Stack::Diagram(Box::new(done.0)), done.1)),
            },
        }
    }

    /// Taking marks off keeps the level of a stack, and its validity.
    pub proof fn lemma_unselected(self, max_depth: nat)
        ensures
            self.unselected(max_depth).level() == self.level(),
            self.wf() ==> self.unselected(max_depth).wf(),
        decreases self,
    {
        match self {
            Stack::Tower(cells) => {},
            Stack::Diagram(layer) => {
                layer.prev.lemma_unselected(max_depth);
                if self.wf() {
                    lemma_unselected_wf(layer.cells);
                }
            },
        }
    }
}

/// Takes the mark off every cell that is alive in the space, nested ones
/// included.
pub fn unselect_space<Data>(space: &mut TracingVec<Cell<Selectable<Data>>>)
    requires
        cells_wf(space_model(*old(space))),
    ensures
        cells_wf(space_model(*final(space))),
        space_model(*final(space)) == unselected_all(space_model(*old(space))),
    decreases *old(space),
{
    proof {
        lemma_space_wf(*space);
    }
    let alive = space.timeless_indices();
    let ghost before = *space;
    let ghost goal = unselected_all(space_model(before));
    let ghost order = before@.latest();
    let mut p: usize = 0;
    while p < alive.len()
        invariant
            space.wf(),
            cells_wf(space_model(before)),
            before == *old(space),
            order == before@.latest(),
            goal == unselected_all(space_model(before)),
            p <= alive.len(),
            alive@.len() == order.len(),
            forall|q: int| 0 <= q < alive@.len() ==> (#[trigger] alive@[q]).pos == order[q],
            space@.births == before@.births,
            space@.snapshots == before@.snapshots,
            space@.store.len() == before@.store.len(),
            forall|i: int|
                0 <= i < before@.store.len() && !reached(order, p as int, i) ==> (
                #[trigger] space@.store[i]) == before@.store[i],
            forall|i: int|
                0 <= i < before@.store.len() && reached(order, p as int, i) ==> (
                #[trigger] space@.store[i]).model().wf() && space@.store[i].model()
                    == goal.store[i],
        decreases alive.len() - p,
    {
        let slot = alive[p].pos;
        proof {
            lemma_space_wf(before);
            assert(before@.snapshots[before@.pseudotime()][p as int] < before@.store.len());
            assert(order.no_duplicates());
            if reached(order, p as int, slot as int) {
                let q = choose|q: int| 0 <= q < p && #[trigger] order[q] == slot as int;
                assert(order[q] == order[p as int]);
            }
            before.lemma_store_decreases(slot as int);
        }
        let cell = space.slot_mut(slot);
        let ghost old_cell = *cell;
        assert(old_cell == before@.store[slot as int]);
        assert(old_cell.model().wf());
        cell.meta.data.unselect();
        match &mut cell.content {
            Some(inner) => {
                unselect_space(inner);
            },
            None => {},
        }
        proof {
            assert(order.contains(slot));
            assert(cell.model().wf());
            assert(cell.model() == goal.store[slot as int]);
            assert forall|i: int|
                0 <= i < before@.store.len() && !reached(order, p + 1, i) implies (
            #[trigger] space@.store[i]) == before@.store[i] by {
                assert(!reached(order, p as int, i));
                assert(i != slot);
            }
            assert forall|i: int|
                0 <= i < before@.store.len() && reached(order, p + 1, i) implies (
            #[trigger] space@.store[i]).model().wf() && space@.store[i].model()
                == goal.store[i] by {
                if i != slot {
                    let q = choose|q: int| 0 <= q < p + 1 && #[trigger] order[q] == i;
                    assert(reached(order, p as int, i));
                }
            }
        }
        p += 1;
    }
    proof {
        lemma_space_wf(before);
        assert forall|i: int| 0 <= i < before@.store.len() implies (
        #[trigger] space@.store[i]).model().wf() && space@.store[i].model() == goal.store[i] by {
            if order.contains(i as usize) {
                let q = choose|q: int| 0 <= q < order.len() && order[q] == i as usize;
                assert(reached(order, p as int, i));
            } else {
                assert(!reached(order, p as int, i));
            }
        }
        assert(space_model(*space).store =~= goal.store);
        lemma_wf_space(*space);
    }
}

impl<Data> Cell<Selectable<Data>> {
    /// The paths, from this cell on, to the selected cells that can be
    /// seen in it.
    pub fn selected_cells(&self) -> (paths: Vec<Vec<TimelessIndex>>)
        requires
            self.model().wf(),
        ensures
            paths@.len() == self.model().picks().len(),
            forall|i: int| 0 <= i < paths@.len() ==> (#[trigger] paths@[i])@ == self.model().picks()[i],
        decreases *self, 0int,
    {
        if self.meta.data.selected {
            let mut paths: Vec<Vec<TimelessIndex>> = Vec::new();
            paths.push(Vec::new());
            paths
        } else {
            match &self.content {
                None => Vec::new(),
                Some(space) => space_picks(space),
            }
        }
    }
}

/// The paths to the selected cells that can be seen in a space.
pub fn space_picks<Data>(space: &TracingVec<Cell<Selectable<Data>>>) -> (paths: Vec<Vec<TimelessIndex>>)
    requires
        cells_wf(space_model(*space)),
    ensures
        paths@.len() == picks_in(space_model(*space), space_model(*space).latest().len() as int).len(),
        forall|i: int|
            0 <= i < paths@.len() ==> (#[trigger] paths@[i])@ == picks_in(
                space_model(*space),
                space_model(*space).latest().len() as int,
            )[i],
    decreases *space, 1int,
{
    proof {
        lemma_space_wf(*space);
    }
    let ghost model = space_model(*space);
    let alive = space.iter_timeless_indices();
    let mut paths: Vec<Vec<TimelessIndex>> = Vec::new();
    let mut p: usize = 0;
    while p < alive.len()
        invariant
            space.wf(),
            cells_wf(space_model(*space)),
            model == space_model(*space),
            p <= alive.len(),
            alive@.len() == model.latest().len(),
            forall|q: int|
                0 <= q < alive@.len() ==> (#[trigger] alive@[q]).0.pos == space@.latest()[q]
                    && *alive@[q].1 == space@.latest_values()[q],
            paths@.len() == picks_in(model, p as int).len(),
            forall|i: int| 0 <= i < paths@.len() ==> (#[trigger] paths@[i])@ == picks_in(model, p as int)[i],
        decreases alive.len() - p,
    {
        let index = alive[p].0;
        let cell = alive[p].1;
        proof {
            lemma_space_wf(*space);
            assert(space@.snapshots[space@.pseudotime()][p as int] < space@.store.len());
            assert(cell.model() == model.store[index.pos as int]);
            space.lemma_store_decreases(index.pos as int);
        }
        let inner = cell.selected_cells();
        let ghost before = picks_in(model, p as int);
        let ghost added = prefixed(index, cell.model().picks());
        assert(picks_in(model, p + 1) == before + added);
        let mut k: usize = 0;
        while k < inner.len()
            invariant
                k <= inner.len(),
                inner@.len() == added.len(),
                forall|i: int|
                    0 <= i < inner@.len() ==> seq![index] + (#[trigger] inner@[i])@ == added[i],
                paths@.len() == before.len() + k,
                forall|i: int| 0 <= i < before.len() ==> (#[trigger] paths@[i])@ == before[i],
                forall|i: int|
                    before.len() <= i < paths@.len() ==> (#[trigger] paths@[i])@ == added[i
                        - before.len()],
            decreases inner.len() - k,
        {
            let mut path: Vec<TimelessIndex> = Vec::new();
            path.push(index);
            let rest = &inner[k];
            let mut j: usize = 0;
            while j < rest.len()
                invariant
                    j <= rest.len(),
                    path@ == seq![index] + rest@.take(j as int),
                decreases rest.len() - j,
            {
                path.push(rest[j]);
                assert(rest@.take(j + 1) =~= rest@.take(j as int).push(rest@[j as int]));
                j += 1;
            }
            assert(rest@.take(j as int) =~= rest@);
            paths.push(path);
            k += 1;
        }
        p += 1;
    }
    paths
}

/// What an optional selection says.
pub open spec fn picked_view(sel: Option<Selection>) -> Option<Picked> {
    match sel {
        Some(sel) => Some(sel@),
        None => None,
    }
}

/// A cell that a path leads to is still there after marks were taken off.
pub proof fn lemma_unselected_cell<Data>(
    space: Traces<CellModel<Selectable<Data>>>,
    path: Seq<TimelessIndex>,
)
    requires
        cell_at(space, path) is Some,
    ensures
        cell_at(unselected_all(space), path) is Some,
    decreases path.len(),
{
    if path.len() > 1 {
        let outer = space.store[path[0].pos as int];
        let inner = outer.content->Some_0;
        if space.latest().contains(path[0].pos) {
            lemma_unselected_cell(inner, path.drop_first());
        }
    }
}

impl<Data> Diagram<Selectable<Data>> {
    /// The selection that the selected cells of this layer make, if there
    /// are any: the first of them, in the order in which the cells stand,
    /// and those that share its parent.
    pub fn selected_cells_no_prev(&self) -> (res: Option<Selection>)
        requires
            self.wf(),
        ensures
            picked_view(res) == self@.picked_here(),
            res is Some ==> res->Some_0.wf(),
    {
        let level = self.level() - 1;
        let all = space_picks(&self.cells);
        let ghost paths = picks_in(self@.cells, self@.cells.latest().len() as int);
        if all.len() == 0 || all[0].len() == 0 {
            return None;
        }
        let mut parent = copy_path(&all[0]);
        parent.pop();
        let ghost pred = sibling(parent@);
        let mut heads: Vec<TimelessIndex> = Vec::new();
        let mut i: usize = 0;
        assert(paths.take(0).filter(pred) =~= Seq::<Seq<TimelessIndex>>::empty()) by {
            reveal(Seq::filter);
        }
        while i < all.len()
            invariant
                i <= all.len(),
                all@.len() == paths.len(),
                forall|k: int| 0 <= k < all@.len() ==> (#[trigger] all@[k])@ == paths[k],
                pred == sibling(parent@),
                heads@.len() == paths.take(i as int).filter(pred).len(),
                forall|k: int|
                    0 <= k < heads@.len() ==> #[trigger] heads@[k] == paths.take(i as int).filter(
                        pred,
                    )[k].last(),
            decreases all.len() - i,
        {
            let path = &all[i];
            proof {
                assert(paths.take(i + 1) =~= paths.take(i as int).push(paths[i as int]));
                paths.take(i as int).lemma_filter_push(paths[i as int], pred);
            }
            if path.len() > 0
                && path.len() - 1 == parent.len()
                && crate::opetope::viewing::starts_with(
                path,
                &parent,
            ) {
                assert(path@.drop_last() =~= parent@);
                heads.push(path[path.len() - 1]);
            } else {
                proof {
                    if path@.len() > 0 && path@.drop_last() == parent@ {
                        assert(parent@.is_prefix_of(path@));
                    }
                }
            }
            i += 1;
        }
        proof {
            assert(paths.take(i as int) =~= paths);
            let kept = paths.filter(pred);
            assert(heads@ =~= Seq::new(kept.len(), |i: int| kept[i].last()));
            assert(pred(paths[0]));
            paths.lemma_filter_contains(pred, 0);
        }
        Some(Selection::siblings(level, parent, heads))
    }

    /// The selection of the stack: that of the first layer, from the top,
    /// that has selected cells.
    pub fn selected_cells(&self) -> (res: Option<Selection>)
        requires
            self.wf(),
        ensures
            picked_view(res) == self@.stack().picked(),
            res is Some ==> res->Some_0.wf(),
        decreases *self, 0int,
    {
        match self.selected_cells_no_prev() {
            Some(sel) => Some(sel),
            None => self.prev.selected_cells(),
        }
    }

    /// Takes the marks off the cells of this layer and, if it lies above
    /// the given depth, off those of the layers beneath as far as they do.
    pub fn unselect_all(&mut self, max_depth: usize)
        requires
            old(self).wf(),
        ensures
            final(self).wf(),
            final(self)@ == old(self)@.unselected(max_depth as nat),
            old(self)@.stack().sound() ==> final(self)@.stack().sound(),
        decreases *old(self), 0int,
    {
        proof {
            self@.prev.lemma_unselected(max_depth as nat);
            if self@.stack().sound() {
                self@.stack().lemma_unselected_sound(max_depth as nat);
            }
        }
        if max_depth < self.level() {
            self.prev.unselect_all(max_depth);
        }
        unselect_space(&mut self.cells);
    }

    /// Turns over the mark of the cell of this layer that the path of the
    /// address leads to, whatever else is marked. Refused, with nothing
    /// changed, where there is no such cell.
    pub fn select_unchecked(&mut self, cell: &ViewIndex) -> (res: Result<(), Error>)
        requires
            old(self).wf(),
        ensures
            final(self).wf(),
            final(self)@.prev == old(self)@.prev,
            match res {
                Ok(_) => cell_at(old(self)@.cells, cell@.path()) is Some && final(self)@.cells
                    == with_cell(
                    old(self)@.cells,
                    cell@.path(),
                    cell_at(old(self)@.cells, cell@.path())->Some_0.toggled(),
                ),
                Err(e) => cell_at(old(self)@.cells, cell@.path()) is None && e@ == Fault::NoSuchCell(
                    cell@,
                ) && final(self)@ == old(self)@,
            },
    {
        let path = cell.path();
        assert(path@.skip(0) =~= path@);
        match cell_mut(&mut self.cells, &path, 0) {
            Some(found) => {
                found.meta.data.select();
                Ok(())
            },
            None => Err(Error::NoSuchCell(cell.clone())),
        }
    }

    /// Turns over the mark of the addressed cell. Before that, the marks
    /// are taken off the cells of all other layers and, if the selection
    /// of the layer of the cell has another parent, off the cells of that
    /// layer too. Gives the selection that is left. Refused, with nothing
    /// changed, where there is no such cell.
    ///
    /// Where no cell of the stack was selected and the cell can be seen,
    /// the selection that is left is that cell alone.
    pub fn select(&mut self, cell: &ViewIndex) -> (res: Result<Option<Selection>, Error>)
        requires
            old(self).wf(),
            cell.wf(),
        ensures
            final(self).wf(),
            final(self)@.level() == old(self)@.level(),
            old(self)@.stack().sound() ==> final(self)@.stack().sound(),
            match res {
                Ok(sel) => old(self)@.selected(cell@) == Ok::<
                    (Layer<Selectable<Data>>, Option<Picked>),
                    Fault,
                >((final(self)@, picked_view(sel))),
                Err(e) => old(self)@.selected(cell@) == Err::<
                    (Layer<Selectable<Data>>, Option<Picked>),
                    Fault,
                >(e@) && final(self)@ == old(self)@,
            },
            old(self)@.stack().picked() is None && old(self)@.stack().shows(cell@) ==> res is Ok
                && picked_view(res->Ok_0) == Some(only(cell@)) && final(self)@.stack().picked()
                == Some(only(cell@)),
        decreases *old(self), 0int,
    {
        proof {
            if self@.stack().picked() is None && self@.stack().shows(cell@) {
                self@.stack().lemma_select_then_picked(cell@);
            }
            if self@.stack().sound() && self@.stack().selected(cell@) is Ok {
                self@.stack().lemma_selected_sound(cell@);
            }
        }
        let own = self.level();
        if cell.above_level(own) {
            Err(Error::TooMuchDepth(cell.level()))
        } else if cell.at_level(own) {
            let path = cell.path();
            if self.get(&path).is_none() {
                return Err(Error::NoSuchCell(cell.clone()));
            }
            proof {
                self@.prev.lemma_unselected(0);
            }
            self.prev.unselect_all(0);
            let ghost cleared = self@;
            assert(cleared == (Layer { prev: old(self)@.prev.unselected(0), ..old(self)@ }));
            let stray = match self.selected_cells_no_prev() {
                Some(sel) => !same_path(&sel.common_path(), &cell.tail()),
                None => false,
            };
            if stray {
                proof {
                    lemma_unselected_cell(self@.cells, path@);
                }
                unselect_space(&mut self.cells);
            }
            let ghost confined = self@;
            assert(confined == (match cleared.picked_here() {
                Some(picked) => if picked.common_path() != cell@.tail() {
                    Layer { cells: unselected_all(cleared.cells), ..cleared }
                } else {
                    cleared
                },
                None => cleared,
            }));
            assert(cell_at(confined.cells, path@) is Some);
            match self.select_unchecked(cell) {
                Ok(_) => {},
                Err(_) => {
                    proof {
                        assert(false);
                    }
                },
            }
            assert(self@ == (Layer {
                cells: with_cell(
                    confined.cells,
                    path@,
                    cell_at(confined.cells, path@)->Some_0.toggled(),
                ),
                ..confined
            }));
            Ok(self.selected_cells())
        } else {
            match self.prev.select(cell) {
                Ok(sel) => {
                    unselect_space(&mut self.cells);
                    Ok(sel)
                },
                Err(e) => Err(e),
            }
        }
    }
}

impl<Data> Tail<Selectable<Data>> {
    /// The selection of the stack: that of the first layer, from the top,
    /// that has selected cells.
    pub fn selected_cells(&self) -> (res: Option<Selection>)
        requires
            self.wf(),
        ensures
            picked_view(res) == self@.picked(),
            res is Some ==> res->Some_0.wf(),
        decreases *self, 1int,
    {
        match self {
            Tail::Tower(tower) => tower.selected_cells(),
            Tail::Diagram(diagram) => diagram.selected_cells(),
        }
    }

    /// Takes the marks off the cells of the top layer and, if it lies
    /// above the given depth, off those of the layers beneath as far as
    /// they do. The marks of a tower are taken off whatever the depth.
    pub fn unselect_all(&mut self, max_depth: usize)
        requires
            old(self).wf(),
        ensures
            final(self).wf(),
            final(self)@ == old(self)@.unselected(max_depth as nat),
            old(self)@.sound() ==> final(self)@.sound(),
        decreases *old(self), 1int,
    {
        match self {
            Tail::Tower(tower) => tower.unselect_all(max_depth),
            Tail::Diagram(diagram) => diagram.unselect_all(max_depth),
        }
    }

    /// Turns over the mark of the addressed cell, and confines the marks
    /// to its layer and to the cells of its parent.
    pub fn select(&mut self, cell: &ViewIndex) -> (res: Result<Option<Selection>, Error>)
        requires
            old(self).wf(),
            cell.wf(),
        ensures
            final(self).wf(),
            final(self)@.level() == old(self)@.level(),
            old(self)@.sound() ==> final(self)@.sound(),
            match res {
                Ok(sel) => old(self)@.selected(cell@) == Ok::<
                    (Stack<Selectable<Data>>, Option<Picked>),
                    Fault,
                >((final(self)@, picked_view(sel))),
                Err(e) => old(self)@.selected(cell@) == Err::<
                    (Stack<Selectable<Data>>, Option<Picked>),
                    Fault,
                >(e@) && final(self)@ == old(self)@,
            },
            old(self)@.picked() is None && old(self)@.shows(cell@) ==> res is Ok && picked_view(
                res->Ok_0,
            ) == Some(only(cell@)) && final(self)@.picked() == Some(only(cell@)),
        decreases *old(self), 1int,
    {
        proof {
            if self@.picked() is None && self@.shows(cell@) {
                self@.lemma_select_then_picked(cell@);
            }
        }
        match self {
            Tail::Tower(tower) => tower.select(cell),
            Tail::Diagram(diagram) => diagram.select(cell),
        }
    }
}

} // verus!
