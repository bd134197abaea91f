//! The lines of faces: how they follow the cells that they point at, and
//! how the cells that they point at are ordered.

use super::space::{cell_at, lemma_space_wf, lemma_wf_space, space_at, space_ref};
use super::{cells_wf, space_model, Boundary, Cell, CellModel, Diagram, Face};
use crate::model::tracing_vec::{IndexError, TimelessIndex, Traces, TracingIndex, TracingVec};
use crate::opetope::tower;
use crate::opetope::viewing::{lines, Line, Picked, Selection, ViewIndex};
use crate::opetope::{Error, Fault, Layer, Stack, Tail};
use vstd::prelude::*;

verus! {

impl Boundary {
    /// The boundary with `sub` in place of `prefix` in every line.
    pub open spec fn substituted(self, prefix: Seq<TimelessIndex>, sub: Seq<TimelessIndex>) -> Self {
        Boundary {
            ends: Seq::new(self.ends.len(), |i: int| self.ends[i].substituted(prefix, sub)),
            fill: self.fill.substituted(prefix, sub),
        }
    }
}

impl<Data> CellModel<Data> {
    /// The cell with `sub` in place of `prefix` in every line of every cell
    /// that is alive in it. Its own face is left as it is.
    pub open spec fn relined(self, prefix: Seq<TimelessIndex>, sub: Seq<TimelessIndex>) -> Self
        decreases self, 0int,
    {
        CellModel {
            data: self.data,
            face: self.face,
            content: match self.content {
                None => None,
                Some(space) => Some(relined(space, prefix, sub)),
            },
        }
    }
}

/// The space with `sub` in place of `prefix` in every line of every cell
/// that is alive in it, nested ones included. Cells that are no longer
/// alive keep their lines.
pub open spec fn relined<Data>(
    space: Traces<CellModel<Data>>,
    prefix: Seq<TimelessIndex>,
    sub: Seq<TimelessIndex>,
) -> Traces<CellModel<Data>>
    decreases space, 1int,
{
    Traces {
        store: Seq::new(
            space.store.len(),
            |i: int|
                if 0 <= i < space.store.len() && space.latest().contains(i as usize) {
                    let cell = space.store[i].relined(prefix, sub);
                    CellModel { face: cell.face.substituted(prefix, sub), ..cell }
                } else {
                    space.store[i]
                },
        ),
        births: space.births,
        snapshots: space.snapshots,
    }
}

/// The space after one replacement of lines for each of the first `n`
/// pairs of an old and a new line, in order.
pub open spec fn relined_all<Data>(
    space: Traces<CellModel<Data>>,
    old_lines: Seq<Line>,
    new_lines: Seq<Line>,
    n: int,
) -> Traces<CellModel<Data>>
    decreases n,
{
    if n <= 0 {
        space
    } else {
        relined(
            relined_all(space, old_lines, new_lines, n - 1),
            old_lines[n - 1].path(),
            new_lines[n - 1].path(),
        )
    }
}

/// The cell that a path leads to is, after a replacement of lines, still
/// there, with as many lines coming in, and an end if it was one.
pub proof fn lemma_relined_cell<Data>(
    space: Traces<CellModel<Data>>,
    prefix: Seq<TimelessIndex>,
    sub: Seq<TimelessIndex>,
    path: Seq<TimelessIndex>,
)
    requires
        cell_at(space, path) is Some,
    ensures
        cell_at(relined(space, prefix, sub), path) is Some,
        cell_at(relined(space, prefix, sub), path)->Some_0.face.ends.len() == cell_at(
            space,
            path,
        )->Some_0.face.ends.len(),
        cell_at(relined(space, prefix, sub), path)->Some_0.content is None == cell_at(
            space,
            path,
        )->Some_0.content is None,
    decreases path.len(),
{
    if path.len() > 1 {
        let outer = space.store[path[0].pos as int];
        let inner = outer.content->Some_0;
        if space.latest().contains(path[0].pos) {
            lemma_relined_cell(inner, prefix, sub, path.drop_first());
        }
    }
}

/// The same, after several replacements.
pub proof fn lemma_relined_all_cell<Data>(
    space: Traces<CellModel<Data>>,
    old_lines: Seq<Line>,
    new_lines: Seq<Line>,
    n: int,
    path: Seq<TimelessIndex>,
)
    requires
        cell_at(space, path) is Some,
    ensures
        cell_at(relined_all(space, old_lines, new_lines, n), path) is Some,
        cell_at(relined_all(space, old_lines, new_lines, n), path)->Some_0.face.ends.len()
            == cell_at(space, path)->Some_0.face.ends.len(),
        cell_at(relined_all(space, old_lines, new_lines, n), path)->Some_0.content is None
            == cell_at(space, path)->Some_0.content is None,
    decreases n,
{
    if n > 0 {
        lemma_relined_all_cell(space, old_lines, new_lines, n - 1, path);
        lemma_relined_cell(
            relined_all(space, old_lines, new_lines, n - 1),
            old_lines[n - 1].path(),
            new_lines[n - 1].path(),
            path,
        );
    }
}

impl Face {
    fn subst_prefix(&mut self, prefix: &Vec<TimelessIndex>, sub: &Vec<TimelessIndex>)
        ensures
            final(self)@ == old(self)@.substituted(prefix@, sub@),
    {
        self.fill.subst_prefix(prefix, sub);
        let mut i: usize = 0;
        while i < self.ends.len()
            invariant
                i <= self.ends.len(),
                self.ends@.len() == old(self).ends@.len(),
                self.fill@ == old(self).fill@.substituted(prefix@, sub@),
                forall|k: int|
                    0 <= k < i ==> (#[trigger] self.ends@[k])@ == old(self).ends@[k]@.substituted(
                        prefix@,
                        sub@,
                    ),
                forall|k: int| i <= k < self.ends@.len() ==> self.ends@[k] == old(self).ends@[k],
            decreases self.ends.len() - i,
        {
            self.ends[i].subst_prefix(prefix, sub);
            i += 1;
        }
        assert(self@.ends =~= old(self)@.substituted(prefix@, sub@).ends);
    }
}

/// Whether a slot is among the first `p` of an order.
pub open spec fn reached(order: Seq<usize>, p: int, slot: int) -> bool {
    exists|q: int| 0 <= q < p && #[trigger] order[q] == slot
}

/// Puts `sub` in place of `prefix` in every line of every cell that is
/// alive in the space, nested ones included.
pub fn replace_line<Data>(
    space: &mut TracingVec<Cell<Data>>,
    prefix: &Vec<TimelessIndex>,
    sub: &Vec<TimelessIndex>,
)
    requires
        cells_wf(space_model(*old(space))),
    ensures
        cells_wf(space_model(*final(space))),
        space_model(*final(space)) == relined(space_model(*old(space)), prefix@, sub@),
    decreases *old(space),
{
    proof {
        lemma_space_wf(*space);
    }
    let alive = space.timeless_indices();
    let ghost before = *space;
    let ghost goal = relined(space_model(before), prefix@, sub@);
    let ghost order = before@.latest();
    let mut p: usize = 0;
    while p < alive.len()
        invariant
            space.wf(),
            cells_wf(space_model(before)),
            before == *old(space),
            order == before@.latest(),
            goal == relined(space_model(before), prefix@, sub@),
            p <= alive.len(),
            alive@.len() == order.len(),
            forall|q: int| 0 <= q < alive@.len() ==> (#[trigger] alive@[q]).pos == order[q],
            space@.births == before@.births,
            space@.snapshots == before@.snapshots,
            space@.store.len() == before@.store.len(),
            forall|i: int|
                0 <= i < before@.store.len() && !reached(order, p as int, i) ==> (
                #[trigger] space@.store[i]) == before@.store[i],
            forall|i: int|
                0 <= i < before@.store.len() && reached(order, p as int, i) ==> (
                #[trigger] space@.store[i]).model().wf() && space@.store[i].model()
                    == goal.store[i],
        decreases alive.len() - p,
    {
        let slot = alive[p].pos;
        proof {
            lemma_space_wf(before);
            assert(before@.snapshots[before@.pseudotime()][p as int] < before@.store.len());
            assert(order.no_duplicates());
            if reached(order, p as int, slot as int) {
                let q = choose|q: int| 0 <= q < p && #[trigger] order[q] == slot as int;
                assert(order[q] == order[p as int]);
            }
            before.lemma_store_decreases(slot as int);
        }
        let cell = space.slot_mut(slot);
        let ghost old_cell = *cell;
        assert(old_cell == before@.store[slot as int]);
        assert(old_cell.model().wf());
        cell.meta.face.subst_prefix(prefix, sub);
        match &mut cell.content {
            Some(inner) => {
                replace_line(inner, prefix, sub);
            },
            None => {},
        }
        proof {
            assert(order.contains(slot));
            assert(cell.model().wf());
            assert(cell.model() == goal.store[slot as int]);
            assert forall|i: int|
                0 <= i < before@.store.len() && !reached(order, p + 1, i) implies (
            #[trigger] space@.store[i]) == before@.store[i] by {
                assert(!reached(order, p as int, i));
                assert(i != slot);
            }
            assert forall|i: int|
                0 <= i < before@.store.len() && reached(order, p + 1, i) implies (
            #[trigger] space@.store[i]).model().wf() && space@.store[i].model()
                == goal.store[i] by {
                if i != slot {
                    let q = choose|q: int| 0 <= q < p + 1 && #[trigger] order[q] == i;
                    assert(reached(order, p as int, i));
                }
            }
        }
        p += 1;
    }
    proof {
        lemma_space_wf(before);
        assert forall|i: int| 0 <= i < before@.store.len() implies (
        #[trigger] space@.store[i]).model().wf() && space@.store[i].model() == goal.store[i] by {
            if order.contains(i as usize) {
                let q = choose|q: int| 0 <= q < order.len() && order[q] == i as usize;
                assert(reached(order, p as int, i));
            } else {
                assert(!reached(order, p as int, i));
            }
        }
        assert(space_model(*space).store =~= goal.store);
        lemma_wf_space(*space);
    }
}

/// How far two paths go together, counted from slot `k` on, up to which
/// they are known to agree.
pub open spec fn common_from(a: Seq<TimelessIndex>, b: Seq<TimelessIndex>, k: int) -> int
    decreases a.len() - k,
{
    if 0 <= k < a.len() && k < b.len() && a[k] == b[k] {
        common_from(a, b, k + 1)
    } else {
        k
    }
}

/// Whether the cell of the first path stands before that of the second:
/// where the paths part, in the space that both have reached, the slot of
/// the first is alive before that of the second. A path that goes on from
/// the end of the other counts as before; paths that part in no space, or
/// at cells that are not alive, do not.
pub open spec fn ordered<Data>(
    space: Traces<CellModel<Data>>,
    a: Seq<TimelessIndex>,
    b: Seq<TimelessIndex>,
) -> bool {
    let k = common_from(a, b, 0);
    if k >= a.len() || k >= b.len() {
        true
    } else {
        match space_at(space, a.take(k)) {
            None => false,
            Some(inner) => inner.before(TracingIndex::Timeless(a[k]), TracingIndex::Timeless(b[k]))
                == Ok::<bool, IndexError>(true),
        }
    }
}

impl<Data> Layer<Data> {
    /// Whether both lines point into this layer and the cell of the first
    /// stands before that of the second.
    pub open spec fn before(self, a: Line, b: Line) -> bool {
        a.level() == self.level() && b.level() == self.level() && ordered(
            self.cells,
            a.path(),
            b.path(),
        )
    }

    /// Whether a line points at a cell that is alive at the top of this
    /// layer, in no group.
    pub open spec fn is_top(self, line: Line) -> bool {
        line.level() == self.level() && line.path().len() == 1 && self.cells.latest().contains(
            line.path()[0].pos,
        )
    }

    /// Whether all the selected cells are alive at the top of their layer,
    /// in no group; for the tower, whether the selected cell is the last.
    pub open spec fn at_bottom(self, picked: Picked) -> Result<bool, Fault>
        decreases self, 0int,
    {
        if picked.level() > self.level() {
            Err(Fault::TooMuchDepth(picked.level() as usize))
        } else if picked.level() == self.level() {
            Ok(
                forall|i: int|
                    0 <= i < picked.cells().len() ==> self.is_top(#[trigger] picked.cells()[i]),
            )
        } else {
            self.prev.at_bottom(picked)
        }
    }
}

impl<Data> Stack<Data> {
    /// Whether both lines point into the top layer and the cell of the
    /// first stands before that of the second.
    pub open spec fn before(self, a: Line, b: Line) -> bool {
        match self {
            Stack::Tower(cells) => tower::before(cells, a, b),
            Stack::Diagram(layer) => layer.before(a, b),
        }
    }

    pub open spec fn at_bottom(self, picked: Picked) -> Result<bool, Fault>
        decreases self, 1int,
    {
        match self {
            Stack::Tower(cells) => tower::at_bottom(cells, picked),
            Stack::Diagram(layer) => layer.at_bottom(picked),
        }
    }

    /// Of some lines, the one whose cell stands after those of all the
    /// others: the last of the lines that no later one is before.
    pub open spec fn lowest(self, lines: Seq<Line>) -> Line
        decreases lines.len(),
    {
        if lines.len() <= 1 {
            lines[0]
        } else {
            let rest = self.lowest(lines.drop_last());
            if self.before(rest, lines.last()) {
                lines.last()
            } else {
                rest
            }
        }
    }
}

/// Whether the cell of the first path stands before that of the second.
pub fn paths_ordered<Data>(
    space: &TracingVec<Cell<Data>>,
    a: &Vec<TimelessIndex>,
    b: &Vec<TimelessIndex>,
) -> (res: bool)
    requires
        cells_wf(space_model(*space)),
    ensures
        res == ordered(space_model(*space), a@, b@),
{
    let mut k: usize = 0;
    let mut common: Vec<TimelessIndex> = Vec::new();
    while k < a.len() && k < b.len() && a[k].pos == b[k].pos
        invariant
            k <= a.len(),
            k <= b.len(),
            common@ == a@.take(k as int),
            common_from(a@, b@, 0) == common_from(a@, b@, k as int),
        decreases a.len() - k,
    {
        common.push(a[k]);
        assert(a@.take(k + 1) =~= a@.take(k as int).push(a@[k as int]));
        k += 1;
    }
    if k >= a.len() || k >= b.len() {
        return true;
    }
    assert(a@[k as int] != b@[k as int]);
    match space_ref(space, &common) {
        None => false,
        Some(inner) => {
            proof {
                lemma_space_wf(*inner);
                super::space::lemma_model_is_map(*inner);
                inner@.lemma_map_indices(super::space::modeller(), TracingIndex::Timeless(a@[k as int]));
                inner@.lemma_map_indices(super::space::modeller(), TracingIndex::Timeless(b@[k as int]));
            }
            match inner.is_before(TracingIndex::Timeless(a[k]), TracingIndex::Timeless(b[k])) {
                Ok(res) => res,
                Err(_) => false,
            }
        },
    }
}

impl<Data> Diagram<Data> {
    /// Whether both addresses name cells of this layer and the first cell
    /// stands before the second.
    pub fn is_before(&self, before: &ViewIndex, after: &ViewIndex) -> (res: bool)
        requires
            self.wf(),
        ensures
            res == self@.before(before@, after@),
    {
        let level = self.level();
        if !before.at_level(level) || !after.at_level(level) {
            return false;
        }
        let a = before.path();
        let b = after.path();
        paths_ordered(&self.cells, &a, &b)
    }

    /// Whether all the selected cells are alive at the top of their layer,
    /// in no group; for the tower, whether the selected cell is the last.
    pub fn is_at_bottom(&self, cells: &Selection) -> (res: Result<bool, Error>)
        requires
            self.wf(),
            cells.wf(),
        ensures
            match res {
                Ok(b) => self@.at_bottom(cells@) == Ok::<bool, Fault>(b),
                Err(e) => self@.at_bottom(cells@) == Err::<bool, Fault>(e@),
            },
        decreases *self, 0int,
    {
        let level = self.level();
        if cells.above_level(level) {
            Err(Error::TooMuchDepth(cells.level()))
        } else if cells.at_level(level) {
            match cells.as_ground() {
                Some(_) => Ok(false),
                None => {
                    let path = cells.common_path();
                    let heads = cells.heads();
                    proof {
                        lemma_space_wf(self.cells);
                        super::space::lemma_model_is_map(self.cells);
                    }
                    let mut i: usize = 0;
                    while i < heads.len()
                        invariant
                            self.wf(),
                            i <= heads.len(),
                            cells@ == (Picked::Leveled {
                                level: (level - 1) as usize,
                                path: path@,
                                cells: heads@,
                            }),
                            level == self@.level(),
                            forall|k: int| 0 <= k < i ==> self@.is_top(#[trigger] cells@.cells()[k]),
                        decreases heads.len() - i,
                    {
                        proof {
                            lemma_space_wf(self.cells);
                        }
                        let alive = path.len() == 0 && self.cells.is_alive(
                            TracingIndex::Timeless(heads[i]),
                        );
                        if !alive {
                            assert(!self@.is_top(cells@.cells()[i as int]));
                            return Ok(false);
                        }
                        assert(path@.push(heads@[i as int]) =~= seq![heads@[i as int]]);
                        i += 1;
                    }
                    Ok(true)
                },
            }
        } else {
            self.prev.is_at_bottom(cells)
        }
    }
}

impl<Data> Tail<Data> {
    /// Whether both addresses name cells of the top layer and the first
    /// cell stands before the second.
    pub fn is_before(&self, before: &ViewIndex, after: &ViewIndex) -> (res: bool)
        requires
            self.wf(),
        ensures
            res == self@.before(before@, after@),
    {
        match self {
            Tail::Tower(tower) => tower.is_before(before, after),
            Tail::Diagram(diagram) => diagram.is_before(before, after),
        }
    }

    /// Whether all the selected cells are alive at the top of their layer,
    /// in no group; for the tower, whether the selected cell is the last.
    pub fn is_at_bottom(&self, cells: &Selection) -> (res: Result<bool, Error>)
        requires
            self.wf(),
            cells.wf(),
        ensures
            match res {
                Ok(b) => self@.at_bottom(cells@) == Ok::<bool, Fault>(b),
                Err(e) => self@.at_bottom(cells@) == Err::<bool, Fault>(e@),
            },
        decreases *self, 1int,
    {
        match self {
            Tail::Tower(tower) => tower.is_at_bottom(cells),
            Tail::Diagram(diagram) => diagram.is_at_bottom(cells),
        }
    }

    /// Of some addresses, the place of the one whose cell stands after
    /// those of all the others.
    pub fn lowest(&self, all: &Vec<ViewIndex>) -> (at: usize)
        requires
            self.wf(),
            all@.len() > 0,
        ensures
            at < all@.len(),
            all@[at as int]@ == self@.lowest(lines(all@)),
    {
        let mut at: usize = 0;
        let mut i: usize = 1;
        assert(lines(all@).take(1).len() == 1);
        while i < all.len()
            invariant
                self.wf(),
                1 <= i <= all.len(),
                at < i,
                all@[at as int]@ == self@.lowest(lines(all@).take(i as int)),
            decreases all.len() - i,
        {
            proof {
                let now = lines(all@).take(i + 1);
                assert(now.drop_last() =~= lines(all@).take(i as int));
                assert(now.last() == all@[i as int]@);
            }
            if self.is_before(&all[at], &all[i]) {
                at = i;
            }
            i += 1;
        }
        assert(lines(all@).take(i as int) =~= lines(all@));
        at
    }
}

impl<Data> Diagram<Data> {
    /// Puts, for each pair of an old and a new address, the path of the
    /// new one in place of that of the old one in every line of every cell
    /// that is alive in the layer.
    pub fn replace_lines(&mut self, old_lines: &Vec<ViewIndex>, new_lines: &Vec<ViewIndex>)
        requires
            old(self).wf(),
            old_lines@.len() == new_lines@.len(),
        ensures
            final(self).wf(),
            final(self)@ == (Layer {
                cells: relined_all(
                    old(self)@.cells,
                    lines(old_lines@),
                    lines(new_lines@),
                    old_lines@.len() as int,
                ),
                ..old(self)@
            }),
    {
        let mut i: usize = 0;
        while i < old_lines.len()
            invariant
                i <= old_lines.len(),
                old_lines@.len() == new_lines@.len(),
                self.wf(),
                self@.prev == old(self)@.prev,
                self@.cells == relined_all(
                    old(self)@.cells,
                    lines(old_lines@),
                    lines(new_lines@),
                    i as int,
                ),
            decreases old_lines.len() - i,
        {
            let prefix = old_lines[i].path();
            let sub = new_lines[i].path();
            replace_line(&mut self.cells, &prefix, &sub);
            i += 1;
        }
    }
}

} // verus!
