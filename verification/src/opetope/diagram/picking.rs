//! The selection that one mark makes: a cell that is marked in a stack
//! without marks is, alone, the selection of the stack.

use super::selecting::{
    picked_of, picks_in, prefixed, sibling, tower_picked, tower_unselected, unselected_all,
};
use super::space::{cell_at, with_cell};
use super::{cells_wf, CellModel};
use crate::model::tracing_vec::{TimelessIndex, Traces};
use crate::opetope::data::Selectable;
use crate::opetope::viewing::{Line, Picked};
use crate::opetope::Stack;
use vstd::prelude::*;

verus! {

/// Whether a path leads to a cell that can be seen in a space: from slot
/// to slot through the contents of groups, each cell alive in its space.
pub open spec fn seen<Data>(space: Traces<CellModel<Data>>, path: Seq<TimelessIndex>) -> bool
    decreases path.len(),
{
    &&& path.len() > 0
    &&& path[0].pos < space.store.len()
    &&& space.latest().contains(path[0].pos)
    &&& (path.len() == 1 || match space.store[path[0].pos as int].content {
        None => false,
        Some(inner) => seen(inner, path.drop_first()),
    })
}

/// The selection that holds the cell of one line and no other.
pub open spec fn only(line: Line) -> Picked {
    match line {
        Line::Ground(index) => Picked::Ground(index),
        Line::Leveled { level, path } => Picked::Leveled {
            level,
            path: path.drop_last(),
            cells: seq![path.last()],
        },
    }
}

/// The selection of one line holds the cell of that line and no other.
pub proof fn lemma_only(line: Line)
    requires
        line is Leveled ==> line.path().len() > 0,
    ensures
        only(line).cells() == seq![line],
        only(line).level() == line.level(),
{
    match line {
        Line::Ground(_) => {},
        Line::Leveled { level, path } => {
            assert(path.drop_last().push(path.last()) =~= path);
            assert(only(line).cells() =~= seq![line]);
        },
    }
}

/// Every path to a selected cell of a space holds one slot at least.
pub proof fn lemma_picks_lead_on<Data>(space: Traces<CellModel<Selectable<Data>>>, n: int, i: int)
    requires
        0 <= i < picks_in(space, n).len(),
    ensures
        picks_in(space, n)[i].len() > 0,
    decreases n,
{
    if n <= 0 || n > space.latest().len() {
    } else {
        let slot = space.latest()[n - 1];
        if i < picks_in(space, n - 1).len() {
            lemma_picks_lead_on(space, n - 1, i);
        }
    }
}

/// Where no selected cell can be seen among the first `n` cells alive
/// in a space, none can be seen among fewer, nor in one of the cells.
pub proof fn lemma_no_picks<Data>(space: Traces<CellModel<Selectable<Data>>>, n: int, k: int)
    requires
        0 <= k < n <= space.latest().len(),
        picks_in(space, n).len() == 0,
    ensures
        picks_in(space, k).len() == 0,
        space.latest()[k] < space.store.len() ==> space.store[space.latest()[k] as int].picks().len()
            == 0,
    decreases n,
{
    if k < n - 1 {
        lemma_no_picks(space, n - 1, k);
    }
}

/// No selected cell can be seen in a space after the marks were taken
/// off its cells.
pub proof fn lemma_unselected_no_picks<Data>(space: Traces<CellModel<Selectable<Data>>>, n: int)
    ensures
        picks_in(unselected_all(space), n).len() == 0,
    decreases space, n,
{
    let after = unselected_all(space);
    if n <= 0 || n > after.latest().len() {
    } else {
        lemma_unselected_no_picks(space, n - 1);
        let slot = after.latest()[n - 1];
        if slot < after.store.len() {
            assert(space.latest()[n - 1] == slot);
            assert(space.latest().contains(slot));
            assert(after.store[slot as int] == space.store[slot as int].unselected());
            match space.store[slot as int].content {
                None => {},
                Some(inner) => {
                    lemma_unselected_no_picks(inner, inner.latest().len() as int);
                },
            }
            assert(after.store[slot as int].picks().len() == 0);
        }
    }
}

/// In a space where no selected cell can be seen, the mark of a cell
/// that can be seen is turned over. Then that cell is the one selected
/// cell that can be seen: among the first `n` cells alive, as soon as
/// these hold the cell at which its path begins.
pub proof fn lemma_one_mark<Data>(
    space: Traces<CellModel<Selectable<Data>>>,
    path: Seq<TimelessIndex>,
    n: int,
)
    requires
        cells_wf(space),
        seen(space, path),
        picks_in(space, space.latest().len() as int).len() == 0,
        0 <= n <= space.latest().len(),
    ensures
        cell_at(space, path) is Some,
        picks_in(with_cell(space, path, cell_at(space, path)->Some_0.toggled()), n) == if n
            > space.latest().index_of(path[0].pos) {
            seq![path]
        } else {
            Seq::<Seq<TimelessIndex>>::empty()
        },
    decreases path.len(), n,
{
    let full = space.latest().len() as int;
    let slot0 = path[0].pos;
    let q0 = space.latest().index_of(slot0);
    assert(0 <= q0 < full && space.latest()[q0] == slot0);
    assert(space.store[slot0 as int].wf());
    if path.len() > 1 {
        let inner = space.store[slot0 as int].content->Some_0;
        lemma_no_picks(space, full, q0);
        lemma_one_mark(inner, path.drop_first(), inner.latest().len() as int);
    }
    let cell = cell_at(space, path)->Some_0;
    let after = with_cell(space, path, cell.toggled());
    assert(after.latest() == space.latest());
    assert(after.store.len() == space.store.len());
    if n > 0 {
        lemma_one_mark(space, path, n - 1);
        let slot = space.latest()[n - 1];
        assert(space.snapshots[space.pseudotime()][n - 1] < space.store.len());
        lemma_no_picks(space, full, n - 1);
        let first = TimelessIndex { pos: slot };
        if slot == slot0 {
            assert(space.latest().no_duplicates());
            assert(n - 1 == q0);
            assert(first == path[0]);
            if path.len() == 1 {
                assert(after.store[slot as int] == cell.toggled());
                assert(after.store[slot as int].picks() =~= seq![Seq::<TimelessIndex>::empty()]);
                assert(seq![first] + Seq::<TimelessIndex>::empty() =~= path);
            } else {
                let rest = path.drop_first();
                let inner = space.store[slot0 as int].content->Some_0;
                assert(seen(inner, rest));
                assert(inner.latest().contains(rest[0].pos));
                assert(inner.latest().index_of(rest[0].pos) < inner.latest().len());
                assert(after.store[slot as int].picks() =~= seq![rest]);
                assert(seq![first] + rest =~= path);
            }
            assert(prefixed(first, after.store[slot as int].picks()) =~= seq![path]);
            assert(picks_in(after, n) =~= seq![path]);
        } else {
            assert(after.store[slot as int] == space.store[slot as int]);
            assert(prefixed(first, after.store[slot as int].picks()) =~= Seq::<
                Seq<TimelessIndex>,
            >::empty());
            assert(picks_in(after, n) =~= picks_in(after, n - 1));
        }
    }
}

/// The selection that one path makes.
pub proof fn lemma_picked_of_one(level: usize, path: Seq<TimelessIndex>)
    requires
        path.len() > 0,
    ensures
        picked_of(level, seq![path]) == Some(only(Line::Leveled { level, path })),
{
    let pred = sibling(path.drop_last());
    let none = Seq::<Seq<TimelessIndex>>::empty();
    assert(none.filter(pred) =~= none) by {
        reveal(Seq::filter);
    }
    none.lemma_filter_push(path, pred);
    assert(none.push(path) =~= seq![path]);
    let kept = seq![path].filter(pred);
    assert(kept =~= seq![path]);
    assert(Seq::new(kept.len(), |i: int| kept[i].last()) =~= seq![path.last()]);
}

/// Where no selected cell is found among the first `n` cells alive in a
/// tower, none of these is selected.
pub proof fn lemma_tower_no_marks<Data>(cells: Traces<Selectable<Data>>, n: int, k: int)
    requires
        0 <= k < n <= cells.latest().len(),
        tower_picked(cells, n) is None,
    ensures
        !(cells.latest()[k] < cells.store.len() && cells.store[cells.latest()[k] as int].selected),
    decreases n,
{
    if k < n - 1 {
        lemma_tower_no_marks(cells, n - 1, k);
    }
}

/// The cells of a tower after the marks were taken off those that are
/// alive and one of these was marked.
pub open spec fn tower_marked<Data>(cells: Traces<Selectable<Data>>, index: TimelessIndex) -> Traces<
    Selectable<Data>,
> {
    let cleared = tower_unselected(cells);
    Traces {
        store: cleared.store.update(
            index.pos as int,
            Selectable { val: cleared.store[index.pos as int].val, selected: true },
        ),
        ..cleared
    }
}

/// In a tower with one mark, on a cell that is alive, that cell is the
/// selected one: among the first `n` cells alive, as soon as these hold
/// it.
pub proof fn lemma_tower_one_mark<Data>(cells: Traces<Selectable<Data>>, index: TimelessIndex, n: int)
    requires
        cells.wf(),
        index.pos < cells.store.len(),
        cells.latest().contains(index.pos),
        0 <= n <= cells.latest().len(),
    ensures
        tower_picked(tower_marked(cells, index), n) == if n > cells.latest().index_of(index.pos) {
            Some(Picked::Ground(index))
        } else {
            None
        },
    decreases n,
{
    let after = tower_marked(cells, index);
    let q0 = cells.latest().index_of(index.pos);
    assert(0 <= q0 < cells.latest().len() && cells.latest()[q0] == index.pos);
    assert(after.latest() == cells.latest());
    if n > 0 {
        lemma_tower_one_mark(cells, index, n - 1);
        let slot = cells.latest()[n - 1];
        assert(cells.snapshots[cells.pseudotime()][n - 1] < cells.store.len());
        if slot == index.pos {
            assert(cells.latest().no_duplicates());
            assert(n - 1 == q0);
            assert(TimelessIndex { pos: slot } == index);
        } else {
            assert(cells.latest().contains(slot));
            assert(!after.store[slot as int].selected);
        }
    }
}

impl<Data> Stack<Selectable<Data>> {
    /// Whether the line leads to a cell of the stack that can be seen: it
    /// is alive, and so is every group that the path leads through.
    pub open spec fn shows(self, line: Line) -> bool
        decreases self,
    {
        match self {
            Stack::Tower(cells) => match line {
                Line::Ground(index) => index.pos < cells.store.len() && cells.latest().contains(
                    index.pos,
                ),
                Line::Leveled { .. } => false,
            },
            Stack::Diagram(layer) => if line.level() == layer.level() {
                seen(layer.cells, line.path())
            } else {
                line.level() < layer.level() && layer.prev.shows(line)
            },
        }
    }

    /// One mark makes the selection. In a stack in which no cell is
    /// selected, selecting a cell that can be seen succeeds and gives the
    /// selection of that cell alone; and the selection of the stack is
    /// afterwards that of this one cell, and of no cell of another layer.
    pub proof fn lemma_select_then_picked(self, line: Line)
        requires
            self.wf(),
            self.picked() is None,
            self.shows(line),
        ensures
            self.selected(line) is Ok,
            self.selected(line)->Ok_0.1 == Some(only(line)),
            self.selected(line)->Ok_0.0.picked() == Some(only(line)),
            only(line).cells() == seq![line],
        decreases self,
    {
        match self {
            Stack::Tower(cells) => {
                let index = line->Ground_0;
                let full = cells.latest().len() as int;
                let q0 = cells.latest().index_of(index.pos);
                assert(0 <= q0 < full && cells.latest()[q0] == index.pos);
                lemma_tower_no_marks(cells, full, q0);
                lemma_tower_one_mark(cells, index, full);
                lemma_only(line);
                assert(self.selected(line)->Ok_0.0 == Stack::Tower(tower_marked(cells, index)));
            },
            Stack::Diagram(layer) => {
                let full = layer.cells.latest().len() as int;
                if layer.picked_here() is Some {
                    assert(false);
                }
                if picks_in(layer.cells, full).len() > 0 {
                    lemma_picks_lead_on(layer.cells, full, 0);
                    assert(false);
                }
                if line.level() == layer.level() {
                    let path = line.path();
                    let level = line->Leveled_level;
                    assert(line == Line::Leveled { level, path });
                    lemma_only(line);
                    lemma_one_mark(layer.cells, path, full);
                    layer.prev.lemma_unselected(0);
                    lemma_picked_of_one(level, path);
                    let q0 = layer.cells.latest().index_of(path[0].pos);
                    assert(0 <= q0 < full);
                    let after = with_cell(
                        layer.cells,
                        path,
                        cell_at(layer.cells, path)->Some_0.toggled(),
                    );
                    assert(after.latest() == layer.cells.latest());
                    assert(picks_in(after, full) == seq![path]);
                } else {
                    layer.prev.lemma_select_then_picked(line);
                    lemma_unselected_no_picks(layer.cells, full);
                    assert(unselected_all(layer.cells).latest() == layer.cells.latest());
                }
            },
        }
    }
}

} // verus!
