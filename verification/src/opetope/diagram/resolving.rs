//! Lines that resolve: every line of every face of a layer points at a
//! cell of the layer beneath, and the edits keep it so.

use super::copying::cells_clone_of;
use super::grouping::{
    absent, clones_of, dangling, head_slots, inputs, joined_face, members, outer_inputs, outputs,
};
use super::lines::{lemma_relined_all_cell, relined, relined_all};
use super::selecting::{lemma_unselected_cell, unselected_all};
use super::space::{cell_at, lemma_cell_at_wf, lemma_cell_in_space, space_at, with_cell, with_space};
use super::wraps::{find_inputs, lemma_find_inputs, placed, split_cell, wrap_cell};
use super::{Boundary, CellModel, MetaCell};
use crate::model::tracing_vec::{TimelessIndex, Traces, TracingIndex};
use crate::opetope::data::Selectable;
use crate::opetope::tower;
use crate::opetope::viewing::{Line, Picked};
use crate::opetope::{Layer, Outcome, Stack};
use vstd::prelude::*;

verus! {

/// The cell that a path leads to from a cell on: the cell itself for the
/// empty path, a cell in its content otherwise.
pub open spec fn reach<Data>(cell: CellModel<Data>, path: Seq<TimelessIndex>) -> Option<
    CellModel<Data>,
> {
    if path.len() == 0 {
        Some(cell)
    } else {
        match cell.content {
            None => None,
            Some(space) => cell_at(space, path),
        }
    }
}

/// Whether every path that leads somewhere from `old` on leads somewhere
/// from `new` on.
pub open spec fn extends<Data>(new: CellModel<Data>, old: CellModel<Data>) -> bool {
    forall|path: Seq<TimelessIndex>|
        (#[trigger] reach(old, path)) is Some ==> reach(new, path) is Some
}

impl<Data> Stack<Data> {
    /// Whether a line points at a cell of the top layer of the stack.
    pub open spec fn resolves(self, line: Line) -> bool {
        match self {
            Stack::Tower(cells) => line is Ground && line->Ground_0.pos < cells.store.len(),
            Stack::Diagram(layer) => line is Leveled && line.level() == layer.level() && cell_at(
                layer.cells,
                line.path(),
            ) is Some,
        }
    }

    /// Whether every line that resolves in this stack resolves in `next`.
    pub open spec fn carried_by(self, next: Stack<Data>) -> bool {
        forall|line: Line| #[trigger] self.resolves(line) ==> next.resolves(line)
    }

    /// Whether, in every layer of the stack, every line of every face
    /// points at a cell of the layer beneath.
    pub open spec fn sound(self) -> bool
        decreases self,
    {
        match self {
            Stack::Tower(_) => true,
            Stack::Diagram(layer) => faces_resolve(layer.cells, layer.prev) && layer.prev.sound(),
        }
    }
}

/// Whether every line of a face points at a cell of the top layer of a
/// stack.
pub open spec fn face_resolves<Data>(prev: Stack<Data>, face: Boundary) -> bool {
    &&& prev.resolves(face.fill)
    &&& forall|i: int| 0 <= i < face.ends.len() ==> prev.resolves(#[trigger] face.ends[i])
}

impl<Data> CellModel<Data> {
    /// Whether every line of the face of the cell, and of the faces of the
    /// cells in it, points at a cell of the top layer of a stack.
    pub open spec fn faces_resolve(self, prev: Stack<Data>) -> bool
        decreases self, 0int,
    {
        &&& face_resolves(prev, self.face)
        &&& match self.content {
            None => true,
            Some(space) => faces_resolve(space, prev),
        }
    }
}

/// Whether every line of every face of a space of cells, nested ones
/// included, points at a cell of the top layer of a stack.
pub open spec fn faces_resolve<Data>(space: Traces<CellModel<Data>>, prev: Stack<Data>) -> bool
    decreases space, 1int,
{
    forall|i: int| 0 <= i < space.store.len() ==> (#[trigger] space.store[i]).faces_resolve(prev)
}

/// Lines that resolve keep resolving in a stack that carries them.
pub proof fn lemma_faces_carried<Data>(
    space: Traces<CellModel<Data>>,
    prev: Stack<Data>,
    next: Stack<Data>,
)
    requires
        faces_resolve(space, prev),
        prev.carried_by(next),
    ensures
        faces_resolve(space, next),
    decreases space,
{
    assert forall|i: int| 0 <= i < space.store.len() implies (
    #[trigger] space.store[i]).faces_resolve(next) by {
        lemma_cell_carried(space.store[i], prev, next);
    }
}

/// The same, for one cell.
pub proof fn lemma_cell_carried<Data>(cell: CellModel<Data>, prev: Stack<Data>, next: Stack<Data>)
    requires
        cell.faces_resolve(prev),
        prev.carried_by(next),
    ensures
        cell.faces_resolve(next),
    decreases cell,
{
    assert forall|i: int| 0 <= i < cell.face.ends.len() implies next.resolves(
        #[trigger] cell.face.ends[i],
    ) by {
        assert(prev.resolves(cell.face.ends[i]));
    }
    assert(prev.resolves(cell.face.fill));
    match cell.content {
        None => {},
        Some(space) => {
            assert forall|i: int| 0 <= i < space.store.len() implies (
            #[trigger] space.store[i]).faces_resolve(next) by {
                lemma_cell_carried(space.store[i], prev, next);
            }
        },
    }
}

/// A cell that a path leads to in a space whose lines resolve has lines
/// that resolve.
pub proof fn lemma_cell_at_resolves<Data>(
    space: Traces<CellModel<Data>>,
    path: Seq<TimelessIndex>,
    prev: Stack<Data>,
)
    requires
        faces_resolve(space, prev),
        cell_at(space, path) is Some,
    ensures
        cell_at(space, path)->Some_0.faces_resolve(prev),
    decreases path.len(),
{
    let outer = space.store[path[0].pos as int];
    assert(outer.faces_resolve(prev));
    if path.len() > 1 {
        lemma_cell_at_resolves(outer.content->Some_0, path.drop_first(), prev);
    }
}

/// Where a path with more slots leads: from the cell that its first part
/// leads to, on along the rest.
pub proof fn lemma_cell_at_concat<Data>(
    space: Traces<CellModel<Data>>,
    first: Seq<TimelessIndex>,
    rest: Seq<TimelessIndex>,
)
    requires
        first.len() > 0,
    ensures
        cell_at(space, first + rest) == (match cell_at(space, first) {
            None => None,
            Some(cell) => reach(cell, rest),
        }),
    decreases first.len(),
{
    let whole = first + rest;
    assert(whole[0] == first[0]);
    if rest.len() == 0 {
        assert(whole =~= first);
    } else if first[0].pos < space.store.len() {
        let outer = space.store[first[0].pos as int];
        if first.len() == 1 {
            assert(whole.drop_first() =~= rest);
        } else {
            assert(whole.drop_first() =~= first.drop_first() + rest);
            match outer.content {
                None => {},
                Some(inner) => {
                    lemma_cell_at_concat(inner, first.drop_first(), rest);
                },
            }
        }
    }
}

/// A space with a cell that extends the one in its place leads wherever
/// the space led.
pub proof fn lemma_with_cell_extends<Data>(
    space: Traces<CellModel<Data>>,
    path: Seq<TimelessIndex>,
    new: CellModel<Data>,
    other: Seq<TimelessIndex>,
)
    requires
        cell_at(space, path) is Some,
        extends(new, cell_at(space, path)->Some_0),
        cell_at(space, other) is Some,
    ensures
        cell_at(with_cell(space, path, new), other) is Some,
    decreases path.len(),
{
    let after = with_cell(space, path, new);
    let old = cell_at(space, path)->Some_0;
    if other[0] != path[0] {
        assert(after.store[other[0].pos as int] == space.store[other[0].pos as int]);
    } else if path.len() == 1 {
        assert(reach(old, other.drop_first()) is Some) by {
            if other.len() == 1 {
                assert(other.drop_first() =~= Seq::<TimelessIndex>::empty());
            }
        }
        assert(reach(new, other.drop_first()) is Some);
        if other.len() == 1 {
            assert(other.drop_first() =~= Seq::<TimelessIndex>::empty());
        }
    } else {
        let outer = space.store[path[0].pos as int];
        let inner = outer.content->Some_0;
        if other.len() > 1 {
            lemma_with_cell_extends(inner, path.drop_first(), new, other.drop_first());
        }
    }
}

/// A space with a cell whose lines resolve in the place of another has
/// lines that resolve.
pub proof fn lemma_with_cell_resolves<Data>(
    space: Traces<CellModel<Data>>,
    path: Seq<TimelessIndex>,
    new: CellModel<Data>,
    prev: Stack<Data>,
)
    requires
        faces_resolve(space, prev),
        new.faces_resolve(prev),
    ensures
        faces_resolve(with_cell(space, path, new), prev),
    decreases path.len(),
{
    let after = with_cell(space, path, new);
    if path.len() == 0 || path[0].pos >= space.store.len() {
    } else if path.len() == 1 {
        assert forall|i: int| 0 <= i < after.store.len() implies (
        #[trigger] after.store[i]).faces_resolve(prev) by {
            if i != path[0].pos {
                assert(space.store[i].faces_resolve(prev));
            }
        }
    } else {
        let outer = space.store[path[0].pos as int];
        assert(outer.faces_resolve(prev));
        match outer.content {
            None => {},
            Some(inner) => {
                lemma_with_cell_resolves(inner, path.drop_first(), new, prev);
                assert forall|i: int| 0 <= i < after.store.len() implies (
                #[trigger] after.store[i]).faces_resolve(prev) by {
                    if i != path[0].pos {
                        assert(space.store[i].faces_resolve(prev));
                    }
                }
            },
        }
    }
}

/// A space with a wrap whose lines resolve has lines that resolve.
pub proof fn lemma_placed_resolves<Data>(
    cells: Traces<CellModel<Data>>,
    at: int,
    wrap: CellModel<Data>,
    prev: Stack<Data>,
)
    requires
        faces_resolve(cells, prev),
        wrap.faces_resolve(prev),
    ensures
        faces_resolve(super::wraps::placed(cells, at, wrap), prev),
{
    let after = super::wraps::placed(cells, at, wrap);
    assert(after.store == cells.store.push(wrap));
    assert forall|i: int| 0 <= i < after.store.len() implies (
    #[trigger] after.store[i]).faces_resolve(prev) by {
        if i < cells.store.len() {
            assert(cells.store[i].faces_resolve(prev));
        }
    }
}

/// Where a path leads in a space with another cell in the place of the
/// cell that the path leads to: to that other cell.
pub proof fn lemma_with_cell_at<Data>(
    space: Traces<CellModel<Data>>,
    path: Seq<TimelessIndex>,
    new: CellModel<Data>,
)
    requires
        cell_at(space, path) is Some,
    ensures
        cell_at(with_cell(space, path, new), path) == Some(new),
    decreases path.len(),
{
    if path.len() > 1 {
        let outer = space.store[path[0].pos as int];
        lemma_with_cell_at(outer.content->Some_0, path.drop_first(), new);
    }
}

/// Where a path leads in a space with another space in the place of the
/// space that the path leads to: to that other space.
pub proof fn lemma_with_space_at<Data>(
    space: Traces<CellModel<Data>>,
    path: Seq<TimelessIndex>,
    new: Traces<CellModel<Data>>,
)
    requires
        space_at(space, path) is Some,
    ensures
        space_at(with_space(space, path, new), path) == Some(new),
{
    if path.len() > 0 {
        let cell = cell_at(space, path)->Some_0;
        lemma_with_cell_at(space, path, CellModel { content: Some(new), ..cell });
    }
}

/// A clone of a cell leads wherever the cell leads, and to clones.
pub proof fn lemma_clone_reach<Data: Clone>(
    copy: CellModel<Data>,
    orig: CellModel<Data>,
    path: Seq<TimelessIndex>,
)
    requires
        copy.clone_of(orig),
    ensures
        reach(copy, path) is Some == reach(orig, path) is Some,
        reach(copy, path) is Some ==> reach(copy, path)->Some_0.clone_of(reach(orig, path)->Some_0),
    decreases path.len(),
{
    if path.len() > 0 {
        match copy.content {
            None => {},
            Some(space) => {
                let other = orig.content->Some_0;
                assert(cells_clone_of(space, other));
                if path[0].pos < space.store.len() {
                    assert(space.store[path[0].pos as int].clone_of(other.store[path[0].pos as int]));
                    if path.len() == 1 {
                    } else {
                        lemma_clone_reach(
                            space.store[path[0].pos as int],
                            other.store[path[0].pos as int],
                            path.drop_first(),
                        );
                    }
                }
            },
        }
    }
}

/// A clone of a cell whose lines resolve has lines that resolve.
pub proof fn lemma_clone_resolves<Data: Clone>(
    copy: CellModel<Data>,
    orig: CellModel<Data>,
    prev: Stack<Data>,
)
    requires
        copy.clone_of(orig),
        orig.faces_resolve(prev),
    ensures
        copy.faces_resolve(prev),
    decreases copy,
{
    match copy.content {
        None => {},
        Some(space) => {
            let other = orig.content->Some_0;
            assert(cells_clone_of(space, other));
            assert forall|i: int| 0 <= i < space.store.len() implies (
            #[trigger] space.store[i]).faces_resolve(prev) by {
                assert(space.store[i].clone_of(other.store[i]));
                assert(other.store[i].faces_resolve(prev));
                lemma_clone_resolves(space.store[i], other.store[i], prev);
            }
        },
    }
}

/// Whether every line that resolves in a stack still does with `sub` in
/// place of `prefix`.
pub open spec fn closed_under<Data>(
    prev: Stack<Data>,
    prefix: Seq<TimelessIndex>,
    sub: Seq<TimelessIndex>,
) -> bool {
    forall|line: Line| prev.resolves(line) ==> prev.resolves(#[trigger] line.substituted(prefix, sub))
}

/// A face whose lines resolve keeps lines that resolve under a
/// replacement that the stack is closed under.
pub proof fn lemma_substituted_resolves<Data>(
    face: Boundary,
    prefix: Seq<TimelessIndex>,
    sub: Seq<TimelessIndex>,
    prev: Stack<Data>,
)
    requires
        face_resolves(prev, face),
        closed_under(prev, prefix, sub),
    ensures
        face_resolves(prev, face.substituted(prefix, sub)),
{
    let after = face.substituted(prefix, sub);
    assert(prev.resolves(face.fill));
    assert(after.fill == face.fill.substituted(prefix, sub));
    assert forall|i: int| 0 <= i < after.ends.len() implies prev.resolves(#[trigger] after.ends[i]) by {
        assert(prev.resolves(face.ends[i]));
        assert(after.ends[i] == face.ends[i].substituted(prefix, sub));
    }
}

/// A space whose lines resolve keeps lines that resolve under a
/// replacement that the stack is closed under.
pub proof fn lemma_relined_resolves<Data>(
    space: Traces<CellModel<Data>>,
    prefix: Seq<TimelessIndex>,
    sub: Seq<TimelessIndex>,
    prev: Stack<Data>,
)
    requires
        faces_resolve(space, prev),
        closed_under(prev, prefix, sub),
    ensures
        faces_resolve(relined(space, prefix, sub), prev),
    decreases space,
{
    let after = relined(space, prefix, sub);
    assert forall|i: int| 0 <= i < after.store.len() implies (
    #[trigger] after.store[i]).faces_resolve(prev) by {
        let cell = space.store[i];
        assert(cell.faces_resolve(prev));
        if space.latest().contains(i as usize) {
            lemma_substituted_resolves(cell.face, prefix, sub, prev);
            match cell.content {
                None => {},
                Some(inner) => {
                    lemma_relined_resolves(inner, prefix, sub, prev);
                },
            }
        }
    }
}

/// The same, for several replacements.
pub proof fn lemma_relined_all_resolves<Data>(
    space: Traces<CellModel<Data>>,
    old_lines: Seq<Line>,
    new_lines: Seq<Line>,
    n: int,
    prev: Stack<Data>,
)
    requires
        faces_resolve(space, prev),
        forall|k: int|
            0 <= k < n ==> closed_under(prev, (#[trigger] old_lines[k]).path(), new_lines[k].path()),
    ensures
        faces_resolve(relined_all(space, old_lines, new_lines, n), prev),
    decreases n,
{
    if n > 0 {
        lemma_relined_all_resolves(space, old_lines, new_lines, n - 1, prev);
        assert(closed_under(prev, old_lines[n - 1].path(), new_lines[n - 1].path()));
        lemma_relined_resolves(
            relined_all(space, old_lines, new_lines, n - 1),
            old_lines[n - 1].path(),
            new_lines[n - 1].path(),
            prev,
        );
    }
}

impl<Data> Layer<Data> {
    /// The space in which the cells of some paths that share a parent
    /// stand.
    pub open spec fn parent_space(self, paths: Seq<Seq<TimelessIndex>>) -> Traces<CellModel<Data>> {
        space_at(self.cells, paths[0].drop_last())->Some_0
    }

    /// The cell that grouping the cells of some paths makes.
    pub open spec fn group_made(
        self,
        paths: Seq<Seq<TimelessIndex>>,
        data: Data,
        copies: Seq<CellModel<Data>>,
    ) -> CellModel<Data> {
        CellModel {
            data,
            face: joined_face(
                self.parent_space(paths),
                head_slots(paths),
                members(self.cells, paths),
            ),
            content: Some(Traces::of_values(copies)),
        }
    }

    /// Cells that can be grouped stand in one space, each in its slot.
    pub proof fn lemma_group_parts(self, paths: Seq<Seq<TimelessIndex>>)
        requires
            self.group_fault(paths) is None,
        ensures
            paths.len() > 0,
            space_at(self.cells, paths[0].drop_last()) is Some,
            forall|i: int|
                0 <= i < paths.len() ==> (#[trigger] paths[i]) == paths[0].drop_last().push(
                    paths[i].last(),
                ) && paths[i].last().pos < self.parent_space(paths).store.len() && members(
                    self.cells,
                    paths,
                )[i] == self.parent_space(paths).store[paths[i].last().pos as int],
    {
        let tail = paths[0].drop_last();
        assert forall|i: int| 0 <= i < paths.len() implies (#[trigger] paths[i]) == tail.push(
            paths[i].last(),
        ) && space_at(self.cells, tail) is Some && paths[i].last().pos < self.parent_space(
            paths,
        ).store.len() && members(self.cells, paths)[i] == self.parent_space(
            paths,
        ).store[paths[i].last().pos as int] by {
            assert(paths[i].len() > 0 && paths[i].drop_last() == tail);
            assert(paths[i] =~= tail.push(paths[i].last()));
            assert(cell_at(self.cells, paths[i]) is Some);
            lemma_cell_in_space(self.cells, tail, paths[i].last());
        }
        assert(paths[0] == tail.push(paths[0].last()));
    }

    /// What a path leads to after a grouping, where it ends in the space
    /// of the grouped cells: the cell that stood in the slot, or the new
    /// group in the slot that was added.
    pub proof fn lemma_grouped_reads(
        self,
        paths: Seq<Seq<TimelessIndex>>,
        data: Data,
        copies: Seq<CellModel<Data>>,
        slot: TimelessIndex,
    )
        requires
            self.group_fault(paths) is None,
            slot.pos <= self.parent_space(paths).store.len(),
            self.parent_space(paths).store.len() < usize::MAX,
        ensures
            cell_at(self.grouped(paths, data, copies).cells, paths[0].drop_last().push(slot))
                == Some(
                if slot.pos < self.parent_space(paths).store.len() {
                    self.parent_space(paths).store[slot.pos as int]
                } else {
                    self.group_made(paths, data, copies)
                },
            ),
    {
        self.lemma_group_parts(paths);
        let tail = paths[0].drop_last();
        let parent = self.parent_space(paths);
        let group = self.group_made(paths, data, copies);
        let grown = parent.spliced(head_slots(paths), group);
        assert(grown.store == parent.store.push(group));
        let after = self.grouped(paths, data, copies).cells;
        lemma_with_space_at(self.cells, tail, grown);
        lemma_cell_in_space(after, tail, slot);
    }

    /// Every line that resolved before a grouping resolves after it.
    pub proof fn lemma_grouped_carries(
        self,
        paths: Seq<Seq<TimelessIndex>>,
        data: Data,
        copies: Seq<CellModel<Data>>,
    )
        requires
            self.group_fault(paths) is None,
        ensures
            self.stack().carried_by(self.grouped(paths, data, copies).stack()),
    {
        self.lemma_group_parts(paths);
        let tail = paths[0].drop_last();
        let parent = self.parent_space(paths);
        let group = self.group_made(paths, data, copies);
        let grown = parent.spliced(head_slots(paths), group);
        assert(grown.store == parent.store.push(group));
        let after = self.grouped(paths, data, copies);
        assert forall|line: Line| #[trigger] self.stack().resolves(line) implies after.stack().resolves(
            line,
        ) by {
            let path = line.path();
            if tail.len() == 0 {
                assert(grown.store[path[0].pos as int] == parent.store[path[0].pos as int]);
            } else {
                let old = cell_at(self.cells, tail)->Some_0;
                let new = CellModel { content: Some(grown), ..old };
                assert forall|q: Seq<TimelessIndex>| (#[trigger] reach(old, q)) is Some implies reach(
                    new,
                    q,
                ) is Some by {
                    if q.len() > 0 {
                        assert(grown.store[q[0].pos as int] == parent.store[q[0].pos as int]);
                    }
                }
                lemma_with_cell_extends(self.cells, tail, new, path);
            }
        }
    }
}

impl<Data: Clone> Layer<Data> {
    /// After a grouping, a line that resolves still does with the path of
    /// a copy in place of the path of the cell that was copied.
    pub proof fn lemma_grouped_closed(
        self,
        paths: Seq<Seq<TimelessIndex>>,
        data: Data,
        copies: Seq<CellModel<Data>>,
        k: int,
    )
        requires
            self.group_fault(paths) is None,
            clones_of(copies, members(self.cells, paths)),
            self.parent_space(paths).store.len() < usize::MAX,
            0 <= k < paths.len(),
            k <= usize::MAX,
        ensures
            closed_under(
                self.grouped(paths, data, copies).stack(),
                paths[k],
                self.group_path(paths).push(TimelessIndex { pos: k as usize }),
            ),
            cell_at(
                self.grouped(paths, data, copies).cells,
                self.group_path(paths).push(TimelessIndex { pos: k as usize }),
            ) is Some,
    {
        self.lemma_group_parts(paths);
        let parent = self.parent_space(paths);
        let group = self.group_made(paths, data, copies);
        let after = self.grouped(paths, data, copies);
        let fresh = TimelessIndex { pos: parent.store.len() as usize };
        let place = TimelessIndex { pos: k as usize };
        let group_path = self.group_path(paths);
        let prefix = paths[k];
        let sub = group_path.push(place);
        let member = members(self.cells, paths)[k];
        self.lemma_grouped_reads(paths, data, copies, paths[k].last());
        self.lemma_grouped_reads(paths, data, copies, fresh);
        assert(cell_at(after.cells, prefix) == Some(member));
        assert(cell_at(after.cells, group_path) == Some(group));
        assert(sub =~= group_path + seq![place]);
        lemma_cell_at_concat(after.cells, group_path, seq![place]);
        assert(Traces::of_values(copies).store == copies);
        assert(cell_at(after.cells, sub) == Some(copies[k]));
        assert(copies[k].clone_of(member));
        assert forall|line: Line| after.stack().resolves(line) implies after.stack().resolves(
            #[trigger] line.substituted(prefix, sub),
        ) by {
            let path = line.path();
            if prefix.is_prefix_of(path) {
                let rest = path.skip(prefix.len() as int);
                assert(path =~= prefix + rest);
                lemma_cell_at_concat(after.cells, prefix, rest);
                lemma_clone_reach(copies[k], member, rest);
                lemma_cell_at_concat(after.cells, sub, rest);
            }
        }
    }
}

/// The lines of a cell that is alive in a space and was not left out come
/// in through one of the cells of the space.
pub proof fn lemma_outer_inputs_resolve<Data>(
    space: Traces<CellModel<Data>>,
    gone: Seq<usize>,
    inner: Seq<Line>,
    p: int,
    prev: Stack<Data>,
)
    requires
        space.wf(),
        faces_resolve(space, prev),
        0 <= p <= space.latest().len(),
    ensures
        forall|i: int|
            0 <= i < outer_inputs(space, gone, inner, p).len() ==> prev.resolves(
                #[trigger] outer_inputs(space, gone, inner, p)[i],
            ),
    decreases p,
{
    if p > 0 {
        lemma_outer_inputs_resolve(space, gone, inner, p - 1, prev);
        let before = outer_inputs(space, gone, inner, p - 1);
        let slot = space.latest()[p - 1];
        assert(space.snapshots[space.pseudotime()][p - 1] < space.store.len());
        if gone.contains(slot) {
            let cell = space.store[slot as int];
            assert(cell.faces_resolve(prev));
            let kept = cell.face.ends.filter(absent(inner));
            let all = outer_inputs(space, gone, inner, p);
            assert(all == before + kept);
            assert forall|i: int| 0 <= i < all.len() implies prev.resolves(#[trigger] all[i]) by {
                if i >= before.len() {
                    let line = kept[i - before.len()];
                    assert(kept.contains(line));
                    cell.face.ends.lemma_filter_contains_rev(absent(inner), line);
                    let j = choose|j: int| 0 <= j < cell.face.ends.len()
                        && cell.face.ends[j] == line;
                    assert(prev.resolves(cell.face.ends[j]));
                } else {
                    assert(all[i] == before[i]);
                }
            }
        }
    }
}

impl<Data: Clone> Layer<Data> {
    /// The lines of the cell that a grouping makes resolve, if the lines
    /// of the layer do.
    pub proof fn lemma_group_made_resolves(
        self,
        paths: Seq<Seq<TimelessIndex>>,
        data: Data,
        copies: Seq<CellModel<Data>>,
    )
        requires
            self.wf(),
            faces_resolve(self.cells, self.prev),
            self.group_fault(paths) is None,
            clones_of(copies, members(self.cells, paths)),
        ensures
            self.group_made(paths, data, copies).faces_resolve(self.prev),
            faces_resolve(self.parent_space(paths), self.prev),
    {
        self.lemma_group_parts(paths);
        let tail = paths[0].drop_last();
        let parent = self.parent_space(paths);
        let all = members(self.cells, paths);
        let group = self.group_made(paths, data, copies);
        lemma_cell_at_wf(self.cells, tail);
        if tail.len() > 0 {
            lemma_cell_at_resolves(self.cells, tail, self.prev);
        }
        assert(faces_resolve(parent, self.prev));
        assert forall|i: int| 0 <= i < all.len() implies (#[trigger] all[i]).faces_resolve(self.prev) by {
            assert(all[i] == parent.store[paths[i].last().pos as int]);
        }
        let content = Traces::of_values(copies);
        assert forall|i: int| 0 <= i < content.store.len() implies (
        #[trigger] content.store[i]).faces_resolve(self.prev) by {
            assert(copies[i].clone_of(all[i]));
            lemma_clone_resolves(copies[i], all[i], self.prev);
        }
        let loose = dangling(all);
        assert(loose.len() == 1);
        assert(loose.contains(loose[0]));
        outputs(all).lemma_filter_contains_rev(absent(inputs(all)), loose[0]);
        let j = choose|j: int| 0 <= j < outputs(all).len() && outputs(all)[j] == loose[0];
        assert(all[j].faces_resolve(self.prev));
        assert(self.prev.resolves(group.face.fill));
        lemma_outer_inputs_resolve(
            parent,
            head_slots(paths),
            outputs(all),
            parent.latest().len() as int,
            self.prev,
        );
    }

    /// The lines of a layer resolve after a grouping in it, if they did
    /// before.
    pub proof fn lemma_grouped_resolves(
        self,
        paths: Seq<Seq<TimelessIndex>>,
        data: Data,
        copies: Seq<CellModel<Data>>,
    )
        requires
            self.wf(),
            faces_resolve(self.cells, self.prev),
            self.group_fault(paths) is None,
            clones_of(copies, members(self.cells, paths)),
        ensures
            faces_resolve(self.grouped(paths, data, copies).cells, self.prev),
    {
        self.lemma_group_parts(paths);
        self.lemma_group_made_resolves(paths, data, copies);
        let tail = paths[0].drop_last();
        let parent = self.parent_space(paths);
        let group = self.group_made(paths, data, copies);
        let grown = parent.spliced(head_slots(paths), group);
        assert(grown.store == parent.store.push(group));
        assert forall|i: int| 0 <= i < grown.store.len() implies (
        #[trigger] grown.store[i]).faces_resolve(self.prev) by {
            if i < parent.store.len() {
                assert(parent.store[i].faces_resolve(self.prev));
            }
        }
        if tail.len() > 0 {
            let old = cell_at(self.cells, tail)->Some_0;
            lemma_cell_at_resolves(self.cells, tail, self.prev);
            lemma_with_cell_resolves(
                self.cells,
                tail,
                CellModel { content: Some(grown), ..old },
                self.prev,
            );
        }
    }
}

/// A replacement of a path by itself changes no line.
pub proof fn lemma_closed_under_itself<Data>(prev: Stack<Data>, path: Seq<TimelessIndex>)
    ensures
        closed_under(prev, path, path),
{
    assert forall|line: Line| prev.resolves(line) implies prev.resolves(
        #[trigger] line.substituted(path, path),
    ) by {
        match line {
            Line::Ground(_) => {},
            Line::Leveled { level, path: own } => {
                if path.is_prefix_of(own) {
                    assert(path + own.skip(path.len() as int) =~= own);
                }
            },
        }
    }
}

/// What a grouping gives to the layer above: which lines resolve, and
/// which replacements keep them resolving.
pub open spec fn edit_carries<Data>(
    before: Stack<Data>,
    after: Stack<Data>,
    old_lines: Seq<Line>,
    new: Line,
    held: Seq<Line>,
) -> bool {
    &&& after.sound()
    &&& after.level() == before.level()
    &&& before.carried_by(after)
    &&& after.resolves(new)
    &&& held.len() == old_lines.len()
    &&& forall|i: int| 0 <= i < held.len() ==> after.resolves(#[trigger] held[i])
    &&& forall|k: int|
        0 <= k < held.len() ==> closed_under(after, (#[trigger] old_lines[k]).path(), held[k].path())
}

impl<Data: Clone> Layer<Data> {
    /// A grouping in a layer whose lines resolve leaves a layer whose
    /// lines resolve, carries every line that pointed into the layer, and
    /// makes lines that resolve: that of the group, and those of the
    /// copies, which can stand for those of the cells that were copied.
    pub proof fn lemma_groups_to_sound(
        self,
        picked: Picked,
        data: Data,
        after: Layer<Data>,
        new: Line,
        held: Seq<Line>,
    )
        requires
            self.wf(),
            after.wf(),
            self.stack().sound(),
            picked.level() == self.level(),
            self.group_fault(picked.paths()) is None,
            self.groups_to(picked.paths(), data, after, new, held),
        ensures
            edit_carries(self.stack(), after.stack(), picked.cells(), new, held),
    {
        let paths = picked.paths();
        let copies = choose|copies: Seq<CellModel<Data>>|
            clones_of(copies, members(self.cells, paths)) && after == #[trigger] self.grouped(
                paths,
                data,
                copies,
            );
        self.lemma_group_parts(paths);
        let tail = paths[0].drop_last();
        let parent = self.parent_space(paths);
        let group = self.group_made(paths, data, copies);
        let grown = parent.spliced(head_slots(paths), group);
        assert(grown.store == parent.store.push(group));
        lemma_with_space_at(self.cells, tail, grown);
        lemma_cell_at_wf(after.cells, tail);
        assert(grown.wf());
        assert(parent.store.len() < usize::MAX);
        let fresh = TimelessIndex { pos: parent.store.len() as usize };
        self.lemma_grouped_reads(paths, data, copies, fresh);
        assert(grown.store[parent.store.len() as int].wf());
        let content = Traces::of_values(copies);
        assert(content.wf());
        assert(copies.len() <= usize::MAX);
        self.lemma_grouped_resolves(paths, data, copies);
        self.lemma_grouped_carries(paths, data, copies);
        assert(picked is Leveled);
        assert forall|k: int| 0 <= k < held.len() implies after.stack().resolves(#[trigger] held[k])
            && closed_under(after.stack(), picked.cells()[k].path(), held[k].path()) by {
            self.lemma_grouped_closed(paths, data, copies, k);
            assert(picked.cells()[k].path() == paths[k]);
            assert(held[k] == self.line(
                self.group_path(paths).push(TimelessIndex { pos: k as usize }),
            ));
        }
    }
}

impl<Data: Clone> Stack<Data> {
    /// An extrusion at the top of a stack whose lines resolve leaves a
    /// stack whose lines resolve, and gives the layer above what it needs
    /// to follow.
    pub proof fn lemma_extruded_here_sound(
        self,
        picked: Picked,
        group: Data,
        after: Stack<Data>,
        new: Line,
        held: Seq<Line>,
    )
        requires
            self.wf(),
            after.wf(),
            self.sound(),
            picked.level() == self.level(),
            self.extruded_here(picked, group, after, new, held),
        ensures
            edit_carries(self, after, picked.cells(), new, held),
    {
        match self {
            Stack::Tower(cells) => {
                lemma_tower_grown(cells, after->Tower_0, picked, new, held);
            },
            Stack::Diagram(layer) => {
                layer.lemma_groups_to_sound(picked, group, *after->Diagram_0, new, held);
            },
        }
    }

    /// A split at the top of a stack whose lines resolve leaves a stack
    /// whose lines resolve, and gives the layer above what it needs to
    /// follow.
    pub proof fn lemma_split_here_sound(
        self,
        picked: Picked,
        group: Data,
        after: Stack<Data>,
        new: Line,
        held: Seq<Line>,
    )
        requires
            self.wf(),
            after.wf(),
            self.sound(),
            picked.level() == self.level(),
            self.split_here(picked, group, after, new, held),
        ensures
            edit_carries(self, after, picked.cells(), new, held),
    {
        match self {
            Stack::Tower(cells) => {
                lemma_tower_grown(cells, after->Tower_0, picked, new, held);
            },
            Stack::Diagram(layer) => {
                layer.lemma_groups_to_sound(picked, group, *after->Diagram_0, new, held);
            },
        }
    }
}

/// A tower with one more cell after a selected one carries every line,
/// and the lines of the two cells resolve.
pub proof fn lemma_tower_grown<Data>(
    cells: Traces<Data>,
    after: Traces<Data>,
    picked: Picked,
    new: Line,
    held: Seq<Line>,
)
    requires
        after.wf(),
        picked matches Picked::Ground(index) && cells.position(TracingIndex::Timeless(index)) is Ok
            && after == cells.inserted(
            cells.position(TracingIndex::Timeless(index))->Ok_0 + 1,
            after.store.last(),
        ) && new == Line::Ground(tower::fresh(cells)) && held == seq![Line::Ground(index)],
    ensures
        edit_carries(Stack::Tower(cells), Stack::Tower(after), picked.cells(), new, held),
{
    let next = Stack::Tower(after);
    assert forall|k: int| 0 <= k < held.len() implies closed_under(
        next,
        (#[trigger] picked.cells()[k]).path(),
        held[k].path(),
    ) by {
        lemma_closed_under_itself(next, held[k].path());
    }
}

impl<Data> Layer<Data> {
    /// A sprout in a layer whose lines resolve leaves a layer whose lines
    /// resolve, carries every line that pointed into the layer, and makes
    /// a line that resolves: that of the new end.
    pub proof fn lemma_sprouted_here_sound(self, line: Line, end: Data)
        requires
            self.wf(),
            self.stack().sound(),
            line.level() == self.level(),
            self.sprout_here_fault(line) is None,
        ensures
            edit_carries(
                self.stack(),
                self.sprouted_here(line, end).stack(),
                seq![line],
                self.sprout_end(line),
                seq![line],
            ),
    {
        let path = line.path();
        let after = self.sprouted_here(line, end);
        let cell = cell_at(self.cells, path)->Some_0;
        let inner = wrap_cell(end, cell.face.ends, cell.face.fill);
        let content = Traces::of_values(seq![inner]);
        let new = CellModel { content: Some(content), ..cell };
        lemma_cell_at_resolves(self.cells, path, self.prev);
        assert(face_resolves(self.prev, inner.face)) by {
            assert forall|i: int| 0 <= i < inner.face.ends.len() implies self.prev.resolves(
                #[trigger] inner.face.ends[i],
            ) by {
                assert(self.prev.resolves(cell.face.ends[i]));
            }
        }
        assert(content.store == seq![inner]);
        assert forall|i: int| 0 <= i < content.store.len() implies (
        #[trigger] content.store[i]).faces_resolve(self.prev) by {}
        lemma_with_cell_resolves(self.cells, path, new, self.prev);
        assert forall|q: Seq<TimelessIndex>| (#[trigger] reach(cell, q)) is Some implies reach(
            new,
            q,
        ) is Some by {}
        assert forall|other: Line| #[trigger] self.stack().resolves(other) implies after.stack().resolves(
            other,
        ) by {
            lemma_with_cell_extends(self.cells, path, new, other.path());
        }
        lemma_with_cell_at(self.cells, path, new);
        let place = TimelessIndex { pos: 0 };
        assert(path.push(place) =~= path + seq![place]);
        lemma_cell_at_concat(after.cells, path, seq![place]);
        lemma_closed_under_itself(after.stack(), path);
        assert(seq![line][0] == line);
    }
}

impl<Data: Clone> Stack<Data> {
    /// A sprout at the top of a stack whose lines resolve leaves a stack
    /// whose lines resolve, and gives the layer above what it needs to
    /// follow.
    pub proof fn lemma_sprouted_here_sound(self, line: Line, end: Data, after: Stack<Data>, new: Line)
        requires
            self.wf(),
            after.wf(),
            self.sound(),
            line.level() == self.level(),
            self.sprouted_here(line, end, after, new),
        ensures
            edit_carries(self, after, seq![line], new, seq![line]),
    {
        match self {
            Stack::Tower(cells) => {
                lemma_closed_under_itself(after, line.path());
                assert(seq![line][0] == line);
            },
            Stack::Diagram(layer) => {
                layer.lemma_sprouted_here_sound(line, end);
            },
        }
    }
}

impl<Data> Layer<Data> {
    /// The lines of a layer resolve after the lines have followed an edit
    /// beneath that carries them.
    pub proof fn lemma_relined_over_sound(
        self,
        old_lines: Seq<Line>,
        new: Line,
        held: Seq<Line>,
        prev: Stack<Data>,
    )
        requires
            self.stack().sound(),
            edit_carries(self.prev, prev, old_lines, new, held),
        ensures
            self.relined_over(old_lines, held, prev).stack().sound(),
            self.relined_over(old_lines, held, prev).level() == self.level(),
    {
        lemma_faces_carried(self.cells, self.prev, prev);
        lemma_relined_all_resolves(self.cells, old_lines, held, old_lines.len() as int, prev);
    }

    /// The lines of a layer resolve after a wrap whose lines resolve was
    /// added.
    pub proof fn lemma_wrapped_sound(self, at: int, wrap: CellModel<Data>)
        requires
            self.stack().sound(),
            face_resolves(self.prev, wrap.face),
            wrap.content is None,
        ensures
            self.wrapped(at, wrap).stack().sound(),
    {
        lemma_placed_resolves(self.cells, at, wrap, self.prev);
    }
}

impl<Data: Clone> Layer<Data> {
    /// Lines keep resolving under extrusion: where the lines of a stack
    /// resolve and its top layer, or the one beneath, is extruded, the
    /// lines of the stack after that resolve.
    pub proof fn lemma_extrude_keeps_lines(
        self,
        picked: Picked,
        group: Data,
        wrap: Data,
        after: Layer<Data>,
        done: Outcome,
    )
        requires
            self.wf(),
            after.wf(),
            self.stack().sound(),
            picked.level() + 1 >= self.level(),
            self.extrude_result(picked, group, wrap, after, Ok(done)),
        ensures
            after.stack().sound(),
            after.level() == self.level(),
    {
        if picked.level() == self.level() {
            let new = done->Here_action->Extrude_group;
            let held = done->Here_action->Extrude_contents;
            self.lemma_groups_to_sound(picked, group, after, new, held);
        } else {
            let new = done->InPrevious_action->Extrude_group;
            let held = done->InPrevious_action->Extrude_contents;
            self.prev.lemma_extruded_here_sound(picked, group, after.prev, new, held);
            let mid = self.relined_over(picked.cells(), held, after.prev);
            self.lemma_relined_over_sound(picked.cells(), new, held, after.prev);
            let cell = wrap_cell(wrap, held, new);
            assert(face_resolves(after.prev, cell.face));
            mid.lemma_wrapped_sound(mid.extrusion_place(held), cell);
        }
    }

    /// Lines keep resolving under splitting: where the lines of a stack
    /// resolve and cells of its top layer, or of the one beneath, are
    /// split off, the lines of the stack after that resolve.
    pub proof fn lemma_split_keeps_lines(
        self,
        picked: Picked,
        group: Data,
        wrap_top: Data,
        wrap_bot: Data,
        after: Layer<Data>,
        done: Outcome,
    )
        requires
            self.wf(),
            after.wf(),
            self.stack().sound(),
            picked.level() + 1 >= self.level(),
            self.split_result(picked, group, wrap_top, wrap_bot, after, Ok(done)),
        ensures
            after.stack().sound(),
            after.level() == self.level(),
    {
        if picked.level() == self.level() {
            let new = done->Here_action->Split_group;
            let held = done->Here_action->Split_contents;
            self.lemma_groups_to_sound(picked, group, after, new, held);
        } else {
            let new = done->InPrevious_action->Extrude_group;
            let held = done->InPrevious_action->Extrude_contents;
            self.prev.lemma_split_here_sound(picked, group, after.prev, new, held);
            let mid = self.relined_over(picked.cells(), held, after.prev);
            self.lemma_relined_over_sound(picked.cells(), new, held, after.prev);
            let found = find_inputs(self.cells, picked.cells(), 0)->Some_0;
            lemma_find_inputs(self.cells, picked.cells(), 0);
            lemma_relined_all_cell(
                self.cells,
                picked.cells(),
                held,
                picked.cells().len() as int,
                found.0,
            );
            let old = cell_at(mid.cells, found.0)->Some_0;
            lemma_cell_at_resolves(mid.cells, found.0, after.prev);
            let top = wrap_cell(wrap_top, held, new);
            let low = old.face.ends.take(found.1).push(new) + old.face.ends.skip(found.1 + held.len());
            let bot = wrap_cell(wrap_bot, low, old.face.fill);
            assert(face_resolves(after.prev, top.face));
            assert forall|i: int| 0 <= i < low.len() implies after.prev.resolves(#[trigger] low[i]) by {
                if i < found.1 {
                    assert(low[i] == old.face.ends[i]);
                } else if i == found.1 {
                } else {
                    assert(low[i] == old.face.ends[i - 1 + held.len()]);
                }
            }
            assert(face_resolves(after.prev, bot.face));
            let made = split_cell(old, found.1, wrap_top, wrap_bot, held, new);
            let content = Traces::of_values(seq![top, bot]);
            assert(content.store == seq![top, bot]);
            assert forall|i: int| 0 <= i < content.store.len() implies (
            #[trigger] content.store[i]).faces_resolve(after.prev) by {}
            assert(made.faces_resolve(after.prev));
            lemma_with_cell_resolves(mid.cells, found.0, made, after.prev);
        }
    }

    /// Lines keep resolving under sprouting: where the lines of a stack
    /// resolve and an end of its top layer, or of the one beneath,
    /// sprouts, the lines of the stack after that resolve.
    pub proof fn lemma_sprout_keeps_lines(
        self,
        line: Line,
        end: Data,
        wrap: Data,
        after: Layer<Data>,
        done: Outcome,
    )
        requires
            self.wf(),
            after.wf(),
            self.stack().sound(),
            line.level() + 1 >= self.level(),
            self.sprout_result(line, end, wrap, after, Ok(done)),
        ensures
            after.stack().sound(),
            after.level() == self.level(),
    {
        if line.level() == self.level() {
            self.lemma_sprouted_here_sound(line, end);
        } else {
            let new = done->InPrevious_action->Sprout_end;
            self.prev.lemma_sprouted_here_sound(line, end, after.prev, new);
            let mid = self.relined_over(seq![line], seq![line], after.prev);
            self.lemma_relined_over_sound(seq![line], new, seq![line], after.prev);
            let cell = wrap_cell(wrap, seq![new], line);
            assert(after.prev.resolves(seq![line][0]));
            assert(face_resolves(after.prev, cell.face));
            mid.lemma_wrapped_sound(mid.sprout_place(line), cell);
        }
    }
}

impl<Data: Clone> Stack<Data> {
    /// Lines keep resolving under extrusion, whatever the top of the stack
    /// is.
    pub proof fn lemma_extrude_keeps_lines(
        self,
        picked: Picked,
        group: Data,
        wrap: Data,
        after: Stack<Data>,
        done: Outcome,
    )
        requires
            self.wf(),
            after.wf(),
            self.sound(),
            picked.level() + 1 >= self.level(),
            self.extrude_result(picked, group, wrap, after, Ok(done)),
        ensures
            after.sound(),
    {
        match self {
            Stack::Tower(_) => {},
            Stack::Diagram(layer) => {
                layer.lemma_extrude_keeps_lines(picked, group, wrap, *after->Diagram_0, done);
            },
        }
    }

    /// Lines keep resolving under splitting, whatever the top of the stack
    /// is.
    pub proof fn lemma_split_keeps_lines(
        self,
        picked: Picked,
        group: Data,
        wrap_top: Data,
        wrap_bot: Data,
        after: Stack<Data>,
        done: Outcome,
    )
        requires
            self.wf(),
            after.wf(),
            self.sound(),
            picked.level() + 1 >= self.level(),
            self.split_result(picked, group, wrap_top, wrap_bot, after, Ok(done)),
        ensures
            after.sound(),
    {
        match self {
            Stack::Tower(_) => {},
            Stack::Diagram(layer) => {
                layer.lemma_split_keeps_lines(
                    picked,
                    group,
                    wrap_top,
                    wrap_bot,
                    *after->Diagram_0,
                    done,
                );
            },
        }
    }

    /// Lines keep resolving under sprouting, whatever the top of the stack
    /// is.
    pub proof fn lemma_sprout_keeps_lines(
        self,
        line: Line,
        end: Data,
        wrap: Data,
        after: Stack<Data>,
        done: Outcome,
    )
        requires
            self.wf(),
            after.wf(),
            self.sound(),
            line.level() + 1 >= self.level(),
            self.sprout_result(line, end, wrap, after, Ok(done)),
        ensures
            after.sound(),
    {
        match self {
            Stack::Tower(_) => {},
            Stack::Diagram(layer) => {
                layer.lemma_sprout_keeps_lines(line, end, wrap, *after->Diagram_0, done);
            },
        }
    }

    /// A clone of a stack carries every line that resolves in the stack.
    pub proof fn lemma_clone_carries(self, orig: Stack<Data>)
        requires
            self.clone_of(orig),
        ensures
            orig.carried_by(self),
            self.level() == orig.level(),
    {
        super::copying::lemma_stack_clone(self, orig);
        assert forall|line: Line| #[trigger] orig.resolves(line) implies self.resolves(line) by {
            match self {
                Stack::Tower(_) => {},
                Stack::Diagram(layer) => {
                    lemma_clone_cell_at(layer.cells, orig->Diagram_0.cells, line.path());
                },
            }
        }
    }

    /// Lines keep resolving in a copy: a clone of a stack whose lines
    /// resolve has lines that resolve.
    pub proof fn lemma_clone_sound(self, orig: Stack<Data>)
        requires
            self.clone_of(orig),
            orig.sound(),
        ensures
            self.sound(),
        decreases self,
    {
        match self {
            Stack::Tower(_) => {},
            Stack::Diagram(layer) => {
                let other = orig->Diagram_0;
                layer.prev.lemma_clone_sound(other.prev);
                layer.prev.lemma_clone_carries(other.prev);
                lemma_clone_space_resolves(layer.cells, other.cells, other.prev);
                lemma_faces_carried(layer.cells, other.prev, layer.prev);
            },
        }
    }
}

impl<Data> Stack<Data> {
    /// Lines keep resolving in the lower part of a stack.
    pub proof fn lemma_below_sound(self, level: nat)
        requires
            self.sound(),
        ensures
            self.below(level).sound(),
        decreases self,
    {
        match self {
            Stack::Tower(_) => {},
            Stack::Diagram(layer) => {
                if layer.level() > level {
                    layer.prev.lemma_below_sound(level);
                }
            },
        }
    }

    /// Lines keep resolving under renaming.
    pub proof fn lemma_renamed_sound(self, line: Line, data: Data)
        requires
            self.sound(),
            self.renamed(line, data) is Ok,
        ensures
            self.renamed(line, data)->Ok_0.sound(),
            self.carried_by(self.renamed(line, data)->Ok_0),
            self.renamed(line, data)->Ok_0.level() == self.level(),
        decreases self,
    {
        let after = self.renamed(line, data)->Ok_0;
        self.lemma_renamed(line, data);
        match self {
            Stack::Tower(_) => {},
            Stack::Diagram(layer) => {
                if line.level() == layer.level() {
                    let path = line.path();
                    let cell = cell_at(layer.cells, path)->Some_0;
                    let new = CellModel { data, ..cell };
                    lemma_cell_at_resolves(layer.cells, path, layer.prev);
                    lemma_with_cell_resolves(layer.cells, path, new, layer.prev);
                    assert forall|q: Seq<TimelessIndex>| (#[trigger] reach(cell, q)) is Some implies reach(
                        new,
                        q,
                    ) is Some by {}
                    assert forall|other: Line| #[trigger] self.resolves(other) implies after.resolves(
                        other,
                    ) by {
                        lemma_with_cell_extends(layer.cells, path, new, other.path());
                    }
                } else {
                    layer.prev.lemma_renamed_sound(line, data);
                    lemma_faces_carried(layer.cells, layer.prev, layer.prev.renamed(line, data)->Ok_0);
                }
            },
        }
    }
}

/// A clone of a space leads wherever the space leads.
pub proof fn lemma_clone_cell_at<Data: Clone>(
    copy: Traces<CellModel<Data>>,
    orig: Traces<CellModel<Data>>,
    path: Seq<TimelessIndex>,
)
    requires
        cells_clone_of(copy, orig),
    ensures
        cell_at(copy, path) is Some == cell_at(orig, path) is Some,
{
    if path.len() > 0 && path[0].pos < copy.store.len() {
        assert(copy.store[path[0].pos as int].clone_of(orig.store[path[0].pos as int]));
        lemma_clone_reach(
            copy.store[path[0].pos as int],
            orig.store[path[0].pos as int],
            path.drop_first(),
        );
        if path.len() == 1 {
            assert(path.drop_first() =~= Seq::<TimelessIndex>::empty());
        }
    }
}

/// A clone of a space whose lines resolve has lines that resolve.
pub proof fn lemma_clone_space_resolves<Data: Clone>(
    copy: Traces<CellModel<Data>>,
    orig: Traces<CellModel<Data>>,
    prev: Stack<Data>,
)
    requires
        cells_clone_of(copy, orig),
        faces_resolve(orig, prev),
    ensures
        faces_resolve(copy, prev),
{
    assert forall|i: int| 0 <= i < copy.store.len() implies (#[trigger] copy.store[i]).faces_resolve(
        prev,
    ) by {
        assert(copy.store[i].clone_of(orig.store[i]));
        assert(orig.store[i].faces_resolve(prev));
        lemma_clone_resolves(copy.store[i], orig.store[i], prev);
    }
}

impl<Data> Layer<Data> {
    /// Lines resolve in a new layer: one that has wraps whose lines
    /// resolve, and no other cells, over a stack whose lines resolve.
    pub proof fn lemma_with_wraps_sound(self, wraps: Seq<MetaCell<Data>>, n: int)
        requires
            self.stack().sound(),
            forall|k: int| 0 <= k < n ==> face_resolves(self.prev, (#[trigger] wraps[k]).face@),
        ensures
            self.with_wraps(wraps, n).stack().sound(),
            self.with_wraps(wraps, n).prev == self.prev,
        decreases n,
    {
        if n > 0 {
            self.lemma_with_wraps_sound(wraps, n - 1);
            let before = self.with_wraps(wraps, n - 1);
            let face = wraps[n - 1].face@;
            assert(face_resolves(self.prev, face));
            before.lemma_wrapped_sound(
                before.extrusion_place(face.ends),
                wrap_cell(wraps[n - 1].data, face.ends, face.fill),
            );
        }
    }

    /// A layer without cells over a stack whose lines resolve has lines
    /// that resolve.
    pub proof fn lemma_over_sound(prev: Stack<Data>)
        requires
            prev.sound(),
        ensures
            Layer::over(prev).stack().sound(),
    {
    }
}

/// Taking marks off changes no line: a space whose lines resolve keeps
/// lines that resolve.
pub proof fn lemma_unselected_resolves<Data>(
    space: Traces<CellModel<Selectable<Data>>>,
    prev: Stack<Selectable<Data>>,
)
    requires
        faces_resolve(space, prev),
    ensures
        faces_resolve(unselected_all(space), prev),
    decreases space,
{
    let after = unselected_all(space);
    assert forall|i: int| 0 <= i < after.store.len() implies (
    #[trigger] after.store[i]).faces_resolve(prev) by {
        let cell = space.store[i];
        assert(cell.faces_resolve(prev));
        if space.latest().contains(i as usize) {
            match cell.content {
                None => {},
                Some(inner) => {
                    lemma_unselected_resolves(inner, prev);
                },
            }
        }
    }
}

impl<Data> Stack<Selectable<Data>> {
    /// Lines keep resolving when marks are taken off.
    pub proof fn lemma_unselected_sound(self, max_depth: nat)
        requires
            self.sound(),
        ensures
            self.unselected(max_depth).sound(),
            self.carried_by(self.unselected(max_depth)),
        decreases self,
    {
        let after = self.unselected(max_depth);
        self.lemma_unselected(max_depth);
        match self {
            Stack::Tower(_) => {},
            Stack::Diagram(layer) => {
                lemma_unselected_resolves(layer.cells, layer.prev);
                if max_depth < layer.level() {
                    layer.prev.lemma_unselected_sound(max_depth);
                    lemma_faces_carried(
                        unselected_all(layer.cells),
                        layer.prev,
                        layer.prev.unselected(max_depth),
                    );
                }
                assert forall|line: Line| #[trigger] self.resolves(line) implies after.resolves(
                    line,
                ) by {
                    lemma_unselected_cell(layer.cells, line.path());
                }
            },
        }
    }

    /// Lines keep resolving under selecting.
    pub proof fn lemma_selected_sound(self, line: Line)
        requires
            self.sound(),
            self.selected(line) is Ok,
        ensures
            self.selected(line)->Ok_0.0.sound(),
            self.carried_by(self.selected(line)->Ok_0.0),
        decreases self,
    {
        let after = self.selected(line)->Ok_0.0;
        match self {
            Stack::Tower(_) => {},
            Stack::Diagram(layer) => {
                if line.level() == layer.level() {
                    let path = line.path();
                    layer.prev.lemma_unselected_sound(0);
                    let cleared = Layer { prev: layer.prev.unselected(0), ..*layer };
                    lemma_faces_carried(layer.cells, layer.prev, cleared.prev);
                    let stray = cleared.picked_here() is Some
                        && cleared.picked_here()->Some_0.common_path()
                        != line.tail();
                    let confined = if stray {
                        Layer { cells: unselected_all(cleared.cells), ..cleared }
                    } else {
                        cleared
                    };
                    if stray {
                        lemma_unselected_resolves(cleared.cells, cleared.prev);
                        lemma_unselected_cell(cleared.cells, path);
                    }
                    let cell = cell_at(confined.cells, path)->Some_0;
                    let new = cell.toggled();
                    lemma_cell_at_resolves(confined.cells, path, confined.prev);
                    lemma_with_cell_resolves(confined.cells, path, new, confined.prev);
                    assert forall|q: Seq<TimelessIndex>| (#[trigger] reach(cell, q)) is Some implies reach(
                        new,
                        q,
                    ) is Some by {}
                    assert forall|other: Line| #[trigger] self.resolves(other) implies after.resolves(
                        other,
                    ) by {
                        if stray {
                            lemma_unselected_cell(cleared.cells, other.path());
                        }
                        lemma_with_cell_extends(confined.cells, path, new, other.path());
                    }
                } else {
                    layer.prev.lemma_selected_sound(line);
                    let prev = layer.prev.selected(line)->Ok_0.0;
                    lemma_unselected_resolves(layer.cells, layer.prev);
                    lemma_faces_carried(unselected_all(layer.cells), layer.prev, prev);
                    assert forall|other: Line| #[trigger] self.resolves(other) implies after.resolves(
                        other,
                    ) by {
                        lemma_unselected_cell(layer.cells, other.path());
                    }
                }
            },
        }
    }
}

} // verus!
