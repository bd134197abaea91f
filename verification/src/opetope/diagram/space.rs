//! Spaces of cells: the cells of a layer, and those in each group.

use super::{cells_wf, space_model, Cell, CellModel};
use crate::model::tracing_vec::{TimelessIndex, Traces, TracingIndex, TracingVec};
use vstd::prelude::*;

verus! {

/// The cell that a path leads to: from slot to slot through the contents
/// of groups, alive or not.
pub open spec fn cell_at<Data>(space: Traces<CellModel<Data>>, path: Seq<TimelessIndex>) -> Option<
    CellModel<Data>,
>
    decreases path.len(),
{
    if path.len() == 0 || path[0].pos >= space.store.len() {
        None
    } else if path.len() == 1 {
        Some(space.store[path[0].pos as int])
    } else {
        match space.store[path[0].pos as int].content {
            None => None,
            Some(inner) => cell_at(inner, path.drop_first()),
        }
    }
}

/// The space that a path leads to: the given one for the empty path, the
/// content of a group otherwise.
pub open spec fn space_at<Data>(space: Traces<CellModel<Data>>, path: Seq<TimelessIndex>) -> Option<
    Traces<CellModel<Data>>,
> {
    if path.len() == 0 {
        Some(space)
    } else {
        match cell_at(space, path) {
            None => None,
            Some(cell) => cell.content,
        }
    }
}

/// The space with another cell where the path leads; the space itself if
/// the path leads nowhere.
pub open spec fn with_cell<Data>(
    space: Traces<CellModel<Data>>,
    path: Seq<TimelessIndex>,
    cell: CellModel<Data>,
) -> Traces<CellModel<Data>>
    decreases path.len(),
{
    if path.len() == 0 || path[0].pos >= space.store.len() {
        space
    } else if path.len() == 1 {
        Traces { store: space.store.update(path[0].pos as int, cell), ..space }
    } else {
        let outer = space.store[path[0].pos as int];
        match outer.content {
            None => space,
            Some(inner) => Traces {
                store: space.store.update(
                    path[0].pos as int,
                    CellModel {
                        content: Some(with_cell(inner, path.drop_first(), cell)),
                        ..outer
                    },
                ),
                ..space
            },
        }
    }
}

/// The space with another space where the path leads; the space itself if
/// the path leads nowhere.
pub open spec fn with_space<Data>(
    space: Traces<CellModel<Data>>,
    path: Seq<TimelessIndex>,
    new: Traces<CellModel<Data>>,
) -> Traces<CellModel<Data>> {
    if path.len() == 0 {
        new
    } else {
        match cell_at(space, path) {
            None => space,
            Some(cell) => match cell.content {
                None => space,
                Some(_) => with_cell(space, path, CellModel { content: Some(new), ..cell }),
            },
        }
    }
}

/// Whether two spaces are the same, part for part.
pub open spec fn same_space<Data>(a: Traces<CellModel<Data>>, b: Traces<CellModel<Data>>) -> bool {
    a.store =~= b.store && a.births =~= b.births && a.snapshots =~= b.snapshots
}

/// The model of a cell, as a function.
pub open spec fn modeller<Data>() -> spec_fn(Cell<Data>) -> CellModel<Data> {
    |cell: Cell<Data>| cell.model()
}

/// The model of a space is its history with each cell seen by its model.
pub proof fn lemma_model_is_map<Data>(space: TracingVec<Cell<Data>>)
    ensures
        space_model(space) == space@.map_values(modeller()),
{
    assert(space_model(space).store =~= space@.map_values(modeller::<Data>()).store);
}

/// A valid space of cells is a valid tracing vector of valid cells.
pub proof fn lemma_space_wf<Data>(space: TracingVec<Cell<Data>>)
    requires
        cells_wf(space_model(space)),
    ensures
        space.wf(),
        forall|i: int| 0 <= i < space@.store.len() ==> (#[trigger] space@.store[i]).model().wf(),
{
    let model = space_model(space);
    assert(model.snapshots == space@.snapshots);
    assert forall|i: int| 0 <= i < space@.store.len() implies (
    #[trigger] space@.store[i]).model().wf() by {
        assert(model.store[i].wf());
    }
}

/// A valid tracing vector of valid cells is a valid space of cells.
pub proof fn lemma_wf_space<Data>(space: TracingVec<Cell<Data>>)
    requires
        space.wf(),
        forall|i: int| 0 <= i < space@.store.len() ==> (#[trigger] space@.store[i]).model().wf(),
    ensures
        cells_wf(space_model(space)),
{
    let model = space_model(space);
    assert forall|i: int| 0 <= i < model.store.len() implies (#[trigger] model.store[i]).wf() by {
        assert(space@.store[i].model().wf());
    }
}

/// A valid space stays valid when a valid cell takes the place of another.
pub proof fn lemma_with_cell_wf<Data>(
    space: Traces<CellModel<Data>>,
    path: Seq<TimelessIndex>,
    cell: CellModel<Data>,
)
    requires
        cells_wf(space),
    ensures
        cell.wf() ==> cells_wf(with_cell(space, path, cell)),
    decreases path.len(),
{
    if cell.wf() {
        let after = with_cell(space, path, cell);
        if path.len() == 0 || path[0].pos >= space.store.len() {
        } else if path.len() == 1 {
            assert forall|i: int| 0 <= i < after.store.len() implies (#[trigger] after.store[i]).wf() by {
                if i != path[0].pos {
                    assert(space.store[i].wf());
                }
            }
        } else {
            let outer = space.store[path[0].pos as int];
            assert(outer.wf());
            match outer.content {
                None => {},
                Some(inner) => {
                    lemma_with_cell_wf(inner, path.drop_first(), cell);
                    assert forall|i: int| 0 <= i < after.store.len() implies (
                    #[trigger] after.store[i]).wf() by {
                        if i != path[0].pos {
                            assert(space.store[i].wf());
                        }
                    }
                },
            }
        }
    }
}

/// Putting a cell where it already is changes nothing.
pub proof fn lemma_with_same_cell<Data>(space: Traces<CellModel<Data>>, path: Seq<TimelessIndex>)
    ensures
        cell_at(space, path) is Some ==> with_cell(space, path, cell_at(space, path)->Some_0)
            == space,
    decreases path.len(),
{
    if path.len() == 0 || path[0].pos >= space.store.len() {
    } else if path.len() == 1 {
        assert(with_cell(space, path, cell_at(space, path)->Some_0).store =~= space.store);
    } else {
        let outer = space.store[path[0].pos as int];
        match outer.content {
            None => {},
            Some(inner) => {
                lemma_with_same_cell(inner, path.drop_first());
                if cell_at(space, path) is Some {
                    assert(with_cell(space, path, cell_at(space, path)->Some_0).store
                        =~= space.store);
                }
            },
        }
    }
}

/// Putting a space where it already is changes nothing.
pub proof fn lemma_with_same_space<Data>(space: Traces<CellModel<Data>>, path: Seq<TimelessIndex>)
    ensures
        space_at(space, path) is Some ==> with_space(space, path, space_at(space, path)->Some_0)
            == space,
{
    if path.len() > 0 && space_at(space, path) is Some {
        lemma_with_same_cell(space, path);
        let cell = cell_at(space, path)->Some_0;
        assert(CellModel { content: Some(cell.content->Some_0), ..cell } == cell);
    }
}

/// A cell that a path leads to in a valid space is valid.
pub proof fn lemma_cell_at_wf<Data>(space: Traces<CellModel<Data>>, path: Seq<TimelessIndex>)
    requires
        cells_wf(space),
    ensures
        cell_at(space, path) is Some ==> cell_at(space, path)->Some_0.wf(),
        space_at(space, path) is Some ==> cells_wf(space_at(space, path)->Some_0),
    decreases path.len(),
{
    if path.len() == 0 || path[0].pos >= space.store.len() {
    } else {
        let outer = space.store[path[0].pos as int];
        assert(outer.wf());
        if path.len() > 1 {
            match outer.content {
                None => {},
                Some(inner) => {
                    lemma_cell_at_wf(inner, path.drop_first());
                },
            }
        }
    }
}

/// The cell that a path with one more slot leads to is the cell in that
/// slot of the space that the path leads to.
pub proof fn lemma_cell_in_space<Data>(
    space: Traces<CellModel<Data>>,
    tail: Seq<TimelessIndex>,
    head: TimelessIndex,
)
    ensures
        cell_at(space, tail.push(head)) == (match space_at(space, tail) {
            None => None,
            Some(inner) => if head.pos < inner.store.len() {
                Some(inner.store[head.pos as int])
            } else {
                None
            },
        }),
    decreases tail.len(),
{
    let path = tail.push(head);
    if tail.len() == 0 {
    } else {
        assert(path[0] == tail[0]);
        assert(path.drop_first() =~= tail.drop_first().push(head));
        if tail[0].pos < space.store.len() {
            let outer = space.store[tail[0].pos as int];
            match outer.content {
                None => {},
                Some(inner) => {
                    if tail.len() == 1 {
                        assert(path.drop_first() =~= seq![head]);
                        assert(tail.drop_first() =~= Seq::<TimelessIndex>::empty());
                    } else {
                        lemma_cell_in_space(inner, tail.drop_first(), head);
                    }
                },
            }
        }
    }
}

/// The cell that a path leads to from its slot `from` on.
pub fn cell_ref<'a, Data>(
    space: &'a TracingVec<Cell<Data>>,
    path: &Vec<TimelessIndex>,
    from: usize,
) -> (res: Option<&'a Cell<Data>>)
    requires
        cells_wf(space_model(*space)),
        from <= path@.len(),
    ensures
        match res {
            Some(cell) => cell_at(space_model(*space), path@.skip(from as int)) == Some(
                cell.model(),
            ) && cell.model().wf(),
            None => cell_at(space_model(*space), path@.skip(from as int)) is None,
        },
    decreases path@.len() - from,
{
    proof {
        lemma_space_wf(*space);
    }
    let rest = Ghost(path@.skip(from as int));
    if from == path.len() {
        return None;
    }
    assert(rest@[0] == path@[from as int]);
    assert(rest@.drop_first() =~= path@.skip(from + 1));
    match space.get(TracingIndex::Timeless(path[from])) {
        Err(_) => None,
        Ok(cell) => {
            if from + 1 == path.len() {
                Some(cell)
            } else {
                match &cell.content {
                    None => None,
                    Some(inner) => cell_ref(inner, path, from + 1),
                }
            }
        },
    }
}

/// The space that a path leads to.
pub fn space_ref<'a, Data>(space: &'a TracingVec<Cell<Data>>, path: &Vec<TimelessIndex>) -> (res:
    Option<&'a TracingVec<Cell<Data>>>)
    requires
        cells_wf(space_model(*space)),
    ensures
        match res {
            Some(inner) => space_at(space_model(*space), path@) == Some(space_model(*inner))
                && cells_wf(space_model(*inner)),
            None => space_at(space_model(*space), path@) is None,
        },
{
    assert(path@.skip(0) =~= path@);
    if path.len() == 0 {
        return Some(space);
    }
    match cell_ref(space, path, 0) {
        None => None,
        Some(cell) => match &cell.content {
            None => None,
            Some(inner) => Some(inner),
        },
    }
}

/// The cell that a path leads to from its slot `from` on, for writing.
/// Nothing but that cell changes.
pub fn cell_mut<'a, Data>(
    space: &'a mut TracingVec<Cell<Data>>,
    path: &Vec<TimelessIndex>,
    from: usize,
) -> (res: Option<&'a mut Cell<Data>>)
    requires
        cells_wf(space_model(*old(space))),
        from <= path@.len(),
    ensures
        match res {
            Some(cell) => cell_at(space_model(*old(space)), path@.skip(from as int)) == Some(
                cell.model(),
            ) && cell.model().wf() && same_space(
                space_model(*final(space)),
                with_cell(space_model(*old(space)), path@.skip(from as int), final(cell).model()),
            ) && (final(cell).model().wf() ==> cells_wf(space_model(*final(space)))),
            None => cell_at(space_model(*old(space)), path@.skip(from as int)) is None
                && same_space(space_model(*final(space)), space_model(*old(space))),
        },
    decreases path@.len() - from,
{
    proof {
        lemma_space_wf(*space);
    }
    let rest = Ghost(path@.skip(from as int));
    if from == path.len() {
        return None;
    }
    assert(rest@[0] == path@[from as int]);
    assert(rest@.drop_first() =~= path@.skip(from + 1));
    let slot = path[from].pos;
    if slot >= space.store_len() {
        return None;
    }
    let ghost before = *space;
    let cell = space.slot_mut(slot);
    if from + 1 == path.len() {
        assert(final(cell).model().wf() ==> cells_wf(
            with_cell(space_model(before), rest@, final(cell).model()),
        )) by {
            lemma_with_cell_wf(space_model(before), rest@, final(cell).model());
        }
        Some(cell)
    } else {
        match &mut cell.content {
            None => None,
            Some(inner) => cell_mut(inner, path, from + 1),
        }
    }
}

/// The space that a path leads to, for writing. Nothing but that space
/// changes.
pub fn space_mut<'a, Data>(space: &'a mut TracingVec<Cell<Data>>, path: &Vec<TimelessIndex>) -> (res:
    Option<&'a mut TracingVec<Cell<Data>>>)
    requires
        cells_wf(space_model(*old(space))),
    ensures
        match res {
            Some(inner) => space_at(space_model(*old(space)), path@) == Some(space_model(*inner))
                && cells_wf(space_model(*inner)) && same_space(
                space_model(*final(space)),
                with_space(space_model(*old(space)), path@, space_model(*final(inner))),
            ) && (cells_wf(space_model(*final(inner))) ==> cells_wf(space_model(*final(space)))),
            None => space_at(space_model(*old(space)), path@) is None && same_space(
                space_model(*final(space)),
                space_model(*old(space)),
            ),
        },
{
    assert(path@.skip(0) =~= path@);
    if path.len() == 0 {
        return Some(space);
    }
    let ghost before = space_model(*space);
    match cell_mut(space, path, 0) {
        None => None,
        Some(cell) => match &mut cell.content {
            None => {
                proof {
                    lemma_with_same_cell(before, path@);
                }
                None
            },
            Some(inner) => Some(inner),
        },
    }
}

} // verus!
