//! Listing the groups of a layer.

use super::space::lemma_space_wf;
use super::{cells_wf, space_model, Boundary, Cell, CellModel, Diagram, Face, MetaCell};
use crate::model::tracing_vec::{TimelessIndex, Traces, TracingVec};
use crate::opetope::viewing::{copy_path, lines, Line, ViewIndex};
use vstd::prelude::*;

verus! {

/// A group as it is listed: the face that the group has as a cell of the
/// layer above, its data, and its own face.
pub type Listed<Data> = (Boundary, Data, Boundary);

/// The face that a group has for the layer above: the line to the group
/// goes out, and the lines to the cells alive in it come in.
pub open spec fn group_face<Data>(
    level: usize,
    path: Seq<TimelessIndex>,
    content: Traces<CellModel<Data>>,
) -> Boundary {
    Boundary {
        ends: Seq::new(
            content.latest().len(),
            |j: int| Line::Leveled { level, path: path.push(TimelessIndex { pos: content.latest()[j] }) },
        ),
        fill: Line::Leveled { level, path },
    }
}

/// The groups among the first `n` cells alive in a space, nested ones
/// included: the last cell first, each group followed by the groups in it.
pub open spec fn groups_in<Data>(
    space: Traces<CellModel<Data>>,
    prefix: Seq<TimelessIndex>,
    level: usize,
    n: int,
) -> Seq<Listed<Data>>
    decreases space, n,
{
    if n <= 0 || n > space.latest().len() {
        Seq::empty()
    } else {
        let slot = space.latest()[n - 1];
        let rest = groups_in(space, prefix, level, n - 1);
        if slot < space.store.len() {
            let cell = space.store[slot as int];
            let path = prefix.push(TimelessIndex { pos: slot });
            match cell.content {
                None => rest,
                Some(inner) => seq![(group_face(level, path, inner), cell.data, cell.face)]
                    + groups_in(inner, path, level, inner.latest().len() as int) + rest,
            }
        } else {
            rest
        }
    }
}

/// What a list of groups says.
pub open spec fn listed<Data>(all: Seq<(Face, &MetaCell<Data>)>) -> Seq<Listed<Data>> {
    Seq::new(all.len(), |i: int| (all[i].0@, all[i].1.data, all[i].1.face@))
}

/// Adds the groups of a space to a list.
fn collect_groups<'a, Data>(
    space: &'a TracingVec<Cell<Data>>,
    prefix: &Vec<TimelessIndex>,
    level: usize,
    out: &mut Vec<(Face, &'a MetaCell<Data>)>,
)
    requires
        cells_wf(space_model(*space)),
    ensures
        listed(final(out)@) == listed(old(out)@) + groups_in(
            space_model(*space),
            prefix@,
            level,
            space_model(*space).latest().len() as int,
        ),
    decreases *space,
{
    proof {
        lemma_space_wf(*space);
    }
    let ghost model = space_model(*space);
    let ghost start = listed(out@);
    let alive = space.iter_timeless_indices();
    let mut n: usize = alive.len();
    let ghost full = groups_in(model, prefix@, level, n as int);
    assert(listed(out@) + groups_in(model, prefix@, level, n as int) =~= start + full);
    while n > 0
        invariant
            space.wf(),
            cells_wf(space_model(*space)),
            model == space_model(*space),
            n <= alive.len(),
            alive@.len() == model.latest().len(),
            forall|q: int|
                0 <= q < alive@.len() ==> (#[trigger] alive@[q]).0.pos == space@.latest()[q]
                    && *alive@[q].1 == space@.latest_values()[q],
            listed(out@) + groups_in(model, prefix@, level, n as int) == start + full,
        decreases n,
    {
        let index = alive[n - 1].0;
        let cell = alive[n - 1].1;
        proof {
            lemma_space_wf(*space);
            assert(space@.snapshots[space@.pseudotime()][n - 1] < space@.store.len());
            assert(cell.model() == model.store[index.pos as int]);
            space.lemma_store_decreases(index.pos as int);
        }
        let ghost before = listed(out@);
        let ghost rest = groups_in(model, prefix@, level, n - 1);
        match &cell.content {
            None => {},
            Some(inner) => {
                proof {
                    lemma_space_wf(*inner);
                }
                let mut path = copy_path(prefix);
                path.push(index);
                let members = inner.timeless_indices();
                let mut ends: Vec<ViewIndex> = Vec::new();
                let mut j: usize = 0;
                while j < members.len()
                    invariant
                        j <= members.len(),
                        ends@.len() == j,
                        forall|k: int|
                            0 <= k < j ==> (#[trigger] ends@[k])@ == (Line::Leveled {
                                level,
                                path: path@.push(members@[k]),
                            }),
                    decreases members.len() - j,
                {
                    let mut full_path = copy_path(&path);
                    full_path.push(members[j]);
                    ends.push(ViewIndex::Leveled { level, path: full_path });
                    j += 1;
                }
                let face = Face { ends, fill: ViewIndex::Leveled { level, path: copy_path(&path) } };
                proof {
                    assert(face@.ends =~= group_face(level, path@, space_model(*inner)).ends);
                }
                out.push((face, &cell.meta));
                let ghost entry = (
                    group_face(level, path@, space_model(*inner)),
                    cell.meta.data,
                    cell.meta.face@,
                );
                assert(listed(out@) =~= before.push(entry));
                collect_groups(inner, &path, level, out);
                proof {
                    let inside = groups_in(
                        space_model(*inner),
                        path@,
                        level,
                        space_model(*inner).latest().len() as int,
                    );
                    assert(groups_in(model, prefix@, level, n as int) == seq![entry] + inside + rest);
                    assert(listed(out@) + rest =~= before + (seq![entry] + inside + rest));
                }
            },
        }
        n -= 1;
    }
    assert(listed(out@) + groups_in(model, prefix@, level, 0) =~= listed(out@));
}

impl<Data> Diagram<Data> {
    /// The groups of this layer, nested ones included, each with the face
    /// that it has for the layer above: the last cell first, each group
    /// followed by the groups in it.
    pub fn iter_groups(&self) -> (all: Vec<(Face, &MetaCell<Data>)>)
        requires
            self.wf(),
        ensures
            listed(all@) == groups_in(
                self@.cells,
                Seq::empty(),
                self@.prev.level() as usize,
                self@.cells.latest().len() as int,
            ),
    {
        let level = self.level() - 1;
        let mut all: Vec<(Face, &MetaCell<Data>)> = Vec::new();
        let prefix: Vec<TimelessIndex> = Vec::new();
        assert(prefix@ =~= Seq::<TimelessIndex>::empty());
        assert(listed(all@) =~= Seq::<Listed<Data>>::empty());
        collect_groups(&self.cells, &prefix, level, &mut all);
        assert(Seq::<Listed<Data>>::empty() + groups_in(
            self@.cells,
            Seq::empty(),
            level,
            self@.cells.latest().len() as int,
        ) =~= groups_in(self@.cells, Seq::empty(), level, self@.cells.latest().len() as int));
        all
    }
}

} // verus!
