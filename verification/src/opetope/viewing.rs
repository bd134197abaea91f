//! How cells are addressed: one at a time, or several siblings at once.

use crate::model::tracing_vec::TimelessIndex;
use vstd::prelude::*;

verus! {

/// The address of a cell: a slot of the tower, or a path through nested
/// cells of the diagram that lies `level` layers above the first diagram.
#[derive(Debug, Ord, PartialOrd, Eq, PartialEq, Hash)]
pub enum ViewIndex {
    Ground(TimelessIndex),
    Leveled { level: usize, path: Vec<TimelessIndex> },
}

/// Several cells of one layer that share their parent, of which there is
/// one at least. From without, a selection is made of the addresses of
/// its cells by `Selection::of_cells`, which refuses an empty list and
/// cells of different layers or parents, and in no other way: what a
/// selection holds can be read through its methods and not written.
#[derive(Debug, Ord, PartialOrd, Eq, PartialEq, Hash)]
pub struct Selection {
    form: Siblings,
}

/// What a selection holds: a slot of the tower, or the path to the parent
/// and the slot of each cell in it.
#[derive(Debug, Ord, PartialOrd, Eq, PartialEq, Hash)]
enum Siblings {
    Ground(TimelessIndex),
    Leveled { level: usize, path: Vec<TimelessIndex>, cells: Vec<TimelessIndex> },
}

/// What a `ViewIndex` says.
pub ghost enum Line {
    Ground(TimelessIndex),
    Leveled { level: usize, path: Seq<TimelessIndex> },
}

/// What a `Selection` says.
pub ghost enum Picked {
    Ground(TimelessIndex),
    Leveled { level: usize, path: Seq<TimelessIndex>, cells: Seq<TimelessIndex> },
}

impl View for ViewIndex {
    type V = Line;

    open spec fn view(&self) -> Line {
        match *self {
            ViewIndex::Ground(index) => Line::Ground(index),
            ViewIndex::Leveled { level, path } => Line::Leveled { level, path: path@ },
        }
    }
}

impl View for Selection {
    type V = Picked;

    closed spec fn view(&self) -> Picked {
        match self.form {
            Siblings::Ground(index) => Picked::Ground(index),
            Siblings::Leveled { level, path, cells } => Picked::Leveled {
                level,
                path: path@,
                cells: cells@,
            },
        }
    }
}

/// The lines that a list of addresses says.
pub open spec fn lines(indices: Seq<ViewIndex>) -> Seq<Line> {
    Seq::new(indices.len(), |i: int| indices[i]@)
}

impl Line {
    /// The layer that the line points into: 0 for the tower.
    pub open spec fn level(self) -> nat {
        match self {
            Line::Ground(_) => 0,
            Line::Leveled { level, .. } => (level + 1) as nat,
        }
    }

    /// The slots to walk through, outermost first.
    pub open spec fn path(self) -> Seq<TimelessIndex> {
        match self {
            Line::Ground(index) => seq![index],
            Line::Leveled { path, .. } => path,
        }
    }

    /// The path to the parent of the cell: all but the last slot.
    pub open spec fn tail(self) -> Seq<TimelessIndex> {
        match self {
            Line::Ground(_) => Seq::empty(),
            Line::Leveled { path, .. } => if path.len() > 0 {
                path.drop_last()
            } else {
                path
            },
        }
    }

    /// The line with `sub` in place of `prefix`, where its path begins with
    /// `prefix`; the line itself otherwise.
    pub open spec fn substituted(self, prefix: Seq<TimelessIndex>, sub: Seq<TimelessIndex>) -> Line {
        match self {
            Line::Ground(_) => self,
            Line::Leveled { level, path } => if prefix.is_prefix_of(path) {
                Line::Leveled { level, path: sub + path.skip(prefix.len() as int) }
            } else {
                self
            },
        }
    }
}

impl Picked {
    pub open spec fn level(self) -> nat {
        match self {
            Picked::Ground(_) => 0,
            Picked::Leveled { level, .. } => (level + 1) as nat,
        }
    }

    /// The path to the parent that the cells share.
    pub open spec fn common_path(self) -> Seq<TimelessIndex> {
        match self {
            Picked::Ground(_) => Seq::empty(),
            Picked::Leveled { path, .. } => path,
        }
    }

    /// The slot of each cell in its parent.
    pub open spec fn heads(self) -> Seq<TimelessIndex> {
        match self {
            Picked::Ground(index) => seq![index],
            Picked::Leveled { cells, .. } => cells,
        }
    }

    /// The full path of each cell.
    pub open spec fn paths(self) -> Seq<Seq<TimelessIndex>> {
        match self {
            Picked::Ground(index) => seq![seq![index]],
            Picked::Leveled { path, cells, .. } => Seq::new(cells.len(), |i: int| path.push(cells[i])),
        }
    }

    /// The address of each cell.
    pub open spec fn cells(self) -> Seq<Line> {
        match self {
            Picked::Ground(index) => seq![Line::Ground(index)],
            Picked::Leveled { level, path, cells } => Seq::new(
                cells.len(),
                |i: int| Line::Leveled { level, path: path.push(cells[i]) },
            ),
        }
    }
}

/// A copy of a path.
pub fn copy_path(path: &Vec<TimelessIndex>) -> (copy: Vec<TimelessIndex>)
    ensures
        copy@ == path@,
{
    let mut copy: Vec<TimelessIndex> = Vec::new();
    let mut i: usize = 0;
    while i < path.len()
        invariant
            i <= path.len(),
            copy@ == path@.take(i as int),
        decreases path.len() - i,
    {
        copy.push(path[i]);
        assert(path@.take(i + 1) =~= path@.take(i as int).push(path@[i as int]));
        i += 1;
    }
    assert(path@.take(i as int) =~= path@);
    copy
}

/// Whether two paths are the same.
pub fn same_path(a: &Vec<TimelessIndex>, b: &Vec<TimelessIndex>) -> (same: bool)
    ensures
        same == (a@ == b@),
{
    if a.len() != b.len() {
        return false;
    }
    let mut i: usize = 0;
    while i < a.len()
        invariant
            a@.len() == b@.len(),
            i <= a.len(),
            a@.take(i as int) == b@.take(i as int),
        decreases a.len() - i,
    {
        if a[i].pos != b[i].pos {
            assert(a@[i as int] != b@[i as int]);
            return false;
        }
        assert(a@.take(i + 1) =~= a@.take(i as int).push(a@[i as int]));
        assert(b@.take(i + 1) =~= b@.take(i as int).push(b@[i as int]));
        i += 1;
    }
    assert(a@.take(i as int) =~= a@);
    assert(b@.take(i as int) =~= b@);
    true
}

/// Whether the path begins with the prefix.
pub fn starts_with(path: &Vec<TimelessIndex>, prefix: &Vec<TimelessIndex>) -> (b: bool)
    ensures
        b == prefix@.is_prefix_of(path@),
{
    if prefix.len() > path.len() {
        return false;
    }
    let mut i: usize = 0;
    while i < prefix.len()
        invariant
            prefix@.len() <= path@.len(),
            i <= prefix.len(),
            forall|k: int| 0 <= k < i ==> prefix@[k] == path@[k],
        decreases prefix.len() - i,
    {
        if prefix[i].pos != path[i].pos {
            assert(prefix@[i as int] != path@[i as int]);
            return false;
        }
        i += 1;
    }
    true
}

impl Clone for ViewIndex {
    fn clone(&self) -> (copy: Self)
        ensures
            copy@ == self@,
    {
        match self {
            ViewIndex::Ground(index) => ViewIndex::Ground(*index),
            ViewIndex::Leveled { level, path } => ViewIndex::Leveled {
                level: *level,
                path: copy_path(path),
            },
        }
    }
}

impl Clone for Selection {
    fn clone(&self) -> (copy: Self)
        ensures
            copy@ == self@,
    {
        proof {
            use_type_invariant(self);
        }
        match &self.form {
            Siblings::Ground(index) => Selection { form: Siblings::Ground(*index) },
            Siblings::Leveled { level, path, cells } => Selection {
                form: Siblings::Leveled {
                    level: *level,
                    path: copy_path(path),
                    cells: copy_path(cells),
                },
            },
        }
    }
}

impl ViewIndex {
    /// Whether the level of the line fits a machine word.
    pub open spec fn wf(self) -> bool {
        self@.level() <= usize::MAX
    }

    /// The layer that the address points into: 0 for the tower.
    pub fn level(&self) -> (level: usize)
        requires
            self.wf(),
        ensures
            level == self@.level(),
    {
        match self {
            ViewIndex::Ground(_) => 0,
            ViewIndex::Leveled { level, .. } => *level + 1,
        }
    }

    /// Whether the address points into the layer of the given level.
    pub fn at_level(&self, level: usize) -> (b: bool)
        ensures
            b == (self@.level() == level),
    {
        match self {
            ViewIndex::Ground(_) => level == 0,
            ViewIndex::Leveled { level: own, .. } => level >= 1 && *own == level - 1,
        }
    }

    /// Whether the address points into a layer above that of the given
    /// level.
    pub fn above_level(&self, level: usize) -> (b: bool)
        ensures
            b == (self@.level() > level),
    {
        match self {
            ViewIndex::Ground(_) => false,
            ViewIndex::Leveled { level: own, .. } => *own >= level,
        }
    }

    /// The slot, if the address points into the tower.
    pub fn as_ground(&self) -> (index: Option<TimelessIndex>)
        ensures
            index == (match self@ {
                Line::Ground(index) => Some(index),
                Line::Leveled { .. } => None,
            }),
    {
        match self {
            ViewIndex::Ground(index) => Some(*index),
            ViewIndex::Leveled { .. } => None,
        }
    }

    /// The slots to walk through, outermost first.
    pub fn path(&self) -> (path: Vec<TimelessIndex>)
        ensures
            path@ == self@.path(),
    {
        match self {
            ViewIndex::Ground(index) => {
                let mut path = Vec::new();
                path.push(*index);
                assert(path@ =~= seq![*index]);
                path
            },
            ViewIndex::Leveled { path, .. } => copy_path(path),
        }
    }

    /// The path of the cell, as the one path of a list.
    pub fn as_paths(&self) -> (paths: Vec<Vec<TimelessIndex>>)
        ensures
            paths@.len() == 1,
            paths@[0]@ == self@.path(),
    {
        let mut paths: Vec<Vec<TimelessIndex>> = Vec::new();
        paths.push(self.path());
        paths
    }

    /// The path to the parent of the cell: all but the last slot.
    pub fn tail(&self) -> (tail: Vec<TimelessIndex>)
        ensures
            tail@ == self@.tail(),
    {
        match self {
            ViewIndex::Ground(_) => Vec::new(),
            ViewIndex::Leveled { path, .. } => {
                let mut tail = copy_path(path);
                if tail.len() > 0 {
                    tail.pop();
                }
                tail
            },
        }
    }

    /// Puts `sub` in place of `prefix` where the path begins with `prefix`,
    /// and leaves the address as it is otherwise.
    pub fn subst_prefix(&mut self, prefix: &Vec<TimelessIndex>, sub: &Vec<TimelessIndex>)
        ensures
            final(self)@ == old(self)@.substituted(prefix@, sub@),
    {
        match self {
            ViewIndex::Ground(_) => {},
            ViewIndex::Leveled { level, path } => {
                if starts_with(path, prefix) {
                    let mut renewed = copy_path(sub);
                    let mut i: usize = prefix.len();
                    while i < path.len()
                        invariant
                            prefix@.len() <= i <= path@.len(),
                            renewed@ == sub@ + path@.subrange(prefix@.len() as int, i as int),
                        decreases path.len() - i,
                    {
                        renewed.push(path[i]);
                        assert(path@.subrange(prefix@.len() as int, i + 1)
                            =~= path@.subrange(prefix@.len() as int, i as int).push(
                            path@[i as int],
                        ));
                        i += 1;
                    }
                    assert(path@.subrange(prefix@.len() as int, i as int) =~= path@.skip(
                        prefix@.len() as int,
                    ));
                    *path = renewed;
                }
            },
        }
    }

    /// Whether two addresses say the same.
    pub fn same(&self, other: &ViewIndex) -> (same: bool)
        ensures
            same == (self@ == other@),
    {
        match (self, other) {
            (ViewIndex::Ground(a), ViewIndex::Ground(b)) => a.pos == b.pos,
            (ViewIndex::Leveled { level: la, path: pa }, ViewIndex::Leveled { level: lb, path: pb }) => {
                *la == *lb && same_path(pa, pb)
            },
            _ => false,
        }
    }
}

/// A copy of a list of addresses.
pub fn copy_lines(indices: &Vec<ViewIndex>) -> (copy: Vec<ViewIndex>)
    ensures
        lines(copy@) == lines(indices@),
{
    let mut copy: Vec<ViewIndex> = Vec::new();
    let mut i: usize = 0;
    while i < indices.len()
        invariant
            i <= indices.len(),
            copy@.len() == i,
            forall|k: int| 0 <= k < i ==> (#[trigger] copy@[k])@ == indices@[k]@,
        decreases indices.len() - i,
    {
        copy.push(indices[i].clone());
        i += 1;
    }
    assert(lines(copy@) =~= lines(indices@));
    copy
}

/// Whether a list of addresses holds one that says `line`.
pub fn holds_line(indices: &Vec<ViewIndex>, line: &ViewIndex) -> (b: bool)
    ensures
        b == lines(indices@).contains(line@),
{
    let mut i: usize = 0;
    while i < indices.len()
        invariant
            i <= indices.len(),
            forall|k: int| 0 <= k < i ==> lines(indices@)[k] != line@,
        decreases indices.len() - i,
    {
        if indices[i].same(line) {
            assert(lines(indices@)[i as int] == line@);
            return true;
        }
        i += 1;
    }
    false
}

impl Selection {
    /// What every selection keeps: it holds one cell at least.
    #[verifier::type_invariant]
    closed spec fn held(self) -> bool {
        self@.heads().len() > 0
    }

    /// Whether the level of the selection fits a machine word.
    pub open spec fn wf(self) -> bool {
        self@.level() <= usize::MAX
    }

    /// The selection of one cell of the tower.
    pub(crate) fn ground(index: TimelessIndex) -> (picked: Selection)
        ensures
            picked@ == Picked::Ground(index),
    {
        Selection { form: Siblings::Ground(index) }
    }

    /// The selection of the cells at the given slots of one parent, of
    /// which there must be one at least.
    pub(crate) fn siblings(level: usize, path: Vec<TimelessIndex>, cells: Vec<TimelessIndex>) -> (picked:
        Selection)
        requires
            cells@.len() > 0,
        ensures
            picked@ == (Picked::Leveled { level, path: path@, cells: cells@ }),
    {
        Selection { form: Siblings::Leveled { level, path, cells } }
    }

    /// How many cells there are: one at least.
    pub fn len(&self) -> (n: usize)
        ensures
            n == self@.heads().len(),
            n > 0,
    {
        proof {
            use_type_invariant(self);
        }
        match &self.form {
            Siblings::Ground(_) => 1,
            Siblings::Leveled { cells, .. } => cells.len(),
        }
    }

    /// The slot of each cell in its parent.
    pub fn heads(&self) -> (heads: Vec<TimelessIndex>)
        ensures
            heads@ == self@.heads(),
            heads@.len() > 0,
    {
        proof {
            use_type_invariant(self);
        }
        match &self.form {
            Siblings::Ground(index) => {
                let mut heads: Vec<TimelessIndex> = Vec::new();
                heads.push(*index);
                assert(heads@ =~= seq![*index]);
                heads
            },
            Siblings::Leveled { cells, .. } => copy_path(cells),
        }
    }

    /// The layer that the cells are in: 0 for the tower.
    pub fn level(&self) -> (level: usize)
        requires
            self.wf(),
        ensures
            level == self@.level(),
    {
        match &self.form {
            Siblings::Ground(_) => 0,
            Siblings::Leveled { level, .. } => *level + 1,
        }
    }

    /// Whether the cells are in the layer of the given level.
    pub fn at_level(&self, level: usize) -> (b: bool)
        ensures
            b == (self@.level() == level),
    {
        match &self.form {
            Siblings::Ground(_) => level == 0,
            Siblings::Leveled { level: own, .. } => level >= 1 && *own == level - 1,
        }
    }

    /// Whether the cells are in a layer above that of the given level.
    pub fn above_level(&self, level: usize) -> (b: bool)
        ensures
            b == (self@.level() > level),
    {
        match &self.form {
            Siblings::Ground(_) => false,
            Siblings::Leveled { level: own, .. } => *own >= level,
        }
    }

    /// The slot, if the selection is in the tower.
    pub fn as_ground(&self) -> (index: Option<TimelessIndex>)
        ensures
            index == (match self@ {
                Picked::Ground(index) => Some(index),
                Picked::Leveled { .. } => None,
            }),
    {
        match &self.form {
            Siblings::Ground(index) => Some(*index),
            Siblings::Leveled { .. } => None,
        }
    }

    /// The path to the parent that the cells share.
    pub fn common_path(&self) -> (path: Vec<TimelessIndex>)
        ensures
            path@ == self@.common_path(),
    {
        match &self.form {
            Siblings::Ground(_) => Vec::new(),
            Siblings::Leveled { path, .. } => copy_path(path),
        }
    }

    /// The full path of each cell.
    pub fn as_paths(&self) -> (paths: Vec<Vec<TimelessIndex>>)
        ensures
            paths@.len() == self@.paths().len(),
            forall|i: int| 0 <= i < paths@.len() ==> (#[trigger] paths@[i])@ == self@.paths()[i],
    {
        match &self.form {
            Siblings::Ground(index) => {
                let mut path: Vec<TimelessIndex> = Vec::new();
                path.push(*index);
                assert(path@ =~= seq![*index]);
                let mut paths: Vec<Vec<TimelessIndex>> = Vec::new();
                paths.push(path);
                paths
            },
            Siblings::Leveled { path, cells, .. } => {
                let mut paths: Vec<Vec<TimelessIndex>> = Vec::new();
                let mut i: usize = 0;
                while i < cells.len()
                    invariant
                        i <= cells.len(),
                        paths@.len() == i,
                        forall|k: int|
                            0 <= k < i ==> (#[trigger] paths@[k])@ == path@.push(cells@[k]),
                    decreases cells.len() - i,
                {
                    let mut full = copy_path(path);
                    full.push(cells[i]);
                    paths.push(full);
                    i += 1;
                }
                paths
            },
        }
    }

    /// The address of each cell.
    pub fn as_cells(&self) -> (cells: Vec<ViewIndex>)
        ensures
            lines(cells@) == self@.cells(),
    {
        match &self.form {
            Siblings::Ground(index) => {
                let mut all: Vec<ViewIndex> = Vec::new();
                all.push(ViewIndex::Ground(*index));
                assert(lines(all@) =~= self@.cells());
                all
            },
            Siblings::Leveled { level, path, cells } => {
                let mut all: Vec<ViewIndex> = Vec::new();
                let mut i: usize = 0;
                while i < cells.len()
                    invariant
                        i <= cells.len(),
                        all@.len() == i,
                        forall|k: int|
                            0 <= k < i ==> (#[trigger] all@[k])@ == (Line::Leveled {
                                level: *level,
                                path: path@.push(cells@[k]),
                            }),
                    decreases cells.len() - i,
                {
                    let mut full = copy_path(path);
                    full.push(cells[i]);
                    all.push(ViewIndex::Leveled { level: *level, path: full });
                    i += 1;
                }
                assert(lines(all@) =~= self@.cells());
                all
            },
        }
    }

    /// The selection of the given cells, which must be at least one, all
    /// of one layer and with one parent; nothing otherwise.
    pub fn of_cells(cells: &Vec<ViewIndex>) -> (picked: Option<Selection>)
        ensures
            match picked {
                Some(picked) => cells@.len() > 0 && lines(cells@) == picked@.cells(),
                None => cells@.len() == 0 || !exists|picked: Picked|
                    lines(cells@) == #[trigger] picked.cells(),
            },
    {
        if cells.len() == 0 {
            return None;
        }
        match &cells[0] {
            ViewIndex::Ground(index) => {
                if cells.len() == 1 {
                    let picked = Selection { form: Siblings::Ground(*index) };
                    assert(lines(cells@) =~= picked@.cells());
                    Some(picked)
                } else {
                    proof {
                        assert forall|picked: Picked| lines(cells@) != #[trigger] picked.cells() by {
                            if lines(cells@) == picked.cells() {
                                assert(lines(cells@).len() == picked.cells().len());
                                match picked {
                                    Picked::Ground(_) => {
                                        assert(picked.cells().len() == 1);
                                    },
                                    Picked::Leveled { .. } => {
                                        assert(lines(cells@)[0] == picked.cells()[0]);
                                    },
                                }
                            }
                        }
                    }
                    None
                }
            },
            ViewIndex::Leveled { level, path } => {
                if path.len() == 0 {
                    proof {
                        assert forall|picked: Picked| lines(cells@) != #[trigger] picked.cells() by {
                            if lines(cells@) == picked.cells() {
                                assert(lines(cells@).len() == picked.cells().len());
                                assert(lines(cells@)[0] == picked.cells()[0]);
                                match picked {
                                    Picked::Ground(_) => {},
                                    Picked::Leveled { level: l, path: p, cells: c } => {
                                        assert(p.push(c[0]).len() > 0);
                                    },
                                }
                            }
                        }
                    }
                    return None;
                }
                let mut parent = copy_path(path);
                parent.pop();
                let mut heads: Vec<TimelessIndex> = Vec::new();
                let mut i: usize = 0;
                while i < cells.len()
                    invariant
                        i <= cells.len(),
                        cells@.len() > 0,
                        cells@[0] == (ViewIndex::Leveled { level: *level, path: *path }),
                        path@.len() > 0,
                        parent@ == path@.drop_last(),
                        heads@.len() == i,
                        forall|k: int|
                            0 <= k < i ==> (#[trigger] cells@[k])@ == (Line::Leveled {
                                level: *level,
                                path: parent@.push(heads@[k]),
                            }),
                    decreases cells.len() - i,
                {
                    let fits = match &cells[i] {
                        ViewIndex::Ground(_) => None,
                        ViewIndex::Leveled { level: other_level, path: other } => {
                            if *other_level == *level && other.len() == path.len() && starts_with(
                                other,
                                &parent,
                            ) {
                                assert(other@ =~= parent@.push(other@[other@.len() - 1]));
                                Some(other[other.len() - 1])
                            } else {
                                None
                            }
                        },
                    };
                    match fits {
                        Some(head) => {
                            heads.push(head);
                        },
                        None => {
                            proof {
                                assert forall|picked: Picked|
                                    lines(cells@) != #[trigger] picked.cells() by {
                                    if lines(cells@) == picked.cells() {
                                assert(lines(cells@).len() == picked.cells().len());
                                        assert(lines(cells@)[0] == picked.cells()[0]);
                                        assert(lines(cells@)[i as int] == picked.cells()[i as int]);
                                        match picked {
                                            Picked::Ground(_) => {},
                                            Picked::Leveled { level: l, path: p, cells: c } => {
                                                assert(p.push(c[0]).drop_last() =~= p);
                                                assert(p.push(c[i as int]).drop_last() =~= p);
                                                assert(p.is_prefix_of(p.push(c[i as int])));
                                            },
                                        }
                                    }
                                }
                            }
                            return None;
                        },
                    }
                    i += 1;
                }
                let picked = Selection {
                    form: Siblings::Leveled { level: *level, path: parent, cells: heads },
                };
                assert(lines(cells@) =~= picked@.cells());
                Some(picked)
            },
        }
    }
}

#[derive(Debug, Clone, Ord, PartialOrd, Eq, PartialEq, Hash)]
pub enum Message {
    Idle,
    Select(ViewIndex),
}

} // verus!
