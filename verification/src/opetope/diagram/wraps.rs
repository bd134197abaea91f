//! Wraps: the cells that a layer gets to close what is new in the layer
//! beneath it.

use super::space::{
    cell_at, cell_mut, lemma_model_is_map, lemma_space_wf, lemma_wf_space, modeller, with_cell,
};
use super::{cells_wf, space_model, Boundary, Cell, CellModel, Diagram, Face};
use crate::model::tracing_vec::{TimedIndex, TimelessIndex, Traces, TracingIndex, TracingVec};
use crate::opetope::viewing::{copy_lines, copy_path, holds_line, lines, Line, ViewIndex};
use crate::opetope::{Layer, Stack};
use vstd::prelude::*;

verus! {

/// Where a run of values that meet a test ends, if it starts at `from`.
pub open spec fn run_end<T>(all: Seq<T>, from: int, pred: spec_fn(T) -> bool) -> int
    decreases all.len() - from,
{
    if 0 <= from < all.len() && pred(all[from]) {
        run_end(all, from + 1, pred)
    } else {
        from
    }
}

/// A run ends within the values or at their end. All the values of the
/// run meet the test, and the value that follows it, if there is one,
/// does not.
pub proof fn lemma_run_end<T>(all: Seq<T>, from: int, pred: spec_fn(T) -> bool)
    requires
        0 <= from <= all.len(),
    ensures
        from <= run_end(all, from, pred) <= all.len(),
        forall|p: int| from <= p < run_end(all, from, pred) ==> pred(#[trigger] all[p]),
        run_end(all, from, pred) < all.len() ==> !pred(all[run_end(all, from, pred)]),
    decreases all.len() - from,
{
    if from < all.len() && pred(all[from]) {
        lemma_run_end(all, from + 1, pred);
    }
}

/// A cell without content, with the given data and face.
pub open spec fn wrap_cell<Data>(data: Data, ends: Seq<Line>, fill: Line) -> CellModel<Data> {
    CellModel { data, face: Boundary { ends, fill }, content: None }
}

/// The cells with one more at the given place: appended to the latest
/// snapshot where that holds nothing, and inserted in a new one otherwise.
pub open spec fn placed<Data>(cells: Traces<CellModel<Data>>, at: int, wrap: CellModel<Data>) -> Traces<
    CellModel<Data>,
> {
    if cells.latest().len() == 0 {
        cells.pushed(wrap)
    } else {
        cells.inserted(at, wrap)
    }
}

impl<Data> Stack<Data> {
    /// The test that all the lines that come into a cell are before the
    /// given one.
    pub open spec fn all_before(self, lowest: Line) -> spec_fn(CellModel<Data>) -> bool {
        |cell: CellModel<Data>|
            forall|i: int|
                0 <= i < cell.face.ends.len() ==> self.before(#[trigger] cell.face.ends[i], lowest)
    }

    /// The test that the line that goes out of a cell is not before the
    /// given one.
    pub open spec fn fill_not_before(self, line: Line) -> spec_fn(CellModel<Data>) -> bool {
        |cell: CellModel<Data>| !self.before(cell.face.fill, line)
    }
}

/// The test that the given line does not come into a cell.
pub open spec fn lacks_end<Data>(line: Line) -> spec_fn(CellModel<Data>) -> bool {
    |cell: CellModel<Data>| !cell.face.ends.contains(line)
}

impl<Data> Layer<Data> {
    /// Where the wrap of an extrusion goes. Of the lines that come into
    /// the wrap, take the lowest. The cells begin with those that lie above
    /// it, all their lines before it in the order of the layer beneath,
    /// in which a line of a diagram is not after itself. The wrap goes
    /// after the last of these: what lies above it stands before it, and
    /// what leads away from it stands behind.
    pub open spec fn extrusion_place(self, lines: Seq<Line>) -> int {
        let cells = self.cells.latest_values();
        let low = self.prev.lowest(lines);
        run_end(cells, 0, self.prev.all_before(low))
    }

    /// The wrap of an extrusion goes to a place among the cells or to
    /// their end. Every cell that stands before it lies above the lowest
    /// of the lines that come into the wrap, so a cell that does not lie
    /// above that line stands behind the wrap; and the cell that the wrap
    /// is put in front of is such a cell.
    pub proof fn lemma_extrusion_place(self, lines: Seq<Line>)
        ensures
            0 <= self.extrusion_place(lines) <= self.cells.latest_values().len(),
            forall|p: int|
                0 <= p < self.extrusion_place(lines) ==> self.prev.all_before(self.prev.lowest(lines))(
                    #[trigger] self.cells.latest_values()[p],
                ),
            self.extrusion_place(lines) < self.cells.latest_values().len() ==> !self.prev.all_before(
                self.prev.lowest(lines),
            )(self.cells.latest_values()[self.extrusion_place(lines)]),
    {
        lemma_run_end(
            self.cells.latest_values(),
            0,
            self.prev.all_before(self.prev.lowest(lines)),
        );
    }

    /// Where the wrap of a sprout goes. The cells begin with those that
    /// the old line does not come into; these begin with those whose line
    /// out is not before the old line. The wrap goes after the last cell
    /// that the old line does not come into, if the line out of that cell
    /// is before the old line; to the front otherwise.
    pub open spec fn sprout_place(self, old_end: Line) -> int {
        let cells = self.cells.latest_values();
        let a = run_end(cells, 0, lacks_end(old_end));
        let b = run_end(cells.take(a), 0, self.prev.fill_not_before(old_end));
        if b < a {
            a
        } else {
            0
        }
    }

    /// The layer with a wrap at the given place of its top cells.
    pub open spec fn wrapped(self, at: int, wrap: CellModel<Data>) -> Layer<Data> {
        Layer { cells: placed(self.cells, at, wrap), ..self }
    }

    /// The address that the next cell at the top of this layer will get.
    pub open spec fn next_line(self) -> Line {
        self.line(seq![TimelessIndex { pos: self.cells.store.len() as usize }])
    }
}

/// The first window of `ends`, from `from` on, that holds exactly the
/// lines of `inputs`.
pub open spec fn window(ends: Seq<Line>, inputs: Seq<Line>, from: int) -> Option<int>
    decreases ends.len() - from,
{
    if from < 0 || inputs.len() == 0 || from + inputs.len() > ends.len() {
        None
    } else if ends.subrange(from, from + inputs.len()) == inputs {
        Some(from)
    } else {
        window(ends, inputs, from + 1)
    }
}

/// The first end among the cells alive in a space, from the one at place
/// `from` on and through the contents of groups, into which the lines of
/// `inputs` come one after another: its path, and where the lines begin
/// among those that come into it.
pub open spec fn find_inputs<Data>(space: Traces<CellModel<Data>>, inputs: Seq<Line>, from: int) -> Option<
    (Seq<TimelessIndex>, int),
>
    decreases space, space.latest().len() - from,
{
    if from < 0 || from >= space.latest().len() {
        None
    } else {
        let slot = space.latest()[from];
        let here = if slot < space.store.len() {
            let cell = space.store[slot as int];
            match cell.content {
                None => match window(cell.face.ends, inputs, 0) {
                    Some(at) => Some((seq![TimelessIndex { pos: slot }], at)),
                    None => None,
                },
                Some(inner) => match find_inputs(inner, inputs, 0) {
                    Some(found) => Some((seq![TimelessIndex { pos: slot }] + found.0, found.1)),
                    None => None,
                },
            }
        } else {
            None
        };
        match here {
            Some(found) => Some(found),
            None => find_inputs(space, inputs, from + 1),
        }
    }
}

/// What is found by `find_inputs` is an end of the space, and the window
/// lies within the lines that come into it.
pub proof fn lemma_find_inputs<Data>(space: Traces<CellModel<Data>>, inputs: Seq<Line>, from: int)
    ensures
        match find_inputs(space, inputs, from) {
            None => true,
            Some(found) => cell_at(space, found.0) is Some
                && cell_at(space, found.0)->Some_0.content
                is None && 0 <= found.1 && found.1 + inputs.len() <= cell_at(
                space,
                found.0,
            )->Some_0.face.ends.len() && inputs.len() > 0,
        },
    decreases space, space.latest().len() - from,
{
    if from < 0 || from >= space.latest().len() {
    } else {
        let slot = space.latest()[from];
        if slot < space.store.len() {
            let cell = space.store[slot as int];
            match cell.content {
                None => {
                    lemma_window(cell.face.ends, inputs, 0);
                },
                Some(inner) => {
                    lemma_find_inputs(inner, inputs, 0);
                    match find_inputs(inner, inputs, 0) {
                        Some(found) => {
                            let path = seq![TimelessIndex { pos: slot }] + found.0;
                            assert(found.0.len() > 0);
                            assert(path.drop_first() =~= found.0);
                        },
                        None => {},
                    }
                },
            }
        }
        lemma_find_inputs(space, inputs, from + 1);
    }
}

/// A window that is found lies within the lines.
pub proof fn lemma_window(ends: Seq<Line>, inputs: Seq<Line>, from: int)
    ensures
        match window(ends, inputs, from) {
            None => true,
            Some(at) => from <= at && at + inputs.len() <= ends.len() && inputs.len() > 0,
        },
    decreases ends.len() - from,
{
    if from < 0 || inputs.len() == 0 || from + inputs.len() > ends.len() {
    } else if ends.subrange(from, from + inputs.len()) == inputs {
    } else {
        lemma_window(ends, inputs, from + 1);
    }
}

/// What stands in the place of an end after it was split by a wrap: two
/// ends. Into the first come the given lines, and out of it goes the new
/// line. Into the second comes what came into the old cell, with the new
/// line in place of the window of as many lines at `at`; out of it goes
/// what went out of the old cell.
///
/// The two stand where the old cell stood, as its content: the old cell
/// keeps its slot, its data and its face, and is a group from now on. So
/// an address of the old cell that was taken before, and every line of
/// the layer above that names it, still leads to a cell with the face it
/// had. Between them the two ends take in the lines that came into the
/// old cell and give out the line that went out of it, and the new line
/// runs from the first to the second. Were the old cell taken out of its
/// space instead, such a line would lead to a cell that is no longer
/// alive.
pub open spec fn split_cell<Data>(
    cell: CellModel<Data>,
    at: int,
    top: Data,
    bot: Data,
    inputs: Seq<Line>,
    created: Line,
) -> CellModel<Data> {
    CellModel {
        content: Some(
            Traces::of_values(
                seq![
                    wrap_cell(top, inputs, created),
                    wrap_cell(
                        bot,
                        cell.face.ends.take(at).push(created) + cell.face.ends.skip(
                            at + inputs.len(),
                        ),
                        cell.face.fill,
                    ),
                ],
            ),
        ),
        ..cell
    }
}

/// Whether the lines of `ends` from `at` on begin with those of `inputs`.
fn window_here(ends: &Vec<ViewIndex>, inputs: &Vec<ViewIndex>, at: usize) -> (b: bool)
    requires
        at + inputs@.len() <= ends@.len(),
    ensures
        b == (lines(ends@).subrange(at as int, at + inputs@.len()) == lines(inputs@)),
{
    let ghost part = lines(ends@).subrange(at as int, at + inputs@.len());
    let n = ends.len();
    let mut k: usize = 0;
    while k < inputs.len()
        invariant
            k <= inputs.len(),
            n == ends@.len(),
            at + inputs@.len() <= ends@.len(),
            part == lines(ends@).subrange(at as int, at + inputs@.len()),
            forall|j: int| 0 <= j < k ==> part[j] == lines(inputs@)[j],
        decreases inputs.len() - k,
    {
        if !ends[at + k].same(&inputs[k]) {
            assert(part[k as int] != lines(inputs@)[k as int]);
            return false;
        }
        k += 1;
    }
    assert(part =~= lines(inputs@));
    true
}

/// The first window of `ends` that holds exactly the lines of `inputs`.
fn find_window(ends: &Vec<ViewIndex>, inputs: &Vec<ViewIndex>) -> (res: Option<usize>)
    ensures
        match res {
            Some(at) => window(lines(ends@), lines(inputs@), 0) == Some(at as int),
            None => window(lines(ends@), lines(inputs@), 0) is None,
        },
{
    if inputs.len() == 0 || inputs.len() > ends.len() {
        return None;
    }
    let last = ends.len() - inputs.len();
    let mut at: usize = 0;
    while at <= last
        invariant
            inputs@.len() > 0,
            last == ends@.len() - inputs@.len(),
            last < usize::MAX,
            at <= last + 1,
            window(lines(ends@), lines(inputs@), 0) == window(
                lines(ends@),
                lines(inputs@),
                at as int,
            ),
        decreases last + 1 - at,
    {
        if window_here(ends, inputs, at) {
            return Some(at);
        }
        at += 1;
    }
    None
}

/// The first end among the cells alive in a space, through the contents
/// of groups, into which the given lines come one after another.
pub fn find_with_inputs<Data>(space: &TracingVec<Cell<Data>>, inputs: &Vec<ViewIndex>) -> (res: Option<
    (Vec<TimelessIndex>, usize),
>)
    requires
        cells_wf(space_model(*space)),
    ensures
        match res {
            Some(found) => find_inputs(space_model(*space), lines(inputs@), 0) == Some(
                (found.0@, found.1 as int),
            ),
            None => find_inputs(space_model(*space), lines(inputs@), 0) is None,
        },
    decreases *space,
{
    proof {
        lemma_space_wf(*space);
    }
    let ghost model = space_model(*space);
    let alive = space.iter_timeless_indices();
    let mut p: usize = 0;
    while p < alive.len()
        invariant
            space.wf(),
            cells_wf(space_model(*space)),
            model == space_model(*space),
            p <= alive.len(),
            alive@.len() == model.latest().len(),
            forall|q: int|
                0 <= q < alive@.len() ==> (#[trigger] alive@[q]).0.pos == space@.latest()[q]
                    && *alive@[q].1 == space@.latest_values()[q],
            find_inputs(model, lines(inputs@), 0) == find_inputs(model, lines(inputs@), p as int),
        decreases alive.len() - p,
    {
        let index = alive[p].0;
        let cell = alive[p].1;
        proof {
            lemma_space_wf(*space);
            assert(space@.snapshots[space@.pseudotime()][p as int] < space@.store.len());
            assert(cell.model() == model.store[index.pos as int]);
            space.lemma_store_decreases(index.pos as int);
        }
        match &cell.content {
            None => {
                match find_window(&cell.meta.face.ends, inputs) {
                    Some(at) => {
                        let mut path: Vec<TimelessIndex> = Vec::new();
                        path.push(index);
                        assert(path@ =~= seq![index]);
                        return Some((path, at));
                    },
                    None => {},
                }
            },
            Some(inner) => {
                match find_with_inputs(inner, inputs) {
                    Some((mut path, at)) => {
                        let ghost found = path@;
                        path.insert(0, index);
                        assert(path@ =~= seq![index] + found);
                        return Some((path, at));
                    },
                    None => {},
                }
            },
        }
        p += 1;
    }
    None
}

impl<Data> Diagram<Data> {
    /// The cells alive at the top of the layer, in order.
    pub(crate) fn top_cells(&self) -> (all: Vec<&Cell<Data>>)
        requires
            self.wf(),
        ensures
            all@.len() == self@.cells.latest().len(),
            forall|p: int|
                0 <= p < all@.len() ==> (#[trigger] all@[p]).model() == self@.cells.latest_values()[p],
    {
        proof {
            lemma_space_wf(self.cells);
        }
        let all = self.cells.latest();
        proof {
            assert forall|p: int| 0 <= p < all@.len() implies (#[trigger] all@[p]).model()
                == self@.cells.latest_values()[p] by {
                assert(self.cells@.snapshots[self.cells@.pseudotime()][p] < self.cells@.store.len());
            }
        }
        all
    }

    /// Puts a cell at the given place among the top cells of the layer.
    /// Gives the address of the cell.
    fn place(&mut self, at: usize, wrap: Cell<Data>) -> (index: ViewIndex)
        requires
            old(self).wf(),
            wrap.model().wf(),
            at <= old(self)@.cells.latest().len(),
        ensures
            final(self).wf(),
            final(self)@ == old(self)@.wrapped(at as int, wrap.model()),
            index@ == old(self)@.next_line(),
    {
        proof {
            lemma_space_wf(self.cells);
            lemma_model_is_map(self.cells);
            self.cells@.lemma_map_pushed(modeller(), wrap);
            self.cells@.lemma_map_inserted(modeller(), at as int, wrap);
        }
        let level = self.level() - 1;
        let ghost before = self.cells;
        let slot = self.cells.store_len();
        let len = self.cells.len();
        if len == 0 {
            self.cells.push(wrap);
        } else if at < len {
            let pseudotime = self.cells.first_index().pseudotime;
            let timed = TimedIndex { pos: at, pseudotime };
            proof {
                let latest = before@.latest();
                assert(latest.no_duplicates());
                assert(latest.contains(latest[at as int]));
                assert(latest[latest.index_of(latest[at as int])] == latest[at as int]);
            }
            self.cells.insert_before(TracingIndex::Timed(timed), wrap);
        } else {
            let pseudotime = self.cells.first_index().pseudotime;
            let timed = TimedIndex { pos: (at - 1) as usize, pseudotime };
            proof {
                let latest = before@.latest();
                assert(latest.no_duplicates());
                assert(latest.contains(latest[at - 1]));
                assert(latest[latest.index_of(latest[at - 1])] == latest[at - 1]);
            }
            self.cells.insert_after(TracingIndex::Timed(timed), wrap);
        }
        proof {
            lemma_model_is_map(self.cells);
            assert forall|i: int| 0 <= i < self.cells@.store.len() implies (
            #[trigger] self.cells@.store[i]).model().wf() by {
                if i < before@.store.len() {
                    assert(self.cells@.store[i] == before@.store[i]);
                }
            }
            lemma_wf_space(self.cells);
        }
        let mut path: Vec<TimelessIndex> = Vec::new();
        path.push(TimelessIndex { pos: slot });
        assert(path@ =~= seq![TimelessIndex { pos: slot }]);
        ViewIndex::Leveled { level, path }
    }

    /// Whether all the lines that come into a cell are before the given
    /// one in the layer beneath.
    fn lies_above(&self, cell: &Cell<Data>, lowest: &ViewIndex) -> (b: bool)
        requires
            self.wf(),
        ensures
            b == self@.prev.all_before(lowest@)(cell.model()),
    {
        let ends = &cell.meta.face.ends;
        assert(cell.model().face.ends == lines(ends@));
        let mut i: usize = 0;
        while i < ends.len()
            invariant
                self.wf(),
                i <= ends.len(),
                cell.model().face.ends == lines(ends@),
                forall|k: int| 0 <= k < i ==> self@.prev.before(lines(ends@)[k], lowest@),
            decreases ends.len() - i,
        {
            if !self.prev.is_before(&ends[i], lowest) {
                assert(lines(ends@)[i as int] == ends@[i as int]@);
                assert(!self@.prev.before(cell.model().face.ends[i as int], lowest@));
                return false;
            }
            i += 1;
        }
        true
    }

    /// Adds the wrap of an extrusion: a cell into which the given lines
    /// come, of which there must be one at least, and out of which the new
    /// line goes. Gives the address of the wrap.
    pub fn wrap_extrusion(
        &mut self,
        data: Data,
        old_fill_lines: &Vec<ViewIndex>,
        created_line: ViewIndex,
    ) -> (index: ViewIndex)
        requires
            old(self).wf(),
            old_fill_lines@.len() > 0,
        ensures
            final(self).wf(),
            final(self)@ == old(self)@.wrapped(
                old(self)@.extrusion_place(lines(old_fill_lines@)),
                wrap_cell(data, lines(old_fill_lines@), created_line@),
            ),
            index@ == old(self)@.next_line(),
    {
        let low = self.prev.lowest(old_fill_lines);
        let lowest = &old_fill_lines[low];
        let ghost cells = self@.cells.latest_values();
        let ghost above = self@.prev.all_before(lowest@);
        let all = self.top_cells();
        let mut a: usize = 0;
        while a < all.len() && self.lies_above(all[a], lowest)
            invariant
                self.wf(),
                a <= all.len(),
                all@.len() == cells.len(),
                forall|p: int| 0 <= p < all@.len() ==> (#[trigger] all@[p]).model() == cells[p],
                above == self@.prev.all_before(lowest@),
                run_end(cells, 0, above) == run_end(cells, a as int, above),
            decreases all.len() - a,
        {
            a += 1;
        }
        let wrap = Cell::end(data, Face { ends: copy_lines(old_fill_lines), fill: created_line });
        self.place(a, wrap)
    }

    /// Adds the wrap of a sprout: a cell into which the sprouted line
    /// comes and out of which the old line goes. Gives the address of the
    /// wrap.
    pub fn wrap_sprout(&mut self, data: Data, old_end_line: &ViewIndex, sprouted_line: ViewIndex) -> (index:
        ViewIndex)
        requires
            old(self).wf(),
        ensures
            final(self).wf(),
            final(self)@ == old(self)@.wrapped(
                old(self)@.sprout_place(old_end_line@),
                wrap_cell(data, seq![sprouted_line@], old_end_line@),
            ),
            index@ == old(self)@.next_line(),
    {
        let ghost cells = self@.cells.latest_values();
        let ghost lacks = lacks_end::<Data>(old_end_line@);
        let ghost late = self@.prev.fill_not_before(old_end_line@);
        let all = self.top_cells();
        let mut a: usize = 0;
        while a < all.len() && !holds_line(&all[a].meta.face.ends, old_end_line)
            invariant
                a <= all.len(),
                all@.len() == cells.len(),
                forall|p: int| 0 <= p < all@.len() ==> (#[trigger] all@[p]).model() == cells[p],
                lacks == lacks_end::<Data>(old_end_line@),
                run_end(cells, 0, lacks) == run_end(cells, a as int, lacks),
            decreases all.len() - a,
        {
            a += 1;
        }
        let ghost front = cells.take(a as int);
        let mut b: usize = 0;
        while b < a && !self.prev.is_before(&all[b].meta.face.fill, old_end_line)
            invariant
                self.wf(),
                b <= a <= all.len(),
                all@.len() == cells.len(),
                forall|p: int| 0 <= p < all@.len() ==> (#[trigger] all@[p]).model() == cells[p],
                front == cells.take(a as int),
                late == self@.prev.fill_not_before(old_end_line@),
                run_end(front, 0, late) == run_end(front, b as int, late),
            decreases a - b,
        {
            assert(front[b as int] == cells[b as int]);
            b += 1;
        }
        proof {
            if b < a {
                assert(front[b as int] == cells[b as int]);
            }
        }
        let at = if b < a {
            a
        } else {
            0
        };
        let mut ends: Vec<ViewIndex> = Vec::new();
        ends.push(sprouted_line);
        assert(lines(ends@) =~= seq![sprouted_line@]);
        let wrap = Cell::end(data, Face { ends, fill: old_end_line.clone() });
        self.place(at, wrap)
    }

    /// Splits the end that the path leads to by a wrap: two ends take its
    /// place, as the content of the cell, which keeps its slot and its
    /// face, as `split_cell` says. Gives the addresses of the two.
    pub fn wrap_split(
        &mut self,
        path: &Vec<TimelessIndex>,
        at: usize,
        wrap_top: Data,
        wrap_bot: Data,
        upstream_lines: &Vec<ViewIndex>,
        created_line: ViewIndex,
    ) -> (wraps: Vec<ViewIndex>)
        requires
            old(self).wf(),
            cell_at(old(self)@.cells, path@) is Some,
            at + upstream_lines@.len() <= cell_at(old(self)@.cells, path@)->Some_0.face.ends.len(),
        ensures
            final(self).wf(),
            final(self)@ == (Layer {
                cells: with_cell(
                    old(self)@.cells,
                    path@,
                    split_cell(
                        cell_at(old(self)@.cells, path@)->Some_0,
                        at as int,
                        wrap_top,
                        wrap_bot,
                        lines(upstream_lines@),
                        created_line@,
                    ),
                ),
                ..old(self)@
            }),
            lines(wraps@) == seq![
                old(self)@.line(path@.push(TimelessIndex { pos: 0 })),
                old(self)@.line(path@.push(TimelessIndex { pos: 1 })),
            ],
    {
        let level = self.level() - 1;
        let ghost layer = self@;
        let ghost old_cell = cell_at(layer.cells, path@)->Some_0;
        assert(path@.skip(0) =~= path@);
        match cell_mut(&mut self.cells, path, 0) {
            None => {
                proof {
                    assert(false);
                }
            },
            Some(cell) => {
                let face = &cell.meta.face;
                let total = face.ends.len();
                let mut ends: Vec<ViewIndex> = Vec::new();
                let mut k: usize = 0;
                while k < at
                    invariant
                        k <= at,
                        at + upstream_lines@.len() <= face.ends@.len(),
                        lines(ends@) == lines(face.ends@).take(k as int),
                    decreases at - k,
                {
                    let ghost prior = lines(ends@);
                    ends.push(face.ends[k].clone());
                    assert(lines(ends@) =~= prior.push(face.ends@[k as int]@));
                    assert(lines(face.ends@).take(k + 1) =~= lines(face.ends@).take(k as int).push(
                        face.ends@[k as int]@,
                    ));
                    k += 1;
                }
                let ghost prior = lines(ends@);
                ends.push(created_line.clone());
                assert(lines(ends@) =~= prior.push(created_line@));
                let start = at + upstream_lines.len();
                let mut k: usize = start;
                while k < total
                    invariant
                        total == face.ends.len(),
                        start <= k <= total,
                        lines(ends@) == lines(face.ends@).take(at as int).push(created_line@)
                            + lines(face.ends@).subrange(start as int, k as int),
                    decreases total - k,
                {
                    let ghost prior = lines(ends@);
                    ends.push(face.ends[k].clone());
                    assert(lines(ends@) =~= prior.push(face.ends@[k as int]@));
                    assert(lines(face.ends@).subrange(start as int, k + 1) =~= lines(
                        face.ends@,
                    ).subrange(start as int, k as int).push(face.ends@[k as int]@));
                    k += 1;
                }
                assert(lines(face.ends@).subrange(start as int, k as int) =~= lines(face.ends@).skip(
                    start as int,
                ));
                let top = Cell::end(
                    wrap_top,
                    Face { ends: copy_lines(upstream_lines), fill: created_line },
                );
                let bot = Cell::end(wrap_bot, Face { ends, fill: face.fill.clone() });
                let mut both: Vec<Cell<Data>> = Vec::new();
                both.push(top);
                both.push(bot);
                let content = TracingVec::from_vec(both);
                proof {
                    lemma_model_is_map(content);
                    Traces::lemma_map_of_values(both@, modeller());
                    assert(Seq::new(both@.len(), |i: int| modeller()(both@[i])) =~= seq![
                        top.model(),
                        bot.model(),
                    ]);
                    assert forall|i: int| 0 <= i < content@.store.len() implies (
                    #[trigger] content@.store[i]).model().wf() by {}
                    lemma_wf_space(content);
                }
                cell.content = Some(content);
                assert(cell.model() == split_cell(
                    old_cell,
                    at as int,
                    wrap_top,
                    wrap_bot,
                    lines(upstream_lines@),
                    created_line@,
                ));
            },
        }
        let mut top = copy_path(path);
        top.push(TimelessIndex { pos: 0 });
        let mut bot = copy_path(path);
        bot.push(TimelessIndex { pos: 1 });
        let mut wraps: Vec<ViewIndex> = Vec::new();
        wraps.push(ViewIndex::Leveled { level, path: top });
        wraps.push(ViewIndex::Leveled { level, path: bot });
        assert(lines(wraps@) =~= seq![
            layer.line(path@.push(TimelessIndex { pos: 0 })),
            layer.line(path@.push(TimelessIndex { pos: 1 })),
        ]);
        wraps
    }
}

} // verus!
