use vstd::prelude::*;

verus! {

/// From which pseudotime on, and up to which, something holds.
#[derive(Debug, Copy, Clone)]
pub struct TimeSpan {
    pub start: usize,
    pub end: Option<usize>,
}

/// One step of the way to a value: where it stands among the children of
/// `loc`, or at the top if there is no `loc`, during a span.
#[derive(Debug, Copy, Clone)]
pub struct Trace {
    pub span: TimeSpan,
    pub loc: Option<usize>,
    pub index: usize,
}

/// The way to a value of a tracing tree: at least one trace.
#[derive(Debug)]
pub struct TimedIndex {
    pub traces: Vec<Trace>,
}

#[derive(Debug)]
pub struct Subtree {}

#[derive(Debug)]
pub enum IndexError {
    EmptyTracesForIndex,
    InvalidIndex(TimedIndex),
}

impl TimeSpan {
    /// The span from a pseudotime on, without end.
    pub fn from_start(start: usize) -> (span: Self)
        ensures
            span.start == start,
            span.end is None,
    {
        TimeSpan { start, end: None }
    }

    /// The span between two pseudotimes.
    pub fn between(start: usize, end: usize) -> (span: Self)
        ensures
            span.start == start,
            span.end == Some(end),
    {
        TimeSpan { start, end: Some(end) }
    }
}

impl Trace {
    /// Whether two traces name the same step: the same place from the
    /// same start, with the same end, or with one end or both left open.
    pub open spec fn agrees(self, other: Trace) -> bool {
        &&& self.loc == other.loc
        &&& self.index == other.index
        &&& self.span.start == other.span.start
        &&& (self.span.end == other.span.end || self.span.end is None || other.span.end is None)
    }

    pub fn same(&self, other: &Trace) -> (b: bool)
        ensures
            b == self.agrees(*other),
    {
        let loc = match (self.loc, other.loc) {
            (Some(a), Some(b)) => a == b,
            (None, None) => true,
            _ => false,
        };
        let end = match (self.span.end, other.span.end) {
            (Some(a), Some(b)) => a == b,
            _ => true,
        };
        loc && self.index == other.index && self.span.start == other.span.start && end
    }
}

/// Whether the traces of `a` are, step for step, the first of `b`.
pub open spec fn leads(a: Seq<Trace>, b: Seq<Trace>) -> bool {
    a.len() <= b.len() && forall|i: int| 0 <= i < a.len() ==> (#[trigger] a[i]).agrees(b[i])
}

fn begins(a: &Vec<Trace>, b: &Vec<Trace>) -> (res: bool)
    ensures
        res == leads(a@, b@),
{
    if a.len() > b.len() {
        return false;
    }
    let mut i: usize = 0;
    while i < a.len()
        invariant
            a@.len() <= b@.len(),
            i <= a.len(),
            forall|k: int| 0 <= k < i ==> (#[trigger] a@[k]).agrees(b@[k]),
        decreases a.len() - i,
    {
        if !a[i].same(&b[i]) {
            return false;
        }
        i += 1;
    }
    true
}

impl TimedIndex {
    /// Whether the index has a trace at all.
    pub open spec fn wf(self) -> bool {
        self.traces@.len() > 0
    }

    /// The index of the given traces, of which there must be one at
    /// least.
    pub fn try_from(traces: Vec<Trace>) -> (res: Result<TimedIndex, IndexError>)
        ensures
            match res {
                Ok(index) => traces@.len() > 0 && index.traces == traces,
                Err(e) => traces@.len() == 0 && e is EmptyTracesForIndex,
            },
    {
        if traces.len() == 0 {
            Err(IndexError::EmptyTracesForIndex)
        } else {
            Ok(TimedIndex { traces })
        }
    }

    /// The last trace: the step that names the value itself.
    pub fn last(&self) -> (trace: &Trace)
        requires
            self.wf(),
        ensures
            *trace == self.traces@.last(),
    {
        &self.traces[self.traces.len() - 1]
    }

    /// Whether one of two indices goes the way of the other, as far as
    /// that one goes.
    pub fn same(&self, other: &TimedIndex) -> (b: bool)
        ensures
            b == (leads(other.traces@, self.traces@) || leads(self.traces@, other.traces@)),
    {
        begins(&other.traces, &self.traces) || begins(&self.traces, &other.traces)
    }

    /// A copy of the index.
    pub fn duplicate(&self) -> (copy: Self)
        ensures
            copy.traces@ == self.traces@,
    {
        let mut traces: Vec<Trace> = Vec::new();
        let mut i: usize = 0;
        while i < self.traces.len()
            invariant
                i <= self.traces.len(),
                traces@ == self.traces@.take(i as int),
            decreases self.traces.len() - i,
        {
            traces.push(self.traces[i]);
            assert(self.traces@.take(i + 1) =~= self.traces@.take(i as int).push(
                self.traces@[i as int],
            ));
            i += 1;
        }
        assert(self.traces@.take(i as int) =~= self.traces@);
        TimedIndex { traces }
    }
}

impl Clone for TimedIndex {
    fn clone(&self) -> (copy: Self)
        ensures
            copy.traces@ == self.traces@,
    {
        self.duplicate()
    }
}

} // verus!
