//! A vector whose values remember the generation in which they came.
//!
//! An index names a place among the values that are no younger than the
//! index itself: values that came later do not shift it.

use vstd::prelude::*;

verus! {

/// A value with the generation in which it came.
pub struct Aging<X, Age> {
    pub val: X,
    pub age: Age,
}

/// A place among the values of one generation and older ones.
#[derive(Debug, Copy, Clone, Ord, PartialOrd, Eq, PartialEq, Hash)]
pub struct Index<Age> {
    pub pos: usize,
    pub age: Age,
}

#[derive(Debug)]
pub enum IndexError<Age> {
    /// There are not that many values of that generation and older ones.
    OutOfBounds(Index<Age>),
}

pub struct AgingVec<X, Age> {
    rows: Vec<Aging<X, Age>>,
    generation: Age,
}

/// What an aging vector holds: the values with their ages, in order, and
/// the generation that it has reached.
pub ghost struct Aged<X, Age> {
    pub rows: Seq<(X, Age)>,
    pub generation: Age,
}

impl<X, Age> View for AgingVec<X, Age> {
    type V = Aged<X, Age>;

    closed spec fn view(&self) -> Aged<X, Age> {
        Aged {
            rows: Seq::new(self.rows@.len(), |i: int| (self.rows@[i].val, self.rows@[i].age)),
            generation: self.generation,
        }
    }
}

/// The place, from `from` on, of the row that is the `pos`-th among those
/// no younger than `age`.
pub open spec fn place_of<X>(rows: Seq<(X, u64)>, age: u64, pos: int, from: int) -> Option<int>
    decreases rows.len() - from,
{
    if from < 0 || from >= rows.len() || pos < 0 {
        None
    } else if rows[from].1 <= age {
        if pos == 0 {
            Some(from)
        } else {
            place_of(rows, age, pos - 1, from + 1)
        }
    } else {
        place_of(rows, age, pos, from + 1)
    }
}

impl<X, Age: Default> AgingVec<X, Age> {
    /// An empty vector in its first generation, which is what `Age` has
    /// as its default.
    pub fn new() -> (v: Self)
        ensures
            v@.rows.len() == 0,
            call_ensures(Age::default, (), v@.generation),
    {
        let v = AgingVec { rows: Vec::new(), generation: Age::default() };
        v
    }
}

impl<X, Age: Copy> AgingVec<X, Age> {
    /// Appends a value of the generation that the vector has reached.
    pub fn push(&mut self, val: X)
        ensures
            final(self)@.rows == old(self)@.rows.push((val, old(self)@.generation)),
            final(self)@.generation == old(self)@.generation,
    {
        let row = Aging { val, age: self.generation };
        self.rows.push(row);
        assert(self@.rows =~= old(self)@.rows.push((val, old(self)@.generation)));
    }
}

impl<X> AgingVec<X, u64> {
    /// The place of the row that an index names.
    fn absolute_index(&self, index: Index<u64>) -> (res: Option<usize>)
        ensures
            match res {
                Some(at) => place_of(self@.rows, index.age, index.pos as int, 0) == Some(at as int)
                    && at < self@.rows.len(),
                None => place_of(self@.rows, index.age, index.pos as int, 0) is None,
            },
    {
        let mut left = index.pos;
        let mut at: usize = 0;
        while at < self.rows.len()
            invariant
                at <= self.rows.len(),
                place_of(self@.rows, index.age, index.pos as int, 0) == place_of(
                    self@.rows,
                    index.age,
                    left as int,
                    at as int,
                ),
            decreases self.rows.len() - at,
        {
            if self.rows[at].age <= index.age {
                if left == 0 {
                    return Some(at);
                }
                left -= 1;
            }
            at += 1;
        }
        None
    }

    /// Starts a generation and inserts a value of it at the given place,
    /// which must be a place of the vector or its end.
    pub fn insert(&mut self, index: usize, val: X)
        requires
            index <= old(self)@.rows.len(),
            old(self)@.generation < u64::MAX,
        ensures
            final(self)@.generation == old(self)@.generation + 1,
            final(self)@.rows == old(self)@.rows.insert(
                index as int,
                (val, (old(self)@.generation + 1) as u64),
            ),
    {
        self.generation += 1;
        let row = Aging { val, age: self.generation };
        self.rows.insert(index, row);
        assert(self@.rows =~= old(self)@.rows.insert(
            index as int,
            (val, (old(self)@.generation + 1) as u64),
        ));
    }

    /// Starts a generation and inserts a value of it before the row that
    /// the index names. Refused, with nothing changed, where the index
    /// names no row.
    pub fn try_insert_relative(&mut self, index: Index<u64>, val: X) -> (res: Result<
        (),
        IndexError<u64>,
    >)
        requires
            old(self)@.generation < u64::MAX,
        ensures
            match res {
                Ok(_) => place_of(old(self)@.rows, index.age, index.pos as int, 0) is Some
                    && final(self)@.generation == old(self)@.generation + 1
                    && final(self)@.rows == old(self)@.rows.insert(
                    place_of(old(self)@.rows, index.age, index.pos as int, 0)->Some_0,
                    (val, (old(self)@.generation + 1) as u64),
                ),
                Err(e) => place_of(old(self)@.rows, index.age, index.pos as int, 0) is None
                    && final(self)@ == old(self)@ && (e matches IndexError::OutOfBounds(given)
                    && given.pos == index.pos && given.age == index.age),
            },
    {
        match self.absolute_index(index) {
            Some(at) => {
                self.insert(at, val);
                Ok(())
            },
            None => Err(IndexError::OutOfBounds(index)),
        }
    }

    /// As `try_insert_relative`, for an index that is known to name a
    /// row.
    pub fn insert_relative(&mut self, index: Index<u64>, val: X)
        requires
            old(self)@.generation < u64::MAX,
            place_of(old(self)@.rows, index.age, index.pos as int, 0) is Some,
        ensures
            final(self)@.generation == old(self)@.generation + 1,
            final(self)@.rows == old(self)@.rows.insert(
                place_of(old(self)@.rows, index.age, index.pos as int, 0)->Some_0,
                (val, (old(self)@.generation + 1) as u64),
            ),
    {
        match self.try_insert_relative(index, val) {
            Ok(_) => {},
            Err(_) => unreached(),
        }
    }
}

impl<Age> Index<Age> {
    pub fn from_raw_parts(pos: usize, age: Age) -> (index: Self)
        ensures
            index.pos == pos,
            index.age == age,
    {
        Index { pos, age }
    }
}

impl Index<u64> {
    /// The index that lies as many places further on as the other index
    /// counts, at the later of the two ages. The places must fit a
    /// machine word.
    pub fn joined(self, other: Self) -> (sum: Self)
        requires
            self.pos + other.pos <= usize::MAX,
        ensures
            sum.pos == self.pos + other.pos,
            sum.age == if self.age >= other.age {
                self.age
            } else {
                other.age
            },
    {
        let age: u64 = if self.age >= other.age {
            self.age
        } else {
            other.age
        };
        Index { pos: self.pos + other.pos, age }
    }

    /// The index that lies `n` places further on, at the same age. The
    /// places must fit a machine word.
    pub fn shifted(self, n: usize) -> (sum: Self)
        requires
            self.pos + n <= usize::MAX,
        ensures
            sum.pos == self.pos + n,
            sum.age == self.age,
    {
        Index { pos: self.pos + n, age: self.age }
    }
}

} // verus!
