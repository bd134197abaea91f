//! Small helpers on truth values.

use vstd::prelude::*;

verus! {

pub trait ToOption {
    spec fn holds(&self) -> bool;

    /// What `f` makes, if this holds; nothing otherwise.
    fn map<X, F: FnOnce() -> X>(&self, f: F) -> (res: Option<X>)
        requires
            self.holds() ==> f.requires(()),
        ensures
            match res {
                Some(x) => self.holds() && f.ensures((), x),
                None => !self.holds(),
            },
    ;
}

pub trait OrErr {
    spec fn passes(&self) -> bool;

    /// Nothing, if this holds; the error that `e` makes otherwise.
    fn or_err<E, F: FnOnce() -> E>(&self, e: F) -> (res: Result<(), E>)
        requires
            !self.passes() ==> e.requires(()),
        ensures
            match res {
                Ok(_) => self.passes(),
                Err(err) => !self.passes() && e.ensures((), err),
            },
    ;
}

pub trait ThenOk {
    spec fn succeeds(&self) -> bool;

    /// What `o` makes, if this holds; an empty error otherwise.
    fn then_ok<O, F: FnOnce() -> O>(&self, o: F) -> (res: Result<O, ()>)
        requires
            self.succeeds() ==> o.requires(()),
        ensures
            match res {
                Ok(x) => self.succeeds() && o.ensures((), x),
                Err(_) => !self.succeeds(),
            },
    ;
}

impl ToOption for bool {
    open spec fn holds(&self) -> bool {
        *self
    }

    fn map<X, F: FnOnce() -> X>(&self, f: F) -> (res: Option<X>) {
        if *self {
            Some(f())
        } else {
            None
        }
    }
}

impl OrErr for bool {
    open spec fn passes(&self) -> bool {
        *self
    }

    fn or_err<E, F: FnOnce() -> E>(&self, e: F) -> (res: Result<(), E>) {
        if *self {
            Ok(())
        } else {
            Err(e())
        }
    }
}

impl ThenOk for bool {
    open spec fn succeeds(&self) -> bool {
        *self
    }

    fn then_ok<O, F: FnOnce() -> O>(&self, o: F) -> (res: Result<O, ()>) {
        if *self {
            Ok(o())
        } else {
            Err(())
        }
    }
}

} // verus!
