//! A cell that is filled on first use.
use vstd::prelude::*;

verus! {

/// A cell that is filled by the first `get_or_init` and keeps that value.
#[derive(Debug)]
pub struct NotOnceCell<T> {
    inner: Option<T>,
}

impl<T> NotOnceCell<T> {
    /// The value in the cell, if it has been filled.
    pub closed spec fn value(self) -> Option<T> {
        self.inner
    }

    /// An empty cell.
    pub fn new() -> (cell: Self)
        ensures
            cell.value() is None,
    {
        NotOnceCell { inner: None }
    }

    /// The value in the cell; an empty cell is first filled with what `init`
    /// returns, and `init` is called only then.
    pub fn get_or_init<F: FnOnce() -> T>(&mut self, init: F) -> (value: &T)
        requires
            old(self).value() is None ==> init.requires(()),
        ensures
            final(self).value() == Some(*value),
            old(self).value() matches Some(v) ==> *value == v,
            old(self).value() is None ==> init.ensures((), *value),
    {
        if self.inner.is_none() {
            let v = init();
            self.inner = Some(v);
        }
        match &self.inner {
            Some(v) => v,
            None => vstd::pervasive::unreached(),
        }
    }
}

} // verus!
