//! A value that is made on first use.

use vstd::prelude::*;

verus! {

/// A cell that holds nothing until it is forced, and from then on the
/// value that its initializer made. The owner of the cell is the one that
/// forces it, so two threads never make the value at once.
pub struct ThreadSafeLazy<T, F> {
    /// The value, once it is made.
    cell: Option<T>,
    /// What makes the value.
    initializer: F,
}

impl<T, F> ThreadSafeLazy<T, F> {
    /// The value, where it is made.
    pub closed spec fn value(&self) -> Option<T> {
        self.cell
    }

    /// What makes the value.
    pub closed spec fn initializer(&self) -> F {
        self.initializer
    }

    /// A cell that holds nothing yet.
    pub fn new(initializer: F) -> (lazy: ThreadSafeLazy<T, F>)
        ensures
            lazy.value() is None,
            lazy.initializer() == initializer,
    {
        Self { cell: None, initializer }
    }

    /// The value, where it is made.
    pub fn get(&self) -> (r: Option<&T>)
        ensures
            match r {
                Some(v) => self.value() == Some(*v),
                None => self.value() is None,
            },
    {
        self.cell.as_ref()
    }
}

impl<T, F: Fn() -> T> ThreadSafeLazy<T, F> {
    /// Makes the value where it is not made yet, and leaves it alone where
    /// it is.
    pub fn force(&mut self)
        requires
            call_requires(old(self).initializer(), ()),
        ensures
            final(self).initializer() == old(self).initializer(),
            final(self).value() is Some,
            old(self).value() is Some ==> final(self).value() == old(self).value(),
            old(self).value() is None ==> call_ensures(
                old(self).initializer(),
                (),
                final(self).value().unwrap(),
            ),
    {
        if self.cell.is_none() {
            let res = (self.initializer)();
            self.cell = Some(res);
        }
    }
}

} // verus!
