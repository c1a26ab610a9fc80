//! The cell of one slot.

use vstd::prelude::*;

verus! {

/// Storage for at most one value. A cell starts unwritten; a later write
/// replaces what an earlier one left.
pub struct ValueBox<T: Sized + Clone>(Option<T>);

impl<T: Sized + Clone> View for ValueBox<T> {
    type V = Option<T>;

    /// What the cell holds; `None` while it was never written.
    closed spec fn view(&self) -> Option<T> {
        self.0
    }
}

impl<T: Sized + Clone> ValueBox<T> {
    /// A cell that was never written.
    pub fn uninit() -> (cell: Self)
        ensures
            cell@ is None,
    {
        ValueBox(None)
    }

    /// The value last written. The cell must have been written.
    pub fn get(&self) -> (value: &T)
        requires
            self@ is Some,
        ensures
            self@ == Some(*value),
    {
        self.0.as_ref().unwrap()
    }

    /// Stores `value`, replacing what the cell held.
    pub fn write(&mut self, value: T)
        ensures
            final(self)@ == Some(value),
    {
        self.0 = Some(value);
    }
}

} // verus!
