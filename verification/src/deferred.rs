//! Values that are computed away from the document.

use vstd::prelude::*;

verus! {

/// A value that was handed out to be computed elsewhere, and that has arrived.
pub struct Deferred<T> {
    value: T,
}

impl<T> Deferred<T> {
    /// The value that arrived.
    pub closed spec fn value(&self) -> T {
        self.value
    }

    /// Wraps a value that has been computed.
    pub fn new(value: T) -> (deferred: Self)
        ensures
            deferred.value() == value,
    {
        Deferred { value }
    }

    /// The value, once it is there.
    pub fn wait(&mut self) -> (value: &mut T)
        ensures
            *value == old(self).value(),
            final(self).value() == *final(value),
    {
        &mut self.value
    }
}

} // verus!
