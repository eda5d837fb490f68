//! References to indirect objects.

use vstd::prelude::*;

verus! {

/// A reference to an indirect object: the number of the object, which is
/// greater than zero.
#[derive(Clone, Copy, PartialEq, Eq, Structural, Debug)]
pub struct Ref {
    id: i32,
}

impl View for Ref {
    type V = i32;

    closed spec fn view(&self) -> i32 {
        self.id
    }
}

impl Ref {
    #[verifier::type_invariant]
    closed spec fn positive(self) -> bool {
        0 < self.id
    }

    /// The reference to object number `id`.
    pub fn new(id: i32) -> (r: Ref)
        requires
            0 < id,
        ensures
            r@ == id,
    {
        Ref { id }
    }

    /// The number of the object.
    pub fn get(self) -> (id: i32)
        ensures
            id == self@,
            0 < id,
    {
        proof {
            use_type_invariant(self);
        }
        self.id
    }

    /// Moves this reference on to the next number and returns the one it had.
    pub fn bump(&mut self) -> (previous: Ref)
        requires
            old(self)@ < i32::MAX,
        ensures
            previous == *old(self),
            final(self)@ == old(self)@ + 1,
    {
        proof {
            use_type_invariant(&*self);
        }
        let previous = *self;
        *self = Ref { id: previous.id + 1 };
        previous
    }
}

/// Two references to the same number are the same reference.
pub proof fn lemma_ref_is_its_number(a: Ref, b: Ref)
    requires
        a@ == b@,
    ensures
        a == b,
{
}

} // verus!
