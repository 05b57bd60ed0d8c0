//! Identity service: issues unique, stable, comparable identifiers.
//! Values are opaque to the rest of the system; only equality is used.

use vstd::prelude::*;

verus! {

/// An opaque identifier for a column or task.  Compared only by equality.
#[derive(Debug, PartialEq, Eq, Structural, Clone, Copy)]
pub struct Id {
    pub value: usize,
}

/// A monotonic counter handing out identifiers never issued before.
pub struct IdGen(pub usize);

impl IdGen {
    pub fn new() -> (r: Self)
        ensures
            r.0 == 0,
    {
        Self(0)
    }

    pub fn gen(&mut self) -> (r: Id)
        requires
            old(self).0 < usize::MAX,
        ensures
            r.value == old(self).0,
            final(self).0 == old(self).0 + 1,
    {
        let id = Id { value: self.0 };
        self.0 += 1;
        id
    }
}

} // verus!
