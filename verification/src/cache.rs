use std::ops::Deref;
use vstd::prelude::*;

verus! {

/// A value by itself, read through a reference. It has no alignment of its own.
pub struct Padding<T>(pub T);

impl<T> Deref for Padding<T> {
    type Target = T;

    fn deref(&self) -> (r: &T)
        ensures
            *r == self.0,
    {
        &self.0
    }
}

} // verus!
