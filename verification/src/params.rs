//! A value that a handler takes from the path of a request.

use vstd::prelude::*;

verus! {

/// A value taken from a path parameter.
pub struct Param<T>(T);

impl<T> Param<T> {
    /// The value that is wrapped.
    pub closed spec fn value(self) -> T {
        self.0
    }

    /// Wraps a value.
    pub fn new(t: T) -> (param: Self)
        ensures
            param.value() == t,
    {
        Self(t)
    }

    /// Gives the value back.
    pub fn into_inner(self) -> (t: T)
        ensures
            t == self.value(),
    {
        self.0
    }
}

impl<T> core::ops::Deref for Param<T> {
    type Target = T;

    fn deref(&self) -> (target: &T)
        ensures
            *target == self.value(),
    {
        &self.0
    }
}

impl<T> core::ops::DerefMut for Param<T> {
    fn deref_mut(&mut self) -> (target: &mut T)
        ensures
            *target == old(self).value(),
            final(self).value() == *final(target),
    {
        &mut self.0
    }
}

} // verus!
