//! A holder for the builder of a runtime, handed out by reference or by value.
use vstd::prelude::*;

verus! {

#[derive(Clone)]
pub struct Builder<T> {
    inner: T,
}

impl<T> Builder<T> {
    pub closed spec fn view_inner(self) -> T {
        self.inner
    }

    pub fn new(inner: T) -> (r: Self)
        ensures
            r.view_inner() == inner,
    {
        Builder { inner }
    }

    pub fn inner(&self) -> (r: &T)
        ensures
            *r == self.view_inner(),
    {
        &self.inner
    }

    pub fn owned_inner(self) -> (r: T)
        ensures
            r == self.view_inner(),
    {
        self.inner
    }
}

} // verus!
