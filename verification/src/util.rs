//! Shared helpers: an owning pointer used to keep tree nodes on the heap.

use vstd::prelude::*;

verus! {

/// An owning smart pointer around `Box`, used for heap-allocated tree nodes.
/// Its view is the pointed-to value itself.
pub struct P<T> {
    pub ptr: Box<T>,
}

impl<T> View for P<T> {
    type V = T;

    open spec fn view(&self) -> T {
        *self.ptr
    }
}

impl<T> P<T> {
    pub fn new(ptr: Box<T>) -> (p: Self)
        ensures
            p@ == *ptr,
    {
        Self { ptr }
    }

    /// Borrow the pointed-to value.
    pub fn get(&self) -> (r: &T)
        ensures
            *r == self@,
    {
        &self.ptr
    }
}

} // verus!
