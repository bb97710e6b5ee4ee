//! Shared handles to values of any type, trait objects among them.

use std::sync::Arc;
use vstd::prelude::*;

verus! {

/// A shared handle to a value.
pub struct Shared<T: ?Sized> {
    pub ptr: Arc<T>,
}

impl<T: ?Sized> Shared<T> {
    /// A handle to what `ptr` points to.
    pub fn new(ptr: Arc<T>) -> (r: Shared<T>)
        ensures
            r.ptr == ptr,
    {
        Shared { ptr }
    }
}

impl<T: ?Sized> Clone for Shared<T> {
    /// Another handle to the same value.
    fn clone(&self) -> (r: Shared<T>)
        ensures
            r == *self,
    {
        Shared { ptr: self.ptr.clone() }
    }
}

} // verus!
