//! Moving a copy of a value to the heap.

use vstd::pervasive::cloned;
use vstd::prelude::*;

verus! {

/// Types whose values can be copied into a box.
pub trait Boxable {
    /// A boxed clone of the value.
    fn to_box(&self) -> (boxed: Box<Self>) where Self: Sized, Self: Clone
        ensures
            cloned::<Self>(*self, *boxed),
    {
        Box::new(self.clone())
    }
}

} // verus!
