//! Comparing values of a sum type by their variant alone.

use vstd::prelude::*;

verus! {

/// A sum type that can tell which of its variants a value is.
pub trait Variant {
    /// The position of the value's variant in the declaration of its type.
    spec fn variant_index(&self) -> nat;

    /// Computes the position of the value's variant.
    fn variant(&self) -> (index: u8)
        ensures
            index == self.variant_index(),
    ;
}

/// Weak equality: tells whether `a` and `b` are of the same variant,
/// whatever they carry.
pub fn enum_weak_equals<T: Variant>(a: &T, b: &T) -> (equal: bool)
    ensures
        equal == (a.variant_index() == b.variant_index()),
{
    a.variant() == b.variant()
}

} // verus!
