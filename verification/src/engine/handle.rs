//! Identities of components that live outside the library.

use crate::value::Value;
use vstd::prelude::*;

verus! {

/// The identity of a component or error that its owner keeps. Two handles are
/// equal exactly when they name the same object; what the object does plays no
/// part.
#[derive(Clone, Copy, Debug, PartialEq, Eq, Structural)]
pub struct Handle {
    /// The owner's number for the object.
    pub id: u64,
}

impl Value for Handle {
    open spec fn equal(self, other: Self) -> bool {
        self == other
    }

    open spec fn copy_of(self, other: Self) -> bool {
        self == other
    }

    fn equals(&self, other: &Self) -> (r: bool) {
        *self == *other
    }

    fn duplicate(&self) -> (r: Self) {
        *self
    }
}

/// Is the same component chosen on both sides, or none on either?
pub fn arc_opt_eq(a: &Option<Handle>, b: &Option<Handle>) -> (r: bool)
    ensures
        r == (*a == *b),
{
    match (a, b) {
        (Some(x), Some(y)) => *x == *y,
        (None, None) => true,
        _ => false,
    }
}

/// Optional components are equal exactly where both are missing or both are the same one.
pub proof fn handles_compare_by_identity(a: Option<Handle>, b: Option<Handle>, r: bool)
    requires
        call_ensures(arc_opt_eq, (&a, &b), r),
    ensures
        a is None && b is None ==> r,
        a is Some && b is Some ==> (r <==> a->0.id == b->0.id),
        r ==> (a is Some <==> b is Some),
{
}

} // verus!
