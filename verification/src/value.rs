//! Values that are compared by what they hold, number by number, and copied.

use crate::binary64::{rank_orders_values, Binary64};
use crate::message::same_words;
use vstd::prelude::*;

verus! {

/// A value made of plain parts.
pub trait Value: Sized {
    /// The two hold equal parts. Numbers compare as numbers: a NaN is equal to
    /// nothing, and the two zeros are equal.
    spec fn equal(self, other: Self) -> bool;

    /// This one holds exactly what the other one holds, down to the patterns of its
    /// numbers.
    spec fn copy_of(self, other: Self) -> bool;

    /// Do the two hold equal parts?
    fn equals(&self, other: &Self) -> (r: bool)
        ensures
            r == self.equal(*other),
    ;

    /// A copy.
    fn duplicate(&self) -> (r: Self)
        ensures
            r.copy_of(*self),
    ;
}

/// The two lists hold equal numbers in the same places.
pub open spec fn same_numbers(a: Seq<Binary64>, b: Seq<Binary64>) -> bool {
    &&& a.len() == b.len()
    &&& forall|i: int| 0 <= i < a.len() ==> (#[trigger] a[i]).same(b[i])
}

impl Value for Binary64 {
    open spec fn equal(self, other: Self) -> bool {
        self.same(other)
    }

    open spec fn copy_of(self, other: Self) -> bool {
        self == other
    }

    fn equals(&self, other: &Self) -> (r: bool) {
        self.is_same(*other)
    }

    fn duplicate(&self) -> (r: Self) {
        *self
    }
}

impl Value for usize {
    open spec fn equal(self, other: Self) -> bool {
        self == other
    }

    open spec fn copy_of(self, other: Self) -> bool {
        self == other
    }

    fn equals(&self, other: &Self) -> (r: bool) {
        *self == *other
    }

    fn duplicate(&self) -> (r: Self) {
        *self
    }
}

impl Value for String {
    open spec fn equal(self, other: Self) -> bool {
        self@ == other@
    }

    open spec fn copy_of(self, other: Self) -> bool {
        self@ == other@
    }

    fn equals(&self, other: &Self) -> (r: bool) {
        assert(self.equal(*other) == (self@ == other@));
        same_words(self.as_str(), other.as_str())
    }

    fn duplicate(&self) -> (r: Self) {
        self.clone()
    }
}

impl<T: Value> Value for Option<T> {
    open spec fn equal(self, other: Self) -> bool {
        match (self, other) {
            (Some(a), Some(b)) => a.equal(b),
            (None, None) => true,
            _ => false,
        }
    }

    open spec fn copy_of(self, other: Self) -> bool {
        match (self, other) {
            (Some(a), Some(b)) => a.copy_of(b),
            (None, None) => true,
            _ => false,
        }
    }

    fn equals(&self, other: &Self) -> (r: bool) {
        match (self, other) {
            (Some(a), Some(b)) => a.equals(b),
            (None, None) => true,
            _ => false,
        }
    }

    fn duplicate(&self) -> (r: Self) {
        match self {
            Some(a) => Some(a.duplicate()),
            None => None,
        }
    }
}

impl<A: Value, B: Value> Value for (A, B) {
    open spec fn equal(self, other: Self) -> bool {
        self.0.equal(other.0) && self.1.equal(other.1)
    }

    open spec fn copy_of(self, other: Self) -> bool {
        self.0.copy_of(other.0) && self.1.copy_of(other.1)
    }

    fn equals(&self, other: &Self) -> (r: bool) {
        self.0.equals(&other.0) && self.1.equals(&other.1)
    }

    fn duplicate(&self) -> (r: Self) {
        (self.0.duplicate(), self.1.duplicate())
    }
}

impl<T: Value> Value for Vec<T> {
    open spec fn equal(self, other: Self) -> bool {
        &&& self@.len() == other@.len()
        &&& forall|i: int| 0 <= i < self@.len() ==> (#[trigger] self@[i]).equal(other@[i])
    }

    open spec fn copy_of(self, other: Self) -> bool {
        &&& self@.len() == other@.len()
        &&& forall|i: int| 0 <= i < self@.len() ==> (#[trigger] self@[i]).copy_of(other@[i])
    }

    fn equals(&self, other: &Self) -> (r: bool) {
        if self.len() != other.len() {
            return false;
        }
        for i in 0..self.len()
            invariant
                self@.len() == other@.len(),
                forall|j: int| 0 <= j < i ==> (#[trigger] self@[j]).equal(other@[j]),
        {
            if !self[i].equals(&other[i]) {
                return false;
            }
        }
        true
    }

    fn duplicate(&self) -> (r: Self) {
        let mut list: Vec<T> = Vec::new();
        for i in 0..self.len()
            invariant
                list@.len() == i,
                forall|j: int| 0 <= j < i ==> (#[trigger] list@[j]).copy_of(self@[j]),
        {
            let one = self[i].duplicate();
            list.push(one);
        }
        list
    }
}

/// Lists are equal exactly where they are equally long and equal at every place.
pub proof fn lists_equal_place_by_place<T: Value>(a: Vec<T>, b: Vec<T>, r: bool)
    requires
        call_ensures(<Vec<T> as Value>::equals, (&a, &b), r),
    ensures
        r <==> a@.len() == b@.len() && forall|i: int|
            0 <= i < a@.len() ==> (#[trigger] a@[i]).equal(b@[i]),
{
}

/// What may be left out is equal exactly where both are left out, or both are given and
/// equal; pairs are equal exactly where both parts are.
pub proof fn options_and_pairs_equal_part_by_part<A: Value, B: Value>(
    a: Option<A>,
    b: Option<A>,
    r: bool,
    p: (A, B),
    q: (A, B),
    s: bool,
)
    requires
        call_ensures(<Option<A> as Value>::equals, (&a, &b), r),
        call_ensures(<(A, B) as Value>::equals, (&p, &q), s),
    ensures
        a is None && b is None ==> r,
        a is Some && b is None || a is None && b is Some ==> !r,
        a is Some && b is Some ==> (r <==> (a->0).equal(b->0)),
        s <==> p.0.equal(q.0) && p.1.equal(q.1),
{
}

/// Counts are equal as numbers, strings character by character, and numbers by value, so
/// that one which is not a number is equal to none.
pub proof fn plain_values_equal_by_value(
    n: (usize, usize, bool),
    w: (String, String, bool),
    x: (Binary64, Binary64, bool),
)
    requires
        call_ensures(<usize as Value>::equals, (&n.0, &n.1), n.2),
        call_ensures(<String as Value>::equals, (&w.0, &w.1), w.2),
        call_ensures(<Binary64 as Value>::equals, (&x.0, &x.1), x.2),
    ensures
        n.2 <==> n.0 == n.1,
        w.2 <==> w.0@ == w.1@,
        x.0.nan() || x.1.nan() ==> !x.2,
        x.0.finite() && x.1.finite() ==> (x.2 <==> x.0.value() == x.1.value()),
{
    if x.0.finite() && x.1.finite() {
        rank_orders_values(x.0, x.1);
    }
}

} // verus!
