//! The fitted model: response family, posterior container, prediction surface.

use crate::binary64::Binary64;
use vstd::prelude::*;

verus! {

/// The response family of a model: it selects the link and the predictive
/// distribution.
#[derive(Debug, Clone, Copy)]
pub enum ResponseFamily {
    /// Gaussian regression: identity link, predictions on the response scale.
    Gaussian,
    /// Probit classification of labels 0 and 1: predictions on the probability
    /// scale.
    BinaryProbit,
    /// Regression with Student-t errors of `df` degrees of freedom: identity link,
    /// predictions on the response scale.
    RobustT { df: Binary64 },
}

impl ResponseFamily {
    /// The same family with numerically equal parameters.
    pub open spec fn same(self, other: Self) -> bool {
        match (self, other) {
            (ResponseFamily::RobustT { df: a }, ResponseFamily::RobustT { df: b }) => a.same(b),
            _ => self == other,
        }
    }

    /// The same family with numerically equal parameters?
    pub fn equals(&self, other: &Self) -> (r: bool)
        ensures
            r == self.same(*other),
    {
        match (self, other) {
            (ResponseFamily::Gaussian, ResponseFamily::Gaussian) => true,
            (ResponseFamily::BinaryProbit, ResponseFamily::BinaryProbit) => true,
            (ResponseFamily::RobustT { df: a }, ResponseFamily::RobustT { df: b }) => a.is_same(
                *b,
            ),
            _ => false,
        }
    }
}

impl PartialEq for ResponseFamily {
    fn eq(&self, other: &Self) -> (r: bool) {
        self.equals(other)
    }
}

impl vstd::std_specs::cmp::PartialEqSpecImpl for ResponseFamily {
    open spec fn obeys_eq_spec() -> bool {
        true
    }

    open spec fn eq_spec(&self, other: &Self) -> bool {
        self.same(*other)
    }
}

impl Default for ResponseFamily {
    fn default() -> (r: Self)
        ensures
            r == ResponseFamily::Gaussian,
    {
        ResponseFamily::Gaussian
    }
}

/// Families are equal exactly where they are of one kind and, for the robust one, the
/// degrees of freedom are the same number; the default is the Gaussian one.
pub proof fn families_equal_by_kind_and_degrees(
    a: ResponseFamily,
    b: ResponseFamily,
    r: bool,
    default: ResponseFamily,
)
    requires
        call_ensures(ResponseFamily::equals, (&a, &b), r),
        call_ensures(ResponseFamily::default, (), default),
    ensures
        r ==> (a is Gaussian <==> b is Gaussian) && (a is BinaryProbit <==> b is BinaryProbit),
        a is Gaussian && b is Gaussian ==> r,
        a is BinaryProbit && b is BinaryProbit ==> r,
        a is RobustT && b is RobustT ==> (r <==> (a->df).same(b->df)),
        default is Gaussian,
{
}

} // verus!
