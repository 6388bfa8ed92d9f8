//! Column semantics: the per-column geometry that the boundary validator and the
//! scaler consult: valid input domain, fit-time scaling range, and how a value is
//! scaled.

use crate::binary64::{infinity, minus_infinity, minus_pi, pi, Binary64};
use crate::engine::data::Metric;
use vstd::prelude::*;

verus! {

/// How one column's values are treated.
#[derive(Clone, Copy, Debug, PartialEq, Eq, Structural)]
pub enum ColumnSemantics {
    /// Real values of unbounded domain, scaled from their range onto
    /// [-0.5, 0.5]; a constant column is degenerate.
    Real,
    /// Angles on [-pi, pi], not scaled and never degenerate.
    Angle,
    /// Values the caller prepared: unbounded, not scaled, never degenerate.
    Prepared,
}

/// How one value of a column is scaled.
#[derive(Clone, Copy, Debug, PartialEq, Eq, Structural)]
pub enum Scaling {
    /// The value stays as it is.
    Identity,
    /// The range from `min` to `max` is mapped onto [-0.5, 0.5].
    Affine { min: Binary64, max: Binary64 },
}

/// A centre-coordinate law of the built-in set.
#[derive(Clone, Copy, Debug, PartialEq, Eq, Structural)]
pub enum CoordLaw {
    /// A normal law on the real line.
    EuclideanNormal { sigma_c: Binary64 },
    /// A normal law wrapped round the circle.
    WrappedNormal { sigma_c: Binary64 },
}

/// The lowest number of a column, the first of equal ones; positive infinity
/// where there is none.
pub open spec fn lowest(column: Seq<Binary64>) -> Binary64
    decreases column.len(),
{
    if column.len() == 0 {
        infinity()
    } else if column.last().below(lowest(column.drop_last())) {
        column.last()
    } else {
        lowest(column.drop_last())
    }
}

/// The highest number of a column, the first of equal ones; negative infinity
/// where there is none.
pub open spec fn highest(column: Seq<Binary64>) -> Binary64
    decreases column.len(),
{
    if column.len() == 0 {
        minus_infinity()
    } else if highest(column.drop_last()).below(column.last()) {
        column.last()
    } else {
        highest(column.drop_last())
    }
}

/// The lowest and highest numbers of a column.
fn observed_range(column: &[Binary64]) -> (r: (Binary64, Binary64))
    ensures
        r == (lowest(column@), highest(column@)),
{
    let mut lo = infinity();
    let mut hi = minus_infinity();
    for i in 0..column.len()
        invariant
            lo == lowest(column@.take(i as int)),
            hi == highest(column@.take(i as int)),
    {
        assert(column@.take(i + 1).drop_last() =~= column@.take(i as int));
        let v = column[i];
        if v.is_below(lo) {
            lo = v;
        }
        if hi.is_below(v) {
            hi = v;
        }
    }
    assert(column@.take(column@.len() as int) =~= column@);
    (lo, hi)
}

impl ColumnSemantics {
    /// The values that a column of this geometry may hold.
    pub open spec fn domain(self, value: Binary64) -> bool {
        match self {
            ColumnSemantics::Real => true,
            ColumnSemantics::Angle => minus_pi().at_most(value) && value.at_most(pi()),
            ColumnSemantics::Prepared => true,
        }
    }

    /// The fit-time scaling range of a column of this geometry.
    pub open spec fn range(self, column: Seq<Binary64>) -> Option<(Binary64, Binary64)> {
        match self {
            ColumnSemantics::Real => if lowest(column).same(highest(column)) {
                None
            } else {
                Some((lowest(column), highest(column)))
            },
            ColumnSemantics::Angle => Some((minus_pi(), pi())),
            ColumnSemantics::Prepared => Some((lowest(column), highest(column))),
        }
    }

    /// Does `value` lie in this column's valid domain? Real, categorical and
    /// prepared columns are unbounded; an angle lies in [-pi, pi].
    pub fn in_domain(self, value: Binary64) -> (r: bool)
        ensures
            r == self.domain(value),
    {
        match self {
            ColumnSemantics::Real => true,
            ColumnSemantics::Angle => minus_pi().is_at_most(value) && value.is_at_most(pi()),
            ColumnSemantics::Prepared => true,
        }
    }

    /// The fit-time scaling range (min, max) of an encoded column, or `None` for a
    /// real column without spread.
    pub fn fit_range(self, column: &[Binary64]) -> (r: Option<(Binary64, Binary64)>)
        ensures
            r == self.range(column@),
    {
        match self {
            ColumnSemantics::Real => {
                let (lo, hi) = observed_range(column);
                if lo.is_same(hi) {
                    None
                } else {
                    Some((lo, hi))
                }
            },
            ColumnSemantics::Angle => Some((minus_pi(), pi())),
            ColumnSemantics::Prepared => Some(observed_range(column)),
        }
    }

    /// How a value is scaled, given its column's fitted range.
    pub fn scale(self, min: Binary64, max: Binary64) -> (r: Scaling)
        ensures
            r == (if self is Real {
                Scaling::Affine { min, max }
            } else {
                Scaling::Identity
            }),
    {
        match self {
            ColumnSemantics::Real => Scaling::Affine { min, max },
            ColumnSemantics::Angle => Scaling::Identity,
            ColumnSemantics::Prepared => Scaling::Identity,
        }
    }

    /// The centre-coordinate law used where the caller supplies none.
    pub fn default_coord_law(self, sigma_c: Binary64) -> (r: CoordLaw)
        ensures
            r == (if self is Angle {
                CoordLaw::WrappedNormal { sigma_c }
            } else {
                CoordLaw::EuclideanNormal { sigma_c }
            }),
    {
        match self {
            ColumnSemantics::Real => CoordLaw::EuclideanNormal { sigma_c },
            ColumnSemantics::Angle => CoordLaw::WrappedNormal { sigma_c },
            ColumnSemantics::Prepared => CoordLaw::EuclideanNormal { sigma_c },
        }
    }
}

/// The column semantics of a built-in metric. A categorical value has no domain
/// constraint, and each column it expands to is real-scaled.
#[verifier::allow_in_spec]
pub fn semantics_for(metric: Metric) -> ColumnSemantics
    returns
        (match metric {
            Metric::Spherical => ColumnSemantics::Angle,
            Metric::Euclidean => ColumnSemantics::Real,
            Metric::Categorical => ColumnSemantics::Real,
            Metric::Prepared => ColumnSemantics::Prepared,
        }),
{
    match metric {
        Metric::Spherical => ColumnSemantics::Angle,
        Metric::Euclidean => ColumnSemantics::Real,
        Metric::Categorical => ColumnSemantics::Real,
        Metric::Prepared => ColumnSemantics::Prepared,
    }
}

/// The range of a column of numbers encloses every one of them, and both of its
/// ends are values of the column.
pub proof fn range_encloses_column(column: Seq<Binary64>)
    requires
        column.len() > 0,
        forall|i: int| 0 <= i < column.len() ==> #[trigger] column[i].finite(),
    ensures
        forall|i: int|
            0 <= i < column.len() ==> lowest(column).at_most(#[trigger] column[i])
                && column[i].at_most(highest(column)),
        column.contains(lowest(column)),
        column.contains(highest(column)),
    decreases column.len(),
{
    let front = column.drop_last();
    assert(column.last() == column[column.len() - 1]);
    assert(column[column.len() - 1].finite());
    if front.len() > 0 {
        assert forall|i: int| 0 <= i < front.len() implies #[trigger] front[i].finite() by {
            assert(front[i] == column[i]);
            assert(column[i].finite());
        }
        range_encloses_column(front);
        let a = choose|i: int| 0 <= i < front.len() && front[i] == lowest(front);
        assert(column[a] == lowest(front) && column[a].finite());
        let b = choose|i: int| 0 <= i < front.len() && front[i] == highest(front);
        assert(column[b] == highest(front) && column[b].finite());
        assert forall|i: int| 0 <= i < column.len() implies lowest(column).at_most(
            #[trigger] column[i],
        ) && column[i].at_most(highest(column)) by {
            if i < front.len() {
                assert(front[i] == column[i]);
            }
        }
    } else {
        assert(lowest(front) == infinity());
        assert(highest(front) == minus_infinity());
    }
}

/// A real column has no range exactly when it is constant.
pub proof fn degenerate_exactly_when_constant(column: Seq<Binary64>)
    requires
        column.len() > 0,
        forall|i: int| 0 <= i < column.len() ==> #[trigger] column[i].finite(),
    ensures
        ColumnSemantics::Real.range(column) is None <==> forall|i: int|
            0 <= i < column.len() ==> (#[trigger] column[i]).same(column[0]),
{
    range_encloses_column(column);
    let a = choose|i: int| 0 <= i < column.len() && column[i] == lowest(column);
    let b = choose|i: int| 0 <= i < column.len() && column[i] == highest(column);
    assert(column[a].finite() && column[b].finite() && column[0].finite());
    if lowest(column).same(highest(column)) {
        assert forall|i: int| 0 <= i < column.len() implies (#[trigger] column[i]).same(
            column[0],
        ) by {
            assert(column[i].finite());
        }
    }
}

/// An angle is in its domain exactly between minus pi and pi, both ends counting; every
/// other column takes any number.
pub proof fn only_angles_have_a_domain(s: ColumnSemantics, value: Binary64, r: bool)
    requires
        call_ensures(ColumnSemantics::in_domain, (s, value), r),
    ensures
        !(s is Angle) ==> r,
        s is Angle ==> (r <==> minus_pi().at_most(value) && value.at_most(pi())),
        s is Angle && value.finite() ==> (r <==> -pi().value() <= value.value() <= pi().value()),
        s is Angle && value.nan() ==> !r,
{
    crate::binary64::constants_have_their_values();
    if value.finite() {
        crate::binary64::rank_orders_values(minus_pi(), value);
        crate::binary64::rank_orders_values(value, pi());
    }
}

/// The fitted range of a column of finite numbers: for angles always the whole circle;
/// for prepared columns the least and the greatest value; for real ones the same, and
/// none exactly where all values are equal.
pub proof fn ranges_are_the_extremes(
    s: ColumnSemantics,
    column: &[Binary64],
    r: Option<(Binary64, Binary64)>,
)
    requires
        call_ensures(ColumnSemantics::fit_range, (s, column), r),
        column@.len() > 0,
        forall|i: int| 0 <= i < column@.len() ==> (#[trigger] column@[i]).finite(),
    ensures
        s is Angle ==> r == Some((minus_pi(), pi())),
        r is None <==> s is Real && forall|i: int, j: int|
            0 <= i < column@.len() && 0 <= j < column@.len() ==> (#[trigger] column@[i]).same(
                #[trigger] column@[j],
            ),
        !(s is Angle) && r is Some ==> {
            let (lo, hi) = r->0;
            &&& column@.contains(lo)
            &&& column@.contains(hi)
            &&& forall|i: int|
                0 <= i < column@.len() ==> lo.at_most(#[trigger] column@[i]) && column@[i].at_most(
                    hi,
                )
        },
        s is Real && r is Some ==> (r->0).0.below((r->0).1),
{
    range_encloses_column(column@);
    degenerate_exactly_when_constant(column@);
    assert(column@[0].finite());
    if s is Real && r is None {
        assert forall|i: int, j: int| 0 <= i < column@.len() && 0 <= j < column@.len() implies (
        #[trigger] column@[i]).same(#[trigger] column@[j]) by {
            assert(column@[i].same(column@[0]) && column@[j].same(column@[0]));
        }
    }
    assert(lowest(column@).at_most(column@[0]) && column@[0].at_most(highest(column@)));
}

/// Only real columns are scaled, and from their own range; only angles have coordinates
/// that wrap. Categorical columns are treated as real, all others by their own kind.
pub proof fn scaling_and_laws_go_by_the_kind(
    s: ColumnSemantics,
    min: Binary64,
    max: Binary64,
    sigma_c: Binary64,
    scaling: Scaling,
    law: CoordLaw,
)
    requires
        call_ensures(ColumnSemantics::scale, (s, min, max), scaling),
        call_ensures(ColumnSemantics::default_coord_law, (s, sigma_c), law),
    ensures
        scaling is Affine <==> s is Real,
        scaling matches Scaling::Affine { min: a, max: b } ==> a == min && b == max,
        law is WrappedNormal <==> s is Angle,
        law matches CoordLaw::WrappedNormal { sigma_c: v } ==> v == sigma_c,
        law matches CoordLaw::EuclideanNormal { sigma_c: v } ==> v == sigma_c,
        semantics_for(Metric::Euclidean) is Real,
        semantics_for(Metric::Categorical) is Real,
        semantics_for(Metric::Spherical) is Angle,
        semantics_for(Metric::Prepared) is Prepared,
{
}

} // verus!
