//! Equality and copies of a description: number by number and name by name.

use crate::binary64::Binary64;
use crate::config_spec::{
    BasisSpec, ConfigSpec, CoordSpec, CountPriorsSpec, DistanceSpec, GowerColumnSpec,
    InclusionSpec, MembershipSpec, MoveSpec, ScaleSpec,
};
use crate::value::{same_numbers, Value};
use vstd::prelude::*;

verus! {

impl Value for ConfigSpec {
    open spec fn equal(self, other: Self) -> bool {
        &&& self.seed == other.seed
        &&& self.m.equal(other.m)
        &&& self.burn_in.equal(other.burn_in)
        &&& self.draws.equal(other.draws)
        &&& self.thinning.equal(other.thinning)
        &&& self.nu.equal(other.nu)
        &&& self.q.equal(other.q)
        &&& self.k.equal(other.k)
        &&& self.lambda_c.equal(other.lambda_c)
        &&& self.omega.equal(other.omega)
        &&& self.sigma_c.equal(other.sigma_c)
        &&& self.metrics.equal(other.metrics)
        &&& self.moves.equal(other.moves)
        &&& self.coords.equal(other.coords)
        &&& self.distance.equal(other.distance)
        &&& self.inclusion.equal(other.inclusion)
        &&& self.response_family.equal(other.response_family)
        &&& self.t_df.equal(other.t_df)
        &&& self.scale.equal(other.scale)
        &&& self.count_priors.equal(other.count_priors)
        &&& self.basis.equal(other.basis)
        &&& self.membership.equal(other.membership)
    }

    open spec fn copy_of(self, other: Self) -> bool {
        &&& self.seed == other.seed
        &&& self.m.copy_of(other.m)
        &&& self.burn_in.copy_of(other.burn_in)
        &&& self.draws.copy_of(other.draws)
        &&& self.thinning.copy_of(other.thinning)
        &&& self.nu.copy_of(other.nu)
        &&& self.q.copy_of(other.q)
        &&& self.k.copy_of(other.k)
        &&& self.lambda_c.copy_of(other.lambda_c)
        &&& self.omega.copy_of(other.omega)
        &&& self.sigma_c.copy_of(other.sigma_c)
        &&& self.metrics.copy_of(other.metrics)
        &&& self.moves.copy_of(other.moves)
        &&& self.coords.copy_of(other.coords)
        &&& self.distance.copy_of(other.distance)
        &&& self.inclusion.copy_of(other.inclusion)
        &&& self.response_family.copy_of(other.response_family)
        &&& self.t_df.copy_of(other.t_df)
        &&& self.scale.copy_of(other.scale)
        &&& self.count_priors.copy_of(other.count_priors)
        &&& self.basis.copy_of(other.basis)
        &&& self.membership.copy_of(other.membership)
    }

    fn equals(&self, other: &Self) -> (r: bool) {
        self.seed == other.seed && self.m.equals(&other.m) && self.burn_in.equals(&other.burn_in)
            && self.draws.equals(&other.draws) && self.thinning.equals(&other.thinning)
            && self.nu.equals(&other.nu) && self.q.equals(&other.q) && self.k.equals(&other.k)
            && self.lambda_c.equals(&other.lambda_c) && self.omega.equals(&other.omega)
            && self.sigma_c.equals(&other.sigma_c) && self.metrics.equals(&other.metrics)
            && self.moves.equals(&other.moves) && self.coords.equals(&other.coords)
            && self.distance.equals(&other.distance) && self.inclusion.equals(&other.inclusion)
            && self.response_family.equals(&other.response_family)
            && self.t_df.equals(&other.t_df) && self.scale.equals(&other.scale)
            && self.count_priors.equals(&other.count_priors) && self.basis.equals(&other.basis)
            && self.membership.equals(&other.membership)
    }

    fn duplicate(&self) -> (r: Self) {
        ConfigSpec {
            seed: self.seed,
            m: self.m.duplicate(),
            burn_in: self.burn_in.duplicate(),
            draws: self.draws.duplicate(),
            thinning: self.thinning.duplicate(),
            nu: self.nu.duplicate(),
            q: self.q.duplicate(),
            k: self.k.duplicate(),
            lambda_c: self.lambda_c.duplicate(),
            omega: self.omega.duplicate(),
            sigma_c: self.sigma_c.duplicate(),
            metrics: self.metrics.duplicate(),
            moves: self.moves.duplicate(),
            coords: self.coords.duplicate(),
            distance: self.distance.duplicate(),
            inclusion: self.inclusion.duplicate(),
            response_family: self.response_family.duplicate(),
            t_df: self.t_df.duplicate(),
            scale: self.scale.duplicate(),
            count_priors: self.count_priors.duplicate(),
            basis: self.basis.duplicate(),
            membership: self.membership.duplicate(),
        }
    }
}

impl PartialEq for ConfigSpec {
    fn eq(&self, other: &Self) -> (r: bool) {
        self.equals(other)
    }
}

impl vstd::std_specs::cmp::PartialEqSpecImpl for ConfigSpec {
    open spec fn obeys_eq_spec() -> bool {
        true
    }

    open spec fn eq_spec(&self, other: &Self) -> bool {
        self.equal(*other)
    }
}

impl Clone for ConfigSpec {
    fn clone(&self) -> (r: Self)
        ensures
            r.copy_of(*self),
    {
        self.duplicate()
    }
}

impl Value for MoveSpec {
    open spec fn equal(self, other: Self) -> bool {
        &&& self.name.equal(other.name)
        &&& self.weight.equal(other.weight)
    }

    open spec fn copy_of(self, other: Self) -> bool {
        &&& self.name.copy_of(other.name)
        &&& self.weight.copy_of(other.weight)
    }

    fn equals(&self, other: &Self) -> (r: bool) {
        self.name.equals(&other.name) && self.weight.equals(&other.weight)
    }

    fn duplicate(&self) -> (r: Self) {
        MoveSpec {
            name: self.name.duplicate(),
            weight: self.weight.duplicate(),
        }
    }
}

impl PartialEq for MoveSpec {
    fn eq(&self, other: &Self) -> (r: bool) {
        self.equals(other)
    }
}

impl vstd::std_specs::cmp::PartialEqSpecImpl for MoveSpec {
    open spec fn obeys_eq_spec() -> bool {
        true
    }

    open spec fn eq_spec(&self, other: &Self) -> bool {
        self.equal(*other)
    }
}

impl Clone for MoveSpec {
    fn clone(&self) -> (r: Self)
        ensures
            r.copy_of(*self),
    {
        self.duplicate()
    }
}

impl Value for CoordSpec {
    open spec fn equal(self, other: Self) -> bool {
        match (self, other) {
            (
                CoordSpec::EuclideanNormal { sigma_c: a0 },
                CoordSpec::EuclideanNormal { sigma_c: b0 },
            ) => a0.equal(b0),
            (
                CoordSpec::WrappedNormal { sigma_c: a0 },
                CoordSpec::WrappedNormal { sigma_c: b0 },
            ) => a0.equal(b0),
            _ => false,
        }
    }

    open spec fn copy_of(self, other: Self) -> bool {
        self == other
    }

    fn equals(&self, other: &Self) -> (r: bool) {
        match (self, other) {
            (
                CoordSpec::EuclideanNormal { sigma_c: a0 },
                CoordSpec::EuclideanNormal { sigma_c: b0 },
            ) => a0.equals(b0),
            (
                CoordSpec::WrappedNormal { sigma_c: a0 },
                CoordSpec::WrappedNormal { sigma_c: b0 },
            ) => a0.equals(b0),
            _ => false,
        }
    }

    fn duplicate(&self) -> (r: Self) {
        *self
    }
}

impl PartialEq for CoordSpec {
    fn eq(&self, other: &Self) -> (r: bool) {
        self.equals(other)
    }
}

impl vstd::std_specs::cmp::PartialEqSpecImpl for CoordSpec {
    open spec fn obeys_eq_spec() -> bool {
        true
    }

    open spec fn eq_spec(&self, other: &Self) -> bool {
        self.equal(*other)
    }
}

impl Value for DistanceSpec {
    open spec fn equal(self, other: Self) -> bool {
        match (self, other) {
            (DistanceSpec::Euclidean, DistanceSpec::Euclidean) => true,
            (DistanceSpec::Manhattan, DistanceSpec::Manhattan) => true,
            (DistanceSpec::Cosine, DistanceSpec::Cosine) => true,
            (DistanceSpec::Spherical, DistanceSpec::Spherical) => true,
            (DistanceSpec::Minkowski { p: a0 }, DistanceSpec::Minkowski { p: b0 }) => {
                a0.equal(b0)
            },
            (DistanceSpec::Gower { columns: a0 }, DistanceSpec::Gower { columns: b0 }) => {
                a0.equal(b0)
            },
            (
                DistanceSpec::Mahalanobis { precision: a0 },
                DistanceSpec::Mahalanobis { precision: b0 },
            ) => a0.equal(b0),
            _ => false,
        }
    }

    open spec fn copy_of(self, other: Self) -> bool {
        match (self, other) {
            (DistanceSpec::Euclidean, DistanceSpec::Euclidean) => true,
            (DistanceSpec::Manhattan, DistanceSpec::Manhattan) => true,
            (DistanceSpec::Cosine, DistanceSpec::Cosine) => true,
            (DistanceSpec::Spherical, DistanceSpec::Spherical) => true,
            (DistanceSpec::Minkowski { p: a0 }, DistanceSpec::Minkowski { p: b0 }) => {
                a0.copy_of(b0)
            },
            (DistanceSpec::Gower { columns: a0 }, DistanceSpec::Gower { columns: b0 }) => {
                a0.copy_of(b0)
            },
            (
                DistanceSpec::Mahalanobis { precision: a0 },
                DistanceSpec::Mahalanobis { precision: b0 },
            ) => a0.copy_of(b0),
            _ => false,
        }
    }

    fn equals(&self, other: &Self) -> (r: bool) {
        match (self, other) {
            (DistanceSpec::Euclidean, DistanceSpec::Euclidean) => true,
            (DistanceSpec::Manhattan, DistanceSpec::Manhattan) => true,
            (DistanceSpec::Cosine, DistanceSpec::Cosine) => true,
            (DistanceSpec::Spherical, DistanceSpec::Spherical) => true,
            (DistanceSpec::Minkowski { p: a0 }, DistanceSpec::Minkowski { p: b0 }) => {
                a0.equals(b0)
            },
            (DistanceSpec::Gower { columns: a0 }, DistanceSpec::Gower { columns: b0 }) => {
                a0.equals(b0)
            },
            (
                DistanceSpec::Mahalanobis { precision: a0 },
                DistanceSpec::Mahalanobis { precision: b0 },
            ) => a0.equals(b0),
            _ => false,
        }
    }

    fn duplicate(&self) -> (r: Self) {
        match self {
            DistanceSpec::Euclidean => DistanceSpec::Euclidean,
            DistanceSpec::Manhattan => DistanceSpec::Manhattan,
            DistanceSpec::Cosine => DistanceSpec::Cosine,
            DistanceSpec::Spherical => DistanceSpec::Spherical,
            DistanceSpec::Minkowski { p } => DistanceSpec::Minkowski { p: p.duplicate() },
            DistanceSpec::Gower { columns } => {
                DistanceSpec::Gower { columns: columns.duplicate() }
            },
            DistanceSpec::Mahalanobis { precision } => {
                DistanceSpec::Mahalanobis { precision: precision.duplicate() }
            },
        }
    }
}

impl PartialEq for DistanceSpec {
    fn eq(&self, other: &Self) -> (r: bool) {
        self.equals(other)
    }
}

impl vstd::std_specs::cmp::PartialEqSpecImpl for DistanceSpec {
    open spec fn obeys_eq_spec() -> bool {
        true
    }

    open spec fn eq_spec(&self, other: &Self) -> bool {
        self.equal(*other)
    }
}

impl Clone for DistanceSpec {
    fn clone(&self) -> (r: Self)
        ensures
            r.copy_of(*self),
    {
        self.duplicate()
    }
}

impl Value for GowerColumnSpec {
    open spec fn equal(self, other: Self) -> bool {
        self == other
    }

    open spec fn copy_of(self, other: Self) -> bool {
        self == other
    }

    fn equals(&self, other: &Self) -> (r: bool) {
        *self == *other
    }

    fn duplicate(&self) -> (r: Self) {
        *self
    }
}

impl Value for InclusionSpec {
    open spec fn equal(self, other: Self) -> bool {
        match (self, other) {
            (InclusionSpec::Uniform, InclusionSpec::Uniform) => true,
            (InclusionSpec::Weighted { weights: a0 }, InclusionSpec::Weighted { weights: b0 }) => {
                a0.equal(b0)
            },
            (InclusionSpec::Dart { alpha: a0 }, InclusionSpec::Dart { alpha: b0 }) => {
                a0.equal(b0)
            },
            _ => false,
        }
    }

    open spec fn copy_of(self, other: Self) -> bool {
        match (self, other) {
            (InclusionSpec::Uniform, InclusionSpec::Uniform) => true,
            (InclusionSpec::Weighted { weights: a0 }, InclusionSpec::Weighted { weights: b0 }) => {
                a0.copy_of(b0)
            },
            (InclusionSpec::Dart { alpha: a0 }, InclusionSpec::Dart { alpha: b0 }) => {
                a0.copy_of(b0)
            },
            _ => false,
        }
    }

    fn equals(&self, other: &Self) -> (r: bool) {
        match (self, other) {
            (InclusionSpec::Uniform, InclusionSpec::Uniform) => true,
            (InclusionSpec::Weighted { weights: a0 }, InclusionSpec::Weighted { weights: b0 }) => {
                a0.equals(b0)
            },
            (InclusionSpec::Dart { alpha: a0 }, InclusionSpec::Dart { alpha: b0 }) => {
                a0.equals(b0)
            },
            _ => false,
        }
    }

    fn duplicate(&self) -> (r: Self) {
        match self {
            InclusionSpec::Uniform => InclusionSpec::Uniform,
            InclusionSpec::Weighted { weights } => {
                InclusionSpec::Weighted { weights: weights.duplicate() }
            },
            InclusionSpec::Dart { alpha } => InclusionSpec::Dart { alpha: alpha.duplicate() },
        }
    }
}

impl PartialEq for InclusionSpec {
    fn eq(&self, other: &Self) -> (r: bool) {
        self.equals(other)
    }
}

impl vstd::std_specs::cmp::PartialEqSpecImpl for InclusionSpec {
    open spec fn obeys_eq_spec() -> bool {
        true
    }

    open spec fn eq_spec(&self, other: &Self) -> bool {
        self.equal(*other)
    }
}

impl Clone for InclusionSpec {
    fn clone(&self) -> (r: Self)
        ensures
            r.copy_of(*self),
    {
        self.duplicate()
    }
}

impl Value for ScaleSpec {
    open spec fn equal(self, other: Self) -> bool {
        match (self, other) {
            (ScaleSpec::Pinned { sigma_sq: a0 }, ScaleSpec::Pinned { sigma_sq: b0 }) => {
                a0.equal(b0)
            },
            (
                ScaleSpec::HVariance { m_prime: a0, nu_prime: a1, lambda_prime: a2 },
                ScaleSpec::HVariance { m_prime: b0, nu_prime: b1, lambda_prime: b2 },
            ) => a0.equal(b0) && a1.equal(b1) && a2.equal(b2),
            _ => false,
        }
    }

    open spec fn copy_of(self, other: Self) -> bool {
        self == other
    }

    fn equals(&self, other: &Self) -> (r: bool) {
        match (self, other) {
            (ScaleSpec::Pinned { sigma_sq: a0 }, ScaleSpec::Pinned { sigma_sq: b0 }) => {
                a0.equals(b0)
            },
            (
                ScaleSpec::HVariance { m_prime: a0, nu_prime: a1, lambda_prime: a2 },
                ScaleSpec::HVariance { m_prime: b0, nu_prime: b1, lambda_prime: b2 },
            ) => a0.equals(b0) && a1.equals(b1) && a2.equals(b2),
            _ => false,
        }
    }

    fn duplicate(&self) -> (r: Self) {
        *self
    }
}

impl PartialEq for ScaleSpec {
    fn eq(&self, other: &Self) -> (r: bool) {
        self.equals(other)
    }
}

impl vstd::std_specs::cmp::PartialEqSpecImpl for ScaleSpec {
    open spec fn obeys_eq_spec() -> bool {
        true
    }

    open spec fn eq_spec(&self, other: &Self) -> bool {
        self.equal(*other)
    }
}

impl Value for CountPriorsSpec {
    open spec fn equal(self, other: Self) -> bool {
        self == other
    }

    open spec fn copy_of(self, other: Self) -> bool {
        self == other
    }

    fn equals(&self, other: &Self) -> (r: bool) {
        *self == *other
    }

    fn duplicate(&self) -> (r: Self) {
        *self
    }
}

impl Value for BasisSpec {
    open spec fn equal(self, other: Self) -> bool {
        match (self, other) {
            (
                BasisSpec::Linear { columns: a0, sigma_beta_sq: a1 },
                BasisSpec::Linear { columns: b0, sigma_beta_sq: b1 },
            ) => a0.equal(b0) && a1.equal(b1),
        }
    }

    open spec fn copy_of(self, other: Self) -> bool {
        match (self, other) {
            (
                BasisSpec::Linear { columns: a0, sigma_beta_sq: a1 },
                BasisSpec::Linear { columns: b0, sigma_beta_sq: b1 },
            ) => a0.copy_of(b0) && a1.copy_of(b1),
        }
    }

    fn equals(&self, other: &Self) -> (r: bool) {
        match (self, other) {
            (
                BasisSpec::Linear { columns: a0, sigma_beta_sq: a1 },
                BasisSpec::Linear { columns: b0, sigma_beta_sq: b1 },
            ) => a0.equals(b0) && a1.equals(b1),
        }
    }

    fn duplicate(&self) -> (r: Self) {
        match self {
            BasisSpec::Linear { columns, sigma_beta_sq } => {
                BasisSpec::Linear {
                    columns: columns.duplicate(),
                    sigma_beta_sq: sigma_beta_sq.duplicate(),
                }
            },
        }
    }
}

impl PartialEq for BasisSpec {
    fn eq(&self, other: &Self) -> (r: bool) {
        self.equals(other)
    }
}

impl vstd::std_specs::cmp::PartialEqSpecImpl for BasisSpec {
    open spec fn obeys_eq_spec() -> bool {
        true
    }

    open spec fn eq_spec(&self, other: &Self) -> bool {
        self.equal(*other)
    }
}

impl Clone for BasisSpec {
    fn clone(&self) -> (r: Self)
        ensures
            r.copy_of(*self),
    {
        self.duplicate()
    }
}

impl Value for MembershipSpec {
    open spec fn equal(self, other: Self) -> bool {
        match (self, other) {
            (MembershipSpec::Softmax { tau: a0 }, MembershipSpec::Softmax { tau: b0 }) => {
                a0.equal(b0)
            },
        }
    }

    open spec fn copy_of(self, other: Self) -> bool {
        self == other
    }

    fn equals(&self, other: &Self) -> (r: bool) {
        match (self, other) {
            (MembershipSpec::Softmax { tau: a0 }, MembershipSpec::Softmax { tau: b0 }) => {
                a0.equals(b0)
            },
        }
    }

    fn duplicate(&self) -> (r: Self) {
        *self
    }
}

impl PartialEq for MembershipSpec {
    fn eq(&self, other: &Self) -> (r: bool) {
        self.equals(other)
    }
}

impl vstd::std_specs::cmp::PartialEqSpecImpl for MembershipSpec {
    open spec fn obeys_eq_spec() -> bool {
        true
    }

    open spec fn eq_spec(&self, other: &Self) -> bool {
        self.equal(*other)
    }
}

/// Are both numbers left out, or both given and equal?
pub open spec fn same_number(a: Option<Binary64>, b: Option<Binary64>) -> bool {
    (a is Some <==> b is Some) && (a is Some ==> (a->0).same(b->0))
}

/// Two descriptions are equal exactly where every one of their settings is.
pub proof fn descriptions_equal_setting_by_setting(a: ConfigSpec, b: ConfigSpec, r: bool)
    requires
        call_ensures(ConfigSpec::equals, (&a, &b), r),
    ensures
        r <==> {
            &&& a.seed == b.seed
            &&& a.m == b.m
            &&& a.burn_in == b.burn_in
            &&& a.draws == b.draws
            &&& a.thinning == b.thinning
            &&& same_number(a.nu, b.nu)
            &&& same_number(a.q, b.q)
            &&& same_number(a.k, b.k)
            &&& same_number(a.lambda_c, b.lambda_c)
            &&& same_number(a.omega, b.omega)
            &&& same_number(a.sigma_c, b.sigma_c)
            &&& same_number(a.t_df, b.t_df)
            &&& (a.metrics is Some <==> b.metrics is Some)
            &&& a.metrics is Some ==> (a.metrics->0).equal(b.metrics->0)
            &&& (a.moves is Some <==> b.moves is Some)
            &&& a.moves is Some ==> (a.moves->0).equal(b.moves->0)
            &&& (a.coords is Some <==> b.coords is Some)
            &&& a.coords is Some ==> (a.coords->0).equal(b.coords->0)
            &&& (a.distance is Some <==> b.distance is Some)
            &&& a.distance is Some ==> (a.distance->0).equal(b.distance->0)
            &&& (a.inclusion is Some <==> b.inclusion is Some)
            &&& a.inclusion is Some ==> (a.inclusion->0).equal(b.inclusion->0)
            &&& (a.response_family is Some <==> b.response_family is Some)
            &&& a.response_family is Some ==> (a.response_family->0).equal(b.response_family->0)
            &&& (a.scale is Some <==> b.scale is Some)
            &&& a.scale is Some ==> (a.scale->0).equal(b.scale->0)
            &&& (a.count_priors is Some <==> b.count_priors is Some)
            &&& a.count_priors is Some ==> (a.count_priors->0).equal(b.count_priors->0)
            &&& (a.basis is Some <==> b.basis is Some)
            &&& a.basis is Some ==> (a.basis->0).equal(b.basis->0)
            &&& (a.membership is Some <==> b.membership is Some)
            &&& a.membership is Some ==> (a.membership->0).equal(b.membership->0)
        },
{
}

/// A copied description holds every setting of the first.
pub proof fn copied_descriptions_hold_every_setting(a: ConfigSpec, b: ConfigSpec)
    requires
        call_ensures(ConfigSpec::clone, (&a,), b),
    ensures
        a.seed == b.seed,
        a.m == b.m,
        a.burn_in == b.burn_in,
        a.draws == b.draws,
        a.thinning == b.thinning,
        a.nu == b.nu,
        a.q == b.q,
        a.k == b.k,
        a.lambda_c == b.lambda_c,
        a.omega == b.omega,
        a.sigma_c == b.sigma_c,
        a.t_df == b.t_df,
        a.coords is Some <==> b.coords is Some,
        a.coords is Some ==> (a.coords->0)@ == (b.coords->0)@,
        a.scale == b.scale,
        a.count_priors == b.count_priors,
        a.membership == b.membership,
        a.metrics is Some <==> b.metrics is Some,
        a.metrics is Some ==> (a.metrics->0)@.len() == (b.metrics->0)@.len() && forall|i: int|
            0 <= i < (a.metrics->0)@.len() ==> (#[trigger] (b.metrics->0)@[i])@
                == (a.metrics->0)@[i]@,
        a.moves is Some <==> b.moves is Some,
        a.moves is Some ==> (a.moves->0)@.len() == (b.moves->0)@.len() && forall|i: int|
            0 <= i < (a.moves->0)@.len() ==> (#[trigger] (b.moves->0)@[i]).name@
                == (a.moves->0)@[i].name@ && (b.moves->0)@[i].weight == (a.moves->0)@[i].weight,
        a.response_family is Some <==> b.response_family is Some,
        a.response_family is Some ==> (a.response_family->0)@ == (b.response_family->0)@,
        a.distance is Some <==> b.distance is Some,
        a.distance is Some ==> (b.distance->0).copy_of(a.distance->0),
        a.inclusion is Some <==> b.inclusion is Some,
        a.inclusion is Some ==> (b.inclusion->0).copy_of(a.inclusion->0),
        a.basis is Some <==> b.basis is Some,
        a.basis is Some ==> (b.basis->0).copy_of(a.basis->0),
{
    if a.coords is Some {
        assert((a.coords->0)@ =~= (b.coords->0)@);
    }
}

/// Entries of a move list are equal exactly where name and weight are.
pub proof fn move_entries_equal_by_name_and_weight(a: MoveSpec, b: MoveSpec, r: bool)
    requires
        call_ensures(MoveSpec::equals, (&a, &b), r),
    ensures
        r <==> a.name@ == b.name@ && a.weight.same(b.weight),
{
}

/// Component descriptions are equal exactly where they are of one kind and hold equal
/// numbers.
pub proof fn components_equal_by_kind_and_numbers(
    c: (CoordSpec, CoordSpec, bool),
    s: (ScaleSpec, ScaleSpec, bool),
    b: (BasisSpec, BasisSpec, bool),
    m: (MembershipSpec, MembershipSpec, bool),
)
    requires
        call_ensures(CoordSpec::equals, (&c.0, &c.1), c.2),
        call_ensures(ScaleSpec::equals, (&s.0, &s.1), s.2),
        call_ensures(BasisSpec::equals, (&b.0, &b.1), b.2),
        call_ensures(MembershipSpec::equals, (&m.0, &m.1), m.2),
    ensures
        c.2 <==> {
            ||| c.0 is EuclideanNormal && c.1 is EuclideanNormal
                && c.0->EuclideanNormal_sigma_c.same(c.1->EuclideanNormal_sigma_c)
            ||| c.0 is WrappedNormal && c.1 is WrappedNormal && c.0->WrappedNormal_sigma_c.same(
                c.1->WrappedNormal_sigma_c,
            )
        },
        s.2 <==> {
            ||| s.0 is Pinned && s.1 is Pinned && s.0->sigma_sq.same(s.1->sigma_sq)
            ||| s.0 is HVariance && s.1 is HVariance && s.0->m_prime == s.1->m_prime
                && same_number(s.0->nu_prime, s.1->nu_prime) && same_number(
                s.0->lambda_prime,
                s.1->lambda_prime,
            )
        },
        b.2 <==> b.0->columns@ == b.1->columns@ && b.0->sigma_beta_sq.same(b.1->sigma_beta_sq),
        m.2 <==> m.0->tau.same(m.1->tau),
{
    assert(b.0->columns.equal(b.1->columns) <==> b.0->columns@ =~= b.1->columns@);
}

/// Inclusion descriptions are equal exactly where they are of one kind and hold equal
/// weights or an equal concentration.
pub proof fn inclusions_equal_by_kind_and_numbers(a: InclusionSpec, b: InclusionSpec, r: bool)
    requires
        call_ensures(InclusionSpec::equals, (&a, &b), r),
    ensures
        r <==> {
            ||| a is Uniform && b is Uniform
            ||| a is Dart && b is Dart && a->alpha.same(b->alpha)
            ||| a is Weighted && b is Weighted && a->weights@.len() == b->weights@.len()
                && forall|i: int|
                0 <= i < a->weights@.len() ==> (#[trigger] a->weights@[i]).same(b->weights@[i])
        },
{
}

/// Distance descriptions are equal exactly where they are of one kind and hold an equal
/// exponent, equal column kinds or an equal precision matrix.
pub proof fn distances_equal_by_kind_and_parameters(a: DistanceSpec, b: DistanceSpec, r: bool)
    requires
        call_ensures(DistanceSpec::equals, (&a, &b), r),
    ensures
        r ==> (a is Euclidean <==> b is Euclidean) && (a is Manhattan <==> b is Manhattan) && (a
            is Cosine <==> b is Cosine) && (a is Spherical <==> b is Spherical) && (a
            is Minkowski <==> b is Minkowski) && (a is Gower <==> b is Gower),
        a is Euclidean && b is Euclidean || a is Manhattan && b is Manhattan || a is Cosine && b
            is Cosine || a is Spherical && b is Spherical ==> r,
        a is Minkowski && b is Minkowski ==> (r <==> a->p.same(b->p)),
        a is Gower && b is Gower ==> (r <==> a->columns@ == b->columns@),
        a is Mahalanobis && b is Mahalanobis ==> (r <==> a->precision@.len() == b->precision@.len()
            && forall|i: int|
            0 <= i < a->precision@.len() ==> same_numbers(
                (#[trigger] a->precision@[i])@,
                b->precision@[i]@,
            )),
{
    if a is Gower && b is Gower {
        assert(a->columns.equal(b->columns) <==> a->columns@ =~= b->columns@);
    }
    if a is Mahalanobis && b is Mahalanobis && a->precision@.len() == b->precision@.len() {
        assert forall|i: int| 0 <= i < a->precision@.len() implies (
        #[trigger] a->precision@[i]).equal(b->precision@[i]) == same_numbers(
            a->precision@[i]@,
            b->precision@[i]@,
        ) by {}
    }
}

} // verus!
