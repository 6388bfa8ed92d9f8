//! Model configuration: a constructor with a mandatory seed, setters that replace
//! one field each, and validation that needs no data.

use crate::binary64::{from_bits, one, zero, Binary64};
use crate::engine::data::Metric;
use crate::engine::error::{
    at_least_one_reason, invalid, invalid_hyperparameter, positive_reason, require_at_least_one,
    require_positive_finite, Failure, Result,
};
use crate::engine::handle::{arc_opt_eq, Handle};
use crate::engine::model::ResponseFamily;
use crate::message::{text, Message, Style, Text};
use crate::search::{first, lemma_first_holds, lemma_first_is, lemma_first_none};
use crate::value::Value;
use vstd::arithmetic::div_mod::{
    lemma_add_mod_noop, lemma_mod_equivalence, lemma_mod_multiples_vanish, lemma_mul_mod_noop_left,
    lemma_mul_mod_noop_right, lemma_small_mod,
};
use vstd::prelude::*;

verus! {

/// An inclusion model: its identity and the weights it starts with.
#[derive(Debug)]
pub struct Inclusion {
    /// The model.
    pub handle: Handle,
    /// Its current weight of each raw column.
    pub weights: Vec<Binary64>,
}

/// Configuration of a fit: mandatory seed, hyperparameters at their defaults,
/// components at their built-in defaults.
///
/// Setters never panic or clamp; all checking happens in
/// [`validate`](AddiVortesConfig::validate).
#[derive(Debug)]
pub struct AddiVortesConfig {
    /// Chain seed.
    pub seed: u64,
    /// Ensemble size.
    pub m: usize,
    /// Degrees of freedom of the error-variance prior.
    pub nu: Binary64,
    /// Calibration quantile of the error-variance prior.
    pub q: Binary64,
    /// Spread parameter of the cell-value prior.
    pub k: Binary64,
    /// Spread of the centre-coordinate law.
    pub sigma_c: Binary64,
    /// Parameter of the dimension-count prior.
    pub omega: Binary64,
    /// Parameter of the centre-count prior.
    pub lambda_c: Binary64,
    /// Sweeps discarded by a fit.
    pub burn_in: usize,
    /// Posterior draws kept by a fit.
    pub n_draws: usize,
    /// Thinning interval of a fit; 1 keeps every sweep.
    pub thinning: usize,
    /// Metrics of the raw columns; `None` makes all of them Euclidean.
    pub metrics: Option<Vec<Metric>>,
    /// Move set; `None` is the built-in one.
    pub move_set: Option<Handle>,
    /// Coordinate laws of the raw columns; `None` takes each metric's default.
    pub coords: Option<Vec<Handle>>,
    /// Cell assigner; `None` is the built-in one.
    pub assigner: Option<Handle>,
    /// Soft-membership kernel; `None` is hard membership.
    pub membership: Option<Handle>,
    /// Response family.
    pub family: ResponseFamily,
    /// Inclusion model; `None` is the uniform one.
    pub inclusion: Option<Inclusion>,
    /// Cell model; `None` is the conjugate Gaussian one.
    pub cell_model: Option<Handle>,
    /// Cell basis; `None` is a scalar payload.
    pub basis: Option<Handle>,
    /// Augmentation step; `None` is none.
    pub response_model: Option<Handle>,
    /// Scale model; `None` is the global one.
    pub scale_model: Option<Handle>,
    /// Count priors; `None` is the built-in pair.
    pub count_priors: Option<Handle>,
    /// Cell-value prior spread set directly; `None` leaves it to its rule.
    pub cell_prior_sd: Option<Binary64>,
}

/// The configuration of [`AddiVortesConfig::new`]: 200 tessellations, 6 degrees of
/// freedom, quantile 0.85, cell-value spread 3, coordinate spread 0.8, omega 3,
/// lambda 5, 200 discarded sweeps, 1000 draws, no thinning.
pub open spec fn default_config(seed: u64) -> AddiVortesConfig {
    AddiVortesConfig {
        seed,
        m: 200,
        nu: from_bits(0x4018_0000_0000_0000),
        q: from_bits(0x3feb_3333_3333_3333),
        k: from_bits(0x4008_0000_0000_0000),
        sigma_c: from_bits(0x3fe9_9999_9999_999a),
        omega: from_bits(0x4008_0000_0000_0000),
        lambda_c: from_bits(0x4014_0000_0000_0000),
        burn_in: 200,
        n_draws: 1000,
        thinning: 1,
        metrics: None,
        move_set: None,
        coords: None,
        assigner: None,
        membership: None,
        family: ResponseFamily::Gaussian,
        inclusion: None,
        cell_model: None,
        basis: None,
        response_model: None,
        scale_model: None,
        count_priors: None,
        cell_prior_sd: None,
    }
}

/// The reason for refusing a quantile.
pub open spec fn quantile_reason(value: Binary64) -> Text {
    text("must be in the open interval (0, 1), got "@).number(value, Style::Plain)
}

/// The reason for refusing an inclusion weight.
pub open spec fn weight_reason(value: Binary64) -> Text {
    text("every weight must be finite and positive, got "@).number(value, Style::Plain)
}

/// The first weight that is not finite and positive, as a failure.
pub open spec fn weights_failure(inclusion: Option<Inclusion>) -> Option<Failure> {
    match inclusion {
        None => None,
        Some(model) => match first(
            model.weights@.len(),
            |i: int| !model.weights@[i].positive_finite(),
        ) {
            Some(i) => Some(invalid("inclusion_weights"@, weight_reason(model.weights@[i]))),
            None => None,
        },
    }
}

/// The failure of a number that has to be finite and positive.
pub open spec fn positive_failure(name: Seq<char>, value: Binary64) -> Option<Failure> {
    if value.positive_finite() {
        None
    } else {
        Some(invalid(name, positive_reason(value)))
    }
}

/// The failure of a count that has to be at least 1.
pub open spec fn count_failure(name: Seq<char>, value: usize) -> Option<Failure> {
    if value >= 1 {
        None
    } else {
        Some(invalid(name, at_least_one_reason()))
    }
}

impl AddiVortesConfig {
    /// The first hyperparameter that is out of its range, as a failure that names
    /// it.
    pub open spec fn failure(self) -> Option<Failure> {
        if count_failure("m"@, self.m) is Some {
            count_failure("m"@, self.m)
        } else if positive_failure("nu"@, self.nu) is Some {
            positive_failure("nu"@, self.nu)
        } else if !self.q.in_open_unit() {
            Some(invalid("q"@, quantile_reason(self.q)))
        } else if positive_failure("k"@, self.k) is Some {
            positive_failure("k"@, self.k)
        } else if positive_failure("sigma_c"@, self.sigma_c) is Some {
            positive_failure("sigma_c"@, self.sigma_c)
        } else if positive_failure("omega"@, self.omega) is Some {
            positive_failure("omega"@, self.omega)
        } else if positive_failure("lambda_c"@, self.lambda_c) is Some {
            positive_failure("lambda_c"@, self.lambda_c)
        } else if self.cell_prior_sd is Some && positive_failure(
            "cell_prior_sd"@,
            self.cell_prior_sd->0,
        ) is Some {
            positive_failure("cell_prior_sd"@, self.cell_prior_sd->0)
        } else if count_failure("draws"@, self.n_draws) is Some {
            count_failure("draws"@, self.n_draws)
        } else if count_failure("thinning"@, self.thinning) is Some {
            count_failure("thinning"@, self.thinning)
        } else {
            weights_failure(self.inclusion)
        }
    }

    /// Value equality on every plain field, identity on every component. Numbers
    /// compare as numbers, so a NaN is equal to nothing.
    pub open spec fn same(self, other: Self) -> bool {
        &&& self.seed == other.seed
        &&& self.m == other.m
        &&& self.nu.same(other.nu)
        &&& self.q.same(other.q)
        &&& self.k.same(other.k)
        &&& self.sigma_c.same(other.sigma_c)
        &&& self.omega.same(other.omega)
        &&& self.lambda_c.same(other.lambda_c)
        &&& self.burn_in == other.burn_in
        &&& self.n_draws == other.n_draws
        &&& self.thinning == other.thinning
        &&& match (self.metrics, other.metrics) {
            (Some(a), Some(b)) => a@ == b@,
            (None, None) => true,
            _ => false,
        }
        &&& self.move_set == other.move_set
        &&& match (self.coords, other.coords) {
            (Some(a), Some(b)) => a@ == b@,
            (None, None) => true,
            _ => false,
        }
        &&& self.assigner == other.assigner
        &&& self.membership == other.membership
        &&& self.family.same(other.family)
        &&& match (self.inclusion, other.inclusion) {
            (Some(a), Some(b)) => a.handle == b.handle,
            (None, None) => true,
            _ => false,
        }
        &&& self.cell_model == other.cell_model
        &&& self.basis == other.basis
        &&& self.response_model == other.response_model
        &&& self.scale_model == other.scale_model
        &&& self.count_priors == other.count_priors
        &&& match (self.cell_prior_sd, other.cell_prior_sd) {
            (Some(a), Some(b)) => a.same(b),
            (None, None) => true,
            _ => false,
        }
    }

    /// The same settings, number for number, and the same components.
    pub open spec fn copy_of(self, other: Self) -> bool {
        &&& self == (AddiVortesConfig {
            metrics: self.metrics,
            coords: self.coords,
            inclusion: self.inclusion,
            ..other
        })
        &&& self.metrics.copy_of(other.metrics)
        &&& self.coords.copy_of(other.coords)
        &&& match (self.inclusion, other.inclusion) {
            (Some(a), Some(b)) => a.handle == b.handle && a.weights@ == b.weights@,
            (None, None) => true,
            _ => false,
        }
    }

    /// The defaults with the given chain seed.
    pub fn new(seed: u64) -> (r: Self)
        ensures
            r == default_config(seed),
    {
        AddiVortesConfig {
            seed,
            m: 200,
            nu: from_bits(0x4018_0000_0000_0000),
            q: from_bits(0x3feb_3333_3333_3333),
            k: from_bits(0x4008_0000_0000_0000),
            sigma_c: from_bits(0x3fe9_9999_9999_999a),
            omega: from_bits(0x4008_0000_0000_0000),
            lambda_c: from_bits(0x4014_0000_0000_0000),
            burn_in: 200,
            n_draws: 1000,
            thinning: 1,
            metrics: None,
            move_set: None,
            coords: None,
            assigner: None,
            membership: None,
            family: ResponseFamily::Gaussian,
            inclusion: None,
            cell_model: None,
            basis: None,
            response_model: None,
            scale_model: None,
            count_priors: None,
            cell_prior_sd: None,
        }
    }

    /// Replace the chain seed; the last call wins.
    pub fn with_seed(self, seed: u64) -> (r: Self)
        ensures
            r == (AddiVortesConfig { seed, ..self }),
    {
        AddiVortesConfig { seed, ..self }
    }

    /// Replace the ensemble size; the last call wins.
    pub fn with_m(self, m: usize) -> (r: Self)
        ensures
            r == (AddiVortesConfig { m, ..self }),
    {
        AddiVortesConfig { m, ..self }
    }

    /// Replace the degrees of freedom of the error-variance prior; the last call wins.
    pub fn with_nu(self, nu: Binary64) -> (r: Self)
        ensures
            r == (AddiVortesConfig { nu, ..self }),
    {
        AddiVortesConfig { nu, ..self }
    }

    /// Replace the calibration quantile of the error-variance prior; the last call wins.
    pub fn with_q(self, q: Binary64) -> (r: Self)
        ensures
            r == (AddiVortesConfig { q, ..self }),
    {
        AddiVortesConfig { q, ..self }
    }

    /// Replace the spread parameter of the cell-value prior; the last call wins.
    pub fn with_k(self, k: Binary64) -> (r: Self)
        ensures
            r == (AddiVortesConfig { k, ..self }),
    {
        AddiVortesConfig { k, ..self }
    }

    /// Replace the spread of the centre-coordinate law; the last call wins.
    pub fn with_sigma_c(self, sigma_c: Binary64) -> (r: Self)
        ensures
            r == (AddiVortesConfig { sigma_c, ..self }),
    {
        AddiVortesConfig { sigma_c, ..self }
    }

    /// Replace the parameter of the dimension-count prior; the last call wins.
    pub fn with_omega(self, omega: Binary64) -> (r: Self)
        ensures
            r == (AddiVortesConfig { omega, ..self }),
    {
        AddiVortesConfig { omega, ..self }
    }

    /// Replace the parameter of the centre-count prior; the last call wins.
    pub fn with_lambda_c(self, lambda_c: Binary64) -> (r: Self)
        ensures
            r == (AddiVortesConfig { lambda_c, ..self }),
    {
        AddiVortesConfig { lambda_c, ..self }
    }

    /// Replace the number of discarded sweeps; the last call wins.
    pub fn with_burn_in(self, burn_in: usize) -> (r: Self)
        ensures
            r == (AddiVortesConfig { burn_in, ..self }),
    {
        AddiVortesConfig { burn_in, ..self }
    }

    /// Replace the number of kept draws; the last call wins.
    pub fn with_draws(self, n_draws: usize) -> (r: Self)
        ensures
            r == (AddiVortesConfig { n_draws, ..self }),
    {
        AddiVortesConfig { n_draws, ..self }
    }

    /// Replace the thinning interval; the last call wins.
    pub fn with_thinning(self, thinning: usize) -> (r: Self)
        ensures
            r == (AddiVortesConfig { thinning, ..self }),
    {
        AddiVortesConfig { thinning, ..self }
    }

    /// Replace the metrics of the raw columns; the last call wins.
    pub fn with_metrics(self, metrics: Vec<Metric>) -> (r: Self)
        ensures
            r == (AddiVortesConfig { metrics: Some(metrics), ..self }),
    {
        AddiVortesConfig { metrics: Some(metrics), ..self }
    }

    /// Replace the move set; the last call wins.
    pub fn with_move_set(self, move_set: Handle) -> (r: Self)
        ensures
            r == (AddiVortesConfig { move_set: Some(move_set), ..self }),
    {
        AddiVortesConfig { move_set: Some(move_set), ..self }
    }

    /// Replace the coordinate laws, one per raw column; the last call wins.
    pub fn with_coords(self, coords: Vec<Handle>) -> (r: Self)
        ensures
            r == (AddiVortesConfig { coords: Some(coords), ..self }),
    {
        AddiVortesConfig { coords: Some(coords), ..self }
    }

    /// Replace the assignment geometry by a pairwise distance; the last call wins.
    pub fn with_distance(self, assigner: Handle) -> (r: Self)
        ensures
            r == (AddiVortesConfig { assigner: Some(assigner), ..self }),
    {
        AddiVortesConfig { assigner: Some(assigner), ..self }
    }

    /// Replace the cell assigner; the last call wins.
    pub fn with_assigner(self, assigner: Handle) -> (r: Self)
        ensures
            r == (AddiVortesConfig { assigner: Some(assigner), ..self }),
    {
        AddiVortesConfig { assigner: Some(assigner), ..self }
    }

    /// Replace the response family; the last call wins.
    pub fn with_response_family(self, family: ResponseFamily) -> (r: Self)
        ensures
            r == (AddiVortesConfig { family, ..self }),
    {
        AddiVortesConfig { family, ..self }
    }

    /// Replace the soft-membership kernel; the last call wins.
    pub fn with_membership(self, membership: Handle) -> (r: Self)
        ensures
            r == (AddiVortesConfig { membership: Some(membership), ..self }),
    {
        AddiVortesConfig { membership: Some(membership), ..self }
    }

    /// Replace the inclusion model; the last call wins.
    pub fn with_inclusion(self, inclusion: Inclusion) -> (r: Self)
        ensures
            r == (AddiVortesConfig { inclusion: Some(inclusion), ..self }),
    {
        AddiVortesConfig { inclusion: Some(inclusion), ..self }
    }

    /// Replace the cell model; the last call wins.
    pub fn with_cell_model(self, cell_model: Handle) -> (r: Self)
        ensures
            r == (AddiVortesConfig { cell_model: Some(cell_model), ..self }),
    {
        AddiVortesConfig { cell_model: Some(cell_model), ..self }
    }

    /// Replace the cell basis; the last call wins.
    pub fn with_cell_basis(self, basis: Handle) -> (r: Self)
        ensures
            r == (AddiVortesConfig { basis: Some(basis), ..self }),
    {
        AddiVortesConfig { basis: Some(basis), ..self }
    }

    /// Replace the augmentation step; the last call wins.
    pub fn with_response_model(self, response_model: Handle) -> (r: Self)
        ensures
            r == (AddiVortesConfig { response_model: Some(response_model), ..self }),
    {
        AddiVortesConfig { response_model: Some(response_model), ..self }
    }

    /// Replace the scale model; the last call wins.
    pub fn with_scale_model(self, scale_model: Handle) -> (r: Self)
        ensures
            r == (AddiVortesConfig { scale_model: Some(scale_model), ..self }),
    {
        AddiVortesConfig { scale_model: Some(scale_model), ..self }
    }

    /// Replace the count priors; the last call wins.
    pub fn with_count_priors(self, count_priors: Handle) -> (r: Self)
        ensures
            r == (AddiVortesConfig { count_priors: Some(count_priors), ..self }),
    {
        AddiVortesConfig { count_priors: Some(count_priors), ..self }
    }

    /// Replace the cell-value prior spread; the last call wins.
    pub fn with_cell_prior_sd(self, cell_prior_sd: Binary64) -> (r: Self)
        ensures
            r == (AddiVortesConfig { cell_prior_sd: Some(cell_prior_sd), ..self }),
    {
        AddiVortesConfig { cell_prior_sd: Some(cell_prior_sd), ..self }
    }

    /// The configured response family.
    pub fn response_family(&self) -> (r: ResponseFamily)
        ensures
            r == self.family,
    {
        self.family
    }

    /// Validation of every hyperparameter that needs no data. Never clamps; every
    /// failure names the field. That omega is below the number of features is
    /// checked at the fit boundary.
    pub fn validate(&self) -> (r: Result<()>)
        ensures
            match r {
                Ok(_) => self.failure() is None,
                Err(e) => self.failure() == Some(e@),
            },
    {
        if let Err(e) = require_at_least_one("m", self.m) {
            return Err(e);
        }
        if let Err(e) = require_positive_finite("nu", self.nu) {
            return Err(e);
        }
        if !self.q.is_in_open_unit() {
            let reason = Message::of("must be in the open interval (0, 1), got ").number(
                self.q,
                Style::Plain,
            );
            return Err(invalid_hyperparameter("q", reason));
        }
        if let Err(e) = require_positive_finite("k", self.k) {
            return Err(e);
        }
        if let Err(e) = require_positive_finite("sigma_c", self.sigma_c) {
            return Err(e);
        }
        if let Err(e) = require_positive_finite("omega", self.omega) {
            return Err(e);
        }
        if let Err(e) = require_positive_finite("lambda_c", self.lambda_c) {
            return Err(e);
        }
        if let Some(sd) = self.cell_prior_sd {
            if let Err(e) = require_positive_finite("cell_prior_sd", sd) {
                return Err(e);
            }
        }
        if let Err(e) = require_at_least_one("draws", self.n_draws) {
            return Err(e);
        }
        if let Err(e) = require_at_least_one("thinning", self.thinning) {
            return Err(e);
        }
        if let Some(model) = &self.inclusion {
            if let Some(w) = first_bad_weight(model) {
                let reason = Message::of("every weight must be finite and positive, got ").number(
                    w,
                    Style::Plain,
                );
                return Err(invalid_hyperparameter("inclusion_weights", reason));
            }
        }
        Ok(())
    }

    /// Value equality on every plain field, identity on every component.
    pub fn equals(&self, other: &Self) -> (r: bool)
        ensures
            r == self.same(*other),
    {
        let components: bool = arc_opt_eq(&self.assigner, &other.assigner) && match (
            &self.inclusion,
            &other.inclusion,
        ) {
            (Some(a), Some(b)) => a.handle == b.handle,
            (None, None) => true,
            _ => false,
        } && arc_opt_eq(&self.move_set, &other.move_set) && arc_opt_eq(
            &self.cell_model,
            &other.cell_model,
        ) && arc_opt_eq(&self.response_model, &other.response_model) && arc_opt_eq(
            &self.scale_model,
            &other.scale_model,
        ) && arc_opt_eq(&self.count_priors, &other.count_priors) && arc_opt_eq(
            &self.membership,
            &other.membership,
        ) && arc_opt_eq(&self.basis, &other.basis) && same_handles(&self.coords, &other.coords);
        components && self.seed == other.seed && self.m == other.m && self.nu.is_same(other.nu)
            && self.q.is_same(other.q) && self.k.is_same(other.k) && self.sigma_c.is_same(
            other.sigma_c,
        ) && self.omega.is_same(other.omega) && self.lambda_c.is_same(other.lambda_c)
            && self.burn_in == other.burn_in && self.n_draws == other.n_draws && self.thinning
            == other.thinning && same_metrics(&self.metrics, &other.metrics) && self.family.equals(
            &other.family,
        ) && match (self.cell_prior_sd, other.cell_prior_sd) {
            (Some(a), Some(b)) => a.is_same(b),
            (None, None) => true,
            _ => false,
        }
    }
}

/// The first weight that is not finite and positive.
fn first_bad_weight(model: &Inclusion) -> (r: Option<Binary64>)
    ensures
        match r {
            Some(w) => {
                let at = first(
                    model.weights@.len(),
                    |i: int| !model.weights@[i].positive_finite(),
                );
                at is Some && w == model.weights@[at->0]
            },
            None => first(
                model.weights@.len(),
                |i: int| !model.weights@[i].positive_finite(),
            ) is None,
        },
{
    let ghost p = |i: int| !model.weights@[i].positive_finite();
    for i in 0..model.weights.len()
        invariant
            p == (|i: int| !model.weights@[i].positive_finite()),
            forall|j: int| 0 <= j < i ==> !#[trigger] p(j),
    {
        if !model.weights[i].is_positive_finite() {
            proof {
                assert(p(i as int));
                lemma_first_is(model.weights@.len(), p, i as int);
            }
            return Some(model.weights[i]);
        }
        assert(!p(i as int));
    }
    proof {
        lemma_first_none(model.weights@.len(), p);
    }
    None
}

/// Element-wise equality of handles.
fn equal_handles(x: &Vec<Handle>, y: &Vec<Handle>) -> (r: bool)
    ensures
        r == (x@ == y@),
{
    if x.len() != y.len() {
        return false;
    }
    for i in 0..x.len()
        invariant
            x@.len() == y@.len(),
            forall|j: int| 0 <= j < i ==> x@[j] == y@[j],
    {
        if x[i] != y[i] {
            return false;
        }
    }
    assert(x@ =~= y@);
    true
}

/// Are the same laws chosen on both sides, or none on either?
fn same_handles(a: &Option<Vec<Handle>>, b: &Option<Vec<Handle>>) -> (r: bool)
    ensures
        r == match (*a, *b) {
            (Some(x), Some(y)) => x@ == y@,
            (None, None) => true,
            _ => false,
        },
{
    match (a, b) {
        (Some(x), Some(y)) => equal_handles(x, y),
        (None, None) => true,
        _ => false,
    }
}

/// Element-wise equality of metrics.
pub fn equal_metrics(x: &Vec<Metric>, y: &Vec<Metric>) -> (r: bool)
    ensures
        r == (x@ == y@),
{
    if x.len() != y.len() {
        return false;
    }
    for i in 0..x.len()
        invariant
            x@.len() == y@.len(),
            forall|j: int| 0 <= j < i ==> x@[j] == y@[j],
    {
        if x[i] != y[i] {
            return false;
        }
    }
    assert(x@ =~= y@);
    true
}

/// Are the same metrics chosen on both sides, or none on either?
pub fn same_metrics(a: &Option<Vec<Metric>>, b: &Option<Vec<Metric>>) -> (r: bool)
    ensures
        r == match (*a, *b) {
            (Some(x), Some(y)) => x@ == y@,
            (None, None) => true,
            _ => false,
        },
{
    match (a, b) {
        (Some(x), Some(y)) => equal_metrics(x, y),
        (None, None) => true,
        _ => false,
    }
}

impl Clone for AddiVortesConfig {
    fn clone(&self) -> (r: Self)
        ensures
            r.copy_of(*self),
    {
        let inclusion = match &self.inclusion {
            Some(model) => {
                let weights = model.weights.duplicate();
                assert(weights@ =~= model.weights@);
                Some(Inclusion { handle: model.handle, weights })
            },
            None => None,
        };
        AddiVortesConfig {
            seed: self.seed,
            m: self.m,
            nu: self.nu,
            q: self.q,
            k: self.k,
            sigma_c: self.sigma_c,
            omega: self.omega,
            lambda_c: self.lambda_c,
            burn_in: self.burn_in,
            n_draws: self.n_draws,
            thinning: self.thinning,
            metrics: self.metrics.duplicate(),
            move_set: self.move_set,
            coords: self.coords.duplicate(),
            assigner: self.assigner,
            membership: self.membership,
            family: self.family,
            inclusion,
            cell_model: self.cell_model,
            basis: self.basis,
            response_model: self.response_model,
            scale_model: self.scale_model,
            count_priors: self.count_priors,
            cell_prior_sd: self.cell_prior_sd,
        }
    }
}

impl PartialEq for AddiVortesConfig {
    fn eq(&self, other: &Self) -> (r: bool) {
        self.equals(other)
    }
}

impl vstd::std_specs::cmp::PartialEqSpecImpl for AddiVortesConfig {
    open spec fn obeys_eq_spec() -> bool {
        true
    }

    open spec fn eq_spec(&self, other: &Self) -> bool {
        self.same(*other)
    }
}

/// The next state of the seed generator.
pub open spec fn splitmix64_state(state: u64) -> u64 {
    state.wrapping_add(0x9e37_79b9_7f4a_7c15)
}

/// The output of the seed generator at a state: two rounds of xor-shift and
/// multiply, and a last xor-shift.
pub open spec fn splitmix64_output(state: u64) -> u64 {
    let a = (state ^ (state >> 30)).wrapping_mul(0xbf58_476d_1ce4_e5b9);
    let b = (a ^ (a >> 27)).wrapping_mul(0x94d0_49bb_1331_11eb);
    b ^ (b >> 31)
}

/// One step of the SplitMix64 generator: advance the state, then mix it.
pub fn splitmix64(state: &mut u64) -> (r: u64)
    ensures
        *final(state) == splitmix64_state(*old(state)),
        r == splitmix64_output(*final(state)),
{
    *state = (*state).wrapping_add(0x9e37_79b9_7f4a_7c15);
    let z: u64 = *state;
    let a: u64 = (z ^ (z >> 30)).wrapping_mul(0xbf58_476d_1ce4_e5b9);
    let b: u64 = (a ^ (a >> 27)).wrapping_mul(0x94d0_49bb_1331_11eb);
    b ^ (b >> 31)
}

/// The generator's state after `k` steps from `seed`.
pub open spec fn state_after(seed: u64, k: nat) -> u64
    decreases k,
{
    if k == 0 {
        seed
    } else {
        splitmix64_state(state_after(seed, (k - 1) as nat))
    }
}

/// The seed of chain `k` of a configuration with the given seed: chain 0 keeps the
/// seed itself, later chains take successive outputs of the generator.
pub open spec fn chain_seed(seed: u64, k: nat) -> u64 {
    if k == 0 {
        seed
    } else {
        splitmix64_output(state_after(seed, k))
    }
}

impl AddiVortesConfig {
    /// The seeds of `n_chains` independent chains of this configuration. How many
    /// chains are asked for does not change the seed of any of them.
    pub fn chain_seeds(&self, n_chains: usize) -> (r: Result<Vec<u64>>)
        ensures
            match r {
                Ok(seeds) => {
                    &&& n_chains >= 1
                    &&& seeds@.len() == n_chains
                    &&& forall|k: int|
                        0 <= k < n_chains ==> seeds@[k] == chain_seed(self.seed, k as nat)
                },
                Err(e) => n_chains == 0 && e@ == invalid("n_chains"@, at_least_one_reason()),
            },
    {
        if n_chains == 0 {
            return Err(invalid_hyperparameter("n_chains", Message::of("must be at least 1")));
        }
        let mut state: u64 = self.seed;
        let mut seeds: Vec<u64> = Vec::new();
        seeds.push(self.seed);
        for chain in 1..n_chains
            invariant
                state == state_after(self.seed, (chain - 1) as nat),
                seeds@.len() == chain,
                forall|k: int| 0 <= k < chain ==> seeds@[k] == chain_seed(self.seed, k as nat),
        {
            let seed: u64 = splitmix64(&mut state);
            seeds.push(seed);
        }
        Ok(seeds)
    }
}

/// The number of states of the seed generator.
pub open spec fn state_count() -> int {
    0x1_0000_0000_0000_0000
}

/// A factor with an inverse can be cancelled.
proof fn lemma_cancel_factor(x: int, y: int, c: int, inverse: int, m: int)
    requires
        m > 1,
        (c * inverse) % m == 1,
        (x * c) % m == (y * c) % m,
    ensures
        x % m == y % m,
{
    lemma_undo_factor(x, c, inverse, m);
    lemma_undo_factor(y, c, inverse, m);
}

/// Multiplying by the inverse of a factor undoes the factor.
proof fn lemma_undo_factor(x: int, c: int, inverse: int, m: int)
    requires
        m > 1,
        (c * inverse) % m == 1,
    ensures
        (((x * c) % m) * inverse) % m == x % m,
{
    lemma_mul_mod_noop_left(x * c, inverse, m);
    assert((x * c) * inverse == x * (c * inverse)) by (nonlinear_arith);
    lemma_mul_mod_noop_right(x, c * inverse, m);
}

/// Multiplying by an odd constant loses nothing.
proof fn lemma_multiply_is_injective(x: u64, y: u64, c: u64, inverse: u64)
    requires
        (c * inverse) % state_count() == 1,
        x.wrapping_mul(c) == y.wrapping_mul(c),
    ensures
        x == y,
{
    lemma_cancel_factor(x as int, y as int, c as int, inverse as int, state_count());
    lemma_small_mod(x as nat, state_count() as nat);
    lemma_small_mod(y as nat, state_count() as nat);
}

/// Two states with the same output are the same state.
pub proof fn outputs_tell_states_apart(x: u64, y: u64)
    requires
        splitmix64_output(x) == splitmix64_output(y),
    ensures
        x == y,
{
    let a1 = (x ^ (x >> 30)).wrapping_mul(0xbf58_476d_1ce4_e5b9);
    let a2 = (y ^ (y >> 30)).wrapping_mul(0xbf58_476d_1ce4_e5b9);
    let b1 = (a1 ^ (a1 >> 27)).wrapping_mul(0x94d0_49bb_1331_11eb);
    let b2 = (a2 ^ (a2 >> 27)).wrapping_mul(0x94d0_49bb_1331_11eb);
    assert(b1 == b2) by (bit_vector)
        requires
            b1 ^ (b1 >> 31) == b2 ^ (b2 >> 31),
    ;
    lemma_multiply_is_injective(
        a1 ^ (a1 >> 27),
        a2 ^ (a2 >> 27),
        0x94d0_49bb_1331_11eb,
        0x3196_42b2_d24d_8ec3,
    );
    assert(a1 == a2) by (bit_vector)
        requires
            a1 ^ (a1 >> 27) == a2 ^ (a2 >> 27),
    ;
    lemma_multiply_is_injective(
        x ^ (x >> 30),
        y ^ (y >> 30),
        0xbf58_476d_1ce4_e5b9,
        0x96de_1b17_3f11_9089,
    );
    assert(x == y) by (bit_vector)
        requires
            x ^ (x >> 30) == y ^ (y >> 30),
    ;
}

/// The state moves by a constant at every step.
proof fn lemma_state_after(seed: u64, k: nat)
    ensures
        state_after(seed, k) == (k * 0x9e37_79b9_7f4a_7c15 + seed) % state_count(),
    decreases k,
{
    let m = state_count();
    if k == 0 {
        lemma_small_mod(seed as nat, m as nat);
    } else {
        let before = state_after(seed, (k - 1) as nat);
        lemma_state_after(seed, (k - 1) as nat);
        let sum = (k - 1) * 0x9e37_79b9_7f4a_7c15 + seed;
        lemma_add_mod_noop(sum, 0x9e37_79b9_7f4a_7c15, m);
        lemma_small_mod(0x9e37_79b9_7f4a_7c15, m as nat);
        let next = before + 0x9e37_79b9_7f4a_7c15;
        if next >= m {
            lemma_mod_multiples_vanish(1, next - m, m);
            lemma_small_mod((next - m) as nat, m as nat);
        } else {
            lemma_small_mod(next as nat, m as nat);
        }
    }
}

/// The chains after the first one have seeds of their own: no two of them share one.
pub proof fn derived_seeds_are_distinct(seed: u64, a: nat, b: nat)
    requires
        1 <= a < state_count(),
        1 <= b < state_count(),
        a != b,
    ensures
        chain_seed(seed, a) != chain_seed(seed, b),
{
    if chain_seed(seed, a) == chain_seed(seed, b) {
        let g: int = 0x9e37_79b9_7f4a_7c15;
        let m = state_count();
        outputs_tell_states_apart(state_after(seed, a), state_after(seed, b));
        lemma_state_after(seed, a);
        lemma_state_after(seed, b);
        lemma_mod_equivalence(a * g + seed, b * g + seed, m);
        lemma_mod_equivalence(a * g, b * g, m);
        lemma_cancel_factor(a as int, b as int, g, 0xf1de_83e1_9937_733d, m);
        lemma_small_mod(a, m as nat);
        lemma_small_mod(b, m as nat);
    }
}

/// A configuration whose numbers are not NaN is equal to itself.
pub proof fn equality_is_reflexive_without_nan(a: AddiVortesConfig)
    requires
        !a.nu.nan(),
        !a.q.nan(),
        !a.k.nan(),
        !a.sigma_c.nan(),
        !a.omega.nan(),
        !a.lambda_c.nan(),
        a.cell_prior_sd matches Some(sd) ==> !sd.nan(),
        a.family matches ResponseFamily::RobustT { df } ==> !df.nan(),
    ensures
        a.same(a),
{
}

/// Equality of configurations is symmetric.
pub proof fn equality_is_symmetric(a: AddiVortesConfig, b: AddiVortesConfig)
    ensures
        a.same(b) == b.same(a),
{
}

/// The defaults are valid.
pub proof fn defaults_are_valid(seed: u64)
    ensures
        default_config(seed).failure() is None,
{
}

/// The last setting wins: setting something twice, first as in `x` and then as in `y`, is
/// setting it once as in `y`, whatever it is.
pub proof fn last_setting_wins(c: AddiVortesConfig, x: AddiVortesConfig, y: AddiVortesConfig)
    ensures
        (AddiVortesConfig { seed: y.seed, ..(AddiVortesConfig { seed: x.seed, ..c }) }) == (
        AddiVortesConfig { seed: y.seed, ..c }),
        (AddiVortesConfig { m: y.m, ..(AddiVortesConfig { m: x.m, ..c }) }) == (
        AddiVortesConfig { m: y.m, ..c }),
        (AddiVortesConfig { nu: y.nu, ..(AddiVortesConfig { nu: x.nu, ..c }) }) == (
        AddiVortesConfig { nu: y.nu, ..c }),
        (AddiVortesConfig { q: y.q, ..(AddiVortesConfig { q: x.q, ..c }) }) == (
        AddiVortesConfig { q: y.q, ..c }),
        (AddiVortesConfig { k: y.k, ..(AddiVortesConfig { k: x.k, ..c }) }) == (
        AddiVortesConfig { k: y.k, ..c }),
        (AddiVortesConfig { sigma_c: y.sigma_c, ..(AddiVortesConfig { sigma_c: x.sigma_c, ..c }) }) == (
        AddiVortesConfig { sigma_c: y.sigma_c, ..c }),
        (AddiVortesConfig { omega: y.omega, ..(AddiVortesConfig { omega: x.omega, ..c }) }) == (
        AddiVortesConfig { omega: y.omega, ..c }),
        (AddiVortesConfig { lambda_c: y.lambda_c, ..(AddiVortesConfig { lambda_c: x.lambda_c, ..c }) }) == (
        AddiVortesConfig { lambda_c: y.lambda_c, ..c }),
        (AddiVortesConfig { burn_in: y.burn_in, ..(AddiVortesConfig { burn_in: x.burn_in, ..c }) }) == (
        AddiVortesConfig { burn_in: y.burn_in, ..c }),
        (AddiVortesConfig { n_draws: y.n_draws, ..(AddiVortesConfig { n_draws: x.n_draws, ..c }) }) == (
        AddiVortesConfig { n_draws: y.n_draws, ..c }),
        (AddiVortesConfig { thinning: y.thinning, ..(AddiVortesConfig { thinning: x.thinning, ..c }) }) == (
        AddiVortesConfig { thinning: y.thinning, ..c }),
        (AddiVortesConfig { metrics: y.metrics, ..(AddiVortesConfig { metrics: x.metrics, ..c }) }) == (
        AddiVortesConfig { metrics: y.metrics, ..c }),
        (AddiVortesConfig { move_set: y.move_set, ..(AddiVortesConfig { move_set: x.move_set, ..c }) }) == (
        AddiVortesConfig { move_set: y.move_set, ..c }),
        (AddiVortesConfig { coords: y.coords, ..(AddiVortesConfig { coords: x.coords, ..c }) }) == (
        AddiVortesConfig { coords: y.coords, ..c }),
        (AddiVortesConfig { assigner: y.assigner, ..(AddiVortesConfig { assigner: x.assigner, ..c }) }) == (
        AddiVortesConfig { assigner: y.assigner, ..c }),
        (AddiVortesConfig { membership: y.membership, ..(AddiVortesConfig { membership: x.membership, ..c }) }) == (
        AddiVortesConfig { membership: y.membership, ..c }),
        (AddiVortesConfig { family: y.family, ..(AddiVortesConfig { family: x.family, ..c }) }) == (
        AddiVortesConfig { family: y.family, ..c }),
        (AddiVortesConfig { inclusion: y.inclusion, ..(AddiVortesConfig { inclusion: x.inclusion, ..c }) }) == (
        AddiVortesConfig { inclusion: y.inclusion, ..c }),
        (AddiVortesConfig { cell_model: y.cell_model, ..(AddiVortesConfig { cell_model: x.cell_model, ..c }) }) == (
        AddiVortesConfig { cell_model: y.cell_model, ..c }),
        (AddiVortesConfig { basis: y.basis, ..(AddiVortesConfig { basis: x.basis, ..c }) }) == (
        AddiVortesConfig { basis: y.basis, ..c }),
        (AddiVortesConfig { response_model: y.response_model, ..(AddiVortesConfig { response_model: x.response_model, ..c }) }) == (
        AddiVortesConfig { response_model: y.response_model, ..c }),
        (AddiVortesConfig { scale_model: y.scale_model, ..(AddiVortesConfig { scale_model: x.scale_model, ..c }) }) == (
        AddiVortesConfig { scale_model: y.scale_model, ..c }),
        (AddiVortesConfig { count_priors: y.count_priors, ..(AddiVortesConfig { count_priors: x.count_priors, ..c }) }) == (
        AddiVortesConfig { count_priors: y.count_priors, ..c }),
        (AddiVortesConfig { cell_prior_sd: y.cell_prior_sd, ..(AddiVortesConfig { cell_prior_sd: x.cell_prior_sd, ..c }) }) == (
        AddiVortesConfig { cell_prior_sd: y.cell_prior_sd, ..c }),
{
}

/// The settings that a fit can run with: at least one tessellation, draw and thinning
/// step, a calibration quantile strictly between zero and one, and every other number
/// finite and above zero.
pub open spec fn accepted_settings(c: AddiVortesConfig) -> bool {
    &&& c.m > 0
    &&& c.n_draws > 0
    &&& c.thinning > 0
    &&& zero().below(c.q) && c.q.below(one())
    &&& c.nu.finite() && zero().below(c.nu)
    &&& c.k.finite() && zero().below(c.k)
    &&& c.sigma_c.finite() && zero().below(c.sigma_c)
    &&& c.omega.finite() && zero().below(c.omega)
    &&& c.lambda_c.finite() && zero().below(c.lambda_c)
    &&& c.cell_prior_sd matches Some(sd) ==> sd.finite() && zero().below(sd)
    &&& c.inclusion matches Some(model) ==> forall|i: int|
        0 <= i < model.weights@.len() ==> (#[trigger] model.weights@[i]).finite() && zero().below(
            model.weights@[i],
        )
}

/// The check of a configuration.
pub proof fn lemma_accepted_settings(c: AddiVortesConfig)
    ensures
        c.failure() is None <==> accepted_settings(c),
{
    if c.inclusion is Some {
        let weights = c.inclusion->0.weights;
        let bad = |i: int| !weights@[i].positive_finite();
        lemma_first_holds(weights@.len(), bad);
        if first(weights@.len(), bad) is Some {
            let i = first(weights@.len(), bad)->0;
            assert(bad(i));
            assert(!(weights@[i].finite() && zero().below(weights@[i])));
        } else {
            assert forall|i: int| 0 <= i < weights@.len() implies (#[trigger] weights@[i]).finite()
                && zero().below(weights@[i]) by {
                assert(!bad(i));
            }
        }
    }
}

/// A configuration is valid exactly where a fit can run with it; the number of discarded
/// sweeps and the seed are free.
pub proof fn valid_exactly_when_settings_are_accepted(c: AddiVortesConfig, r: Result<()>)
    requires
        call_ensures(AddiVortesConfig::validate, (&c,), r),
    ensures
        r is Ok <==> accepted_settings(c),
        r is Err ==> r->Err_0@ is InvalidHyperparameter,
{
    lemma_accepted_settings(c);
}

/// A setter replaces the setting that it names and no other: a configuration that was
/// set twice reads what each of the two setters was given.
pub proof fn setters_do_not_interfere(
    c: AddiVortesConfig,
    m: usize,
    burn_in: usize,
    draws: usize,
    thinning: usize,
    seed: u64,
    steps: Seq<AddiVortesConfig>,
)
    requires
        steps.len() == 5,
        call_ensures(AddiVortesConfig::with_m, (c, m), steps[0]),
        call_ensures(AddiVortesConfig::with_burn_in, (steps[0], burn_in), steps[1]),
        call_ensures(AddiVortesConfig::with_draws, (steps[1], draws), steps[2]),
        call_ensures(AddiVortesConfig::with_thinning, (steps[2], thinning), steps[3]),
        call_ensures(AddiVortesConfig::with_seed, (steps[3], seed), steps[4]),
    ensures
        steps[4].m == m,
        steps[4].burn_in == burn_in,
        steps[4].n_draws == draws,
        steps[4].thinning == thinning,
        steps[4].seed == seed,
        steps[4] == (AddiVortesConfig {
            m: steps[4].m,
            burn_in: steps[4].burn_in,
            n_draws: steps[4].n_draws,
            thinning: steps[4].thinning,
            seed: steps[4].seed,
            ..c
        }),
{
}

/// The same of the setters of numbers.
pub proof fn number_setters_do_not_interfere(
    c: AddiVortesConfig,
    v: Seq<Binary64>,
    steps: Seq<AddiVortesConfig>,
)
    requires
        v.len() == 7,
        steps.len() == 7,
        call_ensures(AddiVortesConfig::with_nu, (c, v[0]), steps[0]),
        call_ensures(AddiVortesConfig::with_q, (steps[0], v[1]), steps[1]),
        call_ensures(AddiVortesConfig::with_k, (steps[1], v[2]), steps[2]),
        call_ensures(AddiVortesConfig::with_sigma_c, (steps[2], v[3]), steps[3]),
        call_ensures(AddiVortesConfig::with_omega, (steps[3], v[4]), steps[4]),
        call_ensures(AddiVortesConfig::with_lambda_c, (steps[4], v[5]), steps[5]),
        call_ensures(AddiVortesConfig::with_cell_prior_sd, (steps[5], v[6]), steps[6]),
    ensures
        steps[6].nu == v[0],
        steps[6].q == v[1],
        steps[6].k == v[2],
        steps[6].sigma_c == v[3],
        steps[6].omega == v[4],
        steps[6].lambda_c == v[5],
        steps[6].cell_prior_sd == Some(v[6]),
        steps[6] == (AddiVortesConfig {
            nu: steps[6].nu,
            q: steps[6].q,
            k: steps[6].k,
            sigma_c: steps[6].sigma_c,
            omega: steps[6].omega,
            lambda_c: steps[6].lambda_c,
            cell_prior_sd: steps[6].cell_prior_sd,
            ..c
        }),
{
}

/// The same of the setters of components.
pub proof fn component_setters_do_not_interfere(
    c: AddiVortesConfig,
    h: Seq<Handle>,
    metrics: Vec<Metric>,
    coords: Vec<Handle>,
    family: ResponseFamily,
    inclusion: Inclusion,
    steps: Seq<AddiVortesConfig>,
)
    requires
        h.len() == 8,
        steps.len() == 12,
        call_ensures(AddiVortesConfig::with_move_set, (c, h[0]), steps[0]),
        call_ensures(AddiVortesConfig::with_distance, (steps[0], h[1]), steps[1]),
        call_ensures(AddiVortesConfig::with_membership, (steps[1], h[2]), steps[2]),
        call_ensures(AddiVortesConfig::with_cell_model, (steps[2], h[3]), steps[3]),
        call_ensures(AddiVortesConfig::with_cell_basis, (steps[3], h[4]), steps[4]),
        call_ensures(AddiVortesConfig::with_response_model, (steps[4], h[5]), steps[5]),
        call_ensures(AddiVortesConfig::with_scale_model, (steps[5], h[6]), steps[6]),
        call_ensures(AddiVortesConfig::with_count_priors, (steps[6], h[7]), steps[7]),
        call_ensures(AddiVortesConfig::with_metrics, (steps[7], metrics), steps[8]),
        call_ensures(AddiVortesConfig::with_coords, (steps[8], coords), steps[9]),
        call_ensures(AddiVortesConfig::with_response_family, (steps[9], family), steps[10]),
        call_ensures(AddiVortesConfig::with_inclusion, (steps[10], inclusion), steps[11]),
    ensures
        steps[11].move_set == Some(h[0]),
        steps[11].assigner == Some(h[1]),
        steps[11].membership == Some(h[2]),
        steps[11].cell_model == Some(h[3]),
        steps[11].basis == Some(h[4]),
        steps[11].response_model == Some(h[5]),
        steps[11].scale_model == Some(h[6]),
        steps[11].count_priors == Some(h[7]),
        steps[11].metrics == Some(metrics),
        steps[11].coords == Some(coords),
        steps[11].family == family,
        steps[11].inclusion == Some(inclusion),
        steps[11].seed == c.seed && steps[11].m == c.m && steps[11].burn_in == c.burn_in,
        steps[11].n_draws == c.n_draws && steps[11].thinning == c.thinning,
        steps[11].cell_prior_sd == c.cell_prior_sd,
{
}

/// A geometry and an assigner are one component under two names.
pub proof fn distance_is_an_assigner(
    c: AddiVortesConfig,
    handle: Handle,
    a: AddiVortesConfig,
    b: AddiVortesConfig,
)
    requires
        call_ensures(AddiVortesConfig::with_distance, (c, handle), a),
        call_ensures(AddiVortesConfig::with_assigner, (c, handle), b),
    ensures
        a == b,
        a.assigner == Some(handle),
{
}

/// The first chain runs with the seed of the configuration, no two derived seeds of one
/// configuration are equal, and asking for more chains changes none of those that were
/// there before.
pub proof fn chains_have_seeds_of_their_own(
    c: AddiVortesConfig,
    n: usize,
    more: usize,
    r: Result<Vec<u64>>,
    s: Vec<u64>,
    a: int,
    b: int,
)
    requires
        call_ensures(AddiVortesConfig::chain_seeds, (&c, n), r),
        call_ensures(AddiVortesConfig::chain_seeds, (&c, more), Ok(s)),
        n <= more,
    ensures
        r is Ok <==> n > 0,
        r matches Ok(seeds) ==> {
            &&& seeds@.len() == n
            &&& seeds@[0] == c.seed
            &&& forall|k: int| 0 <= k < n ==> #[trigger] seeds@[k] == s@[k]
            &&& 1 <= a < b < n ==> seeds@[a] != seeds@[b]
        },
{
    if 1 <= a < b < n {
        derived_seeds_are_distinct(c.seed, a as nat, b as nat);
    }
    if r is Ok {
        assert(r->Ok_0@[0] == chain_seed(c.seed, 0));
        assert forall|k: int| 0 <= k < n implies #[trigger] r->Ok_0@[k] == s@[k] by {
            assert(r->Ok_0@[k] == chain_seed(c.seed, k as nat));
            assert(s@[k] == chain_seed(c.seed, k as nat));
        }
    }
}

/// The seed of chain `k` is what the generator gives as its `k`-th number when it starts
/// from the seed of the configuration; each number moves the state on by the same step.
pub proof fn derived_seeds_come_from_the_generator(
    c: AddiVortesConfig,
    n: usize,
    seeds: Vec<u64>,
    k: int,
    state: &mut u64,
    out: u64,
)
    requires
        call_ensures(AddiVortesConfig::chain_seeds, (&c, n), Ok(seeds)),
        1 <= k < n,
        *old(state) == ((k - 1) * 0x9e37_79b9_7f4a_7c15 + c.seed) % 0x1_0000_0000_0000_0000,
        call_ensures(splitmix64, (state,), out),
    ensures
        seeds@[k] == out,
        *final(state) == (k * 0x9e37_79b9_7f4a_7c15 + c.seed) % 0x1_0000_0000_0000_0000,
{
    lemma_state_after(c.seed, (k - 1) as nat);
    lemma_state_after(c.seed, k as nat);
    assert(seeds@[k] == chain_seed(c.seed, k as nat));
    assert(*old(state) == state_after(c.seed, (k - 1) as nat));
}

/// Two configurations are equal exactly where every setting of theirs is: counts and
/// components as they are, numbers by their value.
pub proof fn equal_exactly_when_every_setting_is(a: AddiVortesConfig, b: AddiVortesConfig, r: bool)
    requires
        call_ensures(AddiVortesConfig::equals, (&a, &b), r),
    ensures
        r ==> a.seed == b.seed && a.m == b.m && a.burn_in == b.burn_in,
        r ==> a.n_draws == b.n_draws && a.thinning == b.thinning,
        r ==> a.nu.same(b.nu) && a.q.same(b.q) && a.k.same(b.k),
        r ==> a.sigma_c.same(b.sigma_c) && a.omega.same(b.omega) && a.lambda_c.same(b.lambda_c),
        r ==> (a.metrics is Some <==> b.metrics is Some),
        r && a.metrics is Some ==> a.metrics->0@ == b.metrics->0@,
        r ==> (a.coords is Some <==> b.coords is Some),
        r && a.coords is Some ==> a.coords->0@ == b.coords->0@,
        r ==> a.move_set == b.move_set && a.assigner == b.assigner,
        r ==> a.membership == b.membership && a.cell_model == b.cell_model,
        r ==> a.basis == b.basis && a.response_model == b.response_model,
        r ==> a.scale_model == b.scale_model && a.count_priors == b.count_priors,
        r ==> (a.inclusion is Some <==> b.inclusion is Some),
        r && a.inclusion is Some ==> a.inclusion->0.handle == b.inclusion->0.handle,
        r ==> (a.cell_prior_sd is Some <==> b.cell_prior_sd is Some),
        r && a.cell_prior_sd is Some ==> a.cell_prior_sd->0.same(b.cell_prior_sd->0),
        r ==> (a.family is Gaussian <==> b.family is Gaussian),
        r ==> (a.family is BinaryProbit <==> b.family is BinaryProbit),
        r && a.family is RobustT ==> (a.family->df).same(b.family->df),
        a == b && accepted_settings(a) && (a.family matches ResponseFamily::RobustT { df }
            ==> !df.nan()) ==> r,
{
}

/// The documented defaults, whatever the seed: 200 tessellations, 1000 draws after 200 of
/// burn-in, every one kept, six degrees of freedom at the 0.85 quantile, k and omega of
/// three, a centre rate of five, a centre spread of 0.8, a Gaussian response, and no
/// component chosen.
pub proof fn new_configuration_holds_the_defaults(seed: u64, c: AddiVortesConfig)
    requires
        call_ensures(AddiVortesConfig::new, (seed,), c),
    ensures
        c.seed == seed,
        c.m == 200 && c.burn_in == 200 && c.n_draws == 1000 && c.thinning == 1,
        c.nu.bits == 0x4018_0000_0000_0000,
        c.q.bits == 0x3feb_3333_3333_3333,
        c.k.bits == 0x4008_0000_0000_0000,
        c.omega.bits == 0x4008_0000_0000_0000,
        c.lambda_c.bits == 0x4014_0000_0000_0000,
        c.sigma_c.bits == 0x3fe9_9999_9999_999a,
        c.family is Gaussian,
        c.metrics is None && c.move_set is None && c.coords is None && c.assigner is None,
        c.membership is None && c.inclusion is None && c.cell_model is None && c.basis is None,
        c.response_model is None && c.scale_model is None && c.count_priors is None,
        c.cell_prior_sd is None,
{
}

/// Lists of metrics are equal exactly where they name the same metric at every place.
pub proof fn metrics_equal_place_by_place(
    a: Option<Vec<Metric>>,
    b: Option<Vec<Metric>>,
    r: bool,
)
    requires
        call_ensures(same_metrics, (&a, &b), r),
    ensures
        r <==> {
            &&& a is Some <==> b is Some
            &&& a is Some ==> (a->0)@.len() == (b->0)@.len() && forall|i: int|
                0 <= i < (a->0)@.len() ==> #[trigger] (a->0)@[i] == (b->0)@[i]
        },
{
    if a is Some && b is Some {
        if (a->0)@.len() == (b->0)@.len() && forall|i: int|
            0 <= i < (a->0)@.len() ==> #[trigger] (a->0)@[i] == (b->0)@[i] {
            assert((a->0)@ =~= (b->0)@);
        }
    }
}

/// A refusal names the first setting at fault, in the order in which they are documented;
/// where no number is at fault it is the inclusion weights.
pub proof fn refusals_name_the_setting_at_fault(c: AddiVortesConfig, r: Result<()>)
    requires
        call_ensures(AddiVortesConfig::validate, (&c,), r),
        r is Err,
    ensures
        r->Err_0@ is InvalidHyperparameter,
        r->Err_0@->InvalidHyperparameter_name == (if c.m == 0 {
            "m"@
        } else if !(c.nu.finite() && zero().below(c.nu)) {
            "nu"@
        } else if !(zero().below(c.q) && c.q.below(one())) {
            "q"@
        } else if !(c.k.finite() && zero().below(c.k)) {
            "k"@
        } else if !(c.sigma_c.finite() && zero().below(c.sigma_c)) {
            "sigma_c"@
        } else if !(c.omega.finite() && zero().below(c.omega)) {
            "omega"@
        } else if !(c.lambda_c.finite() && zero().below(c.lambda_c)) {
            "lambda_c"@
        } else if c.cell_prior_sd is Some && !((c.cell_prior_sd->0).finite() && zero().below(
            c.cell_prior_sd->0,
        )) {
            "cell_prior_sd"@
        } else if c.n_draws == 0 {
            "draws"@
        } else if c.thinning == 0 {
            "thinning"@
        } else {
            "inclusion_weights"@
        }),
{
    lemma_accepted_settings(c);
}

} // verus!
