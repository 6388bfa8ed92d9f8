//! The extension points that the conformance checks exercise: traits for callers to
//! implement, and the plain values that pass through them.
//!
//! Nothing is promised of what an implementation returns but the shapes that a few
//! methods state, so every check is proved for whatever comes back.

use crate::binary64::Binary64;
use crate::engine::data::Data;
use crate::engine::error::Result;
use crate::engine::tessellation::Tessellation;
use vstd::prelude::*;

verus! {

/// What a structural change left untouched, as a move declares it.
#[derive(Clone, Copy, Debug, PartialEq, Eq, Structural)]
pub enum AssignmentDelta {
    /// Nothing is claimed: every cell is rescanned.
    FullRecompute,
    /// One centre was appended at the highest index.
    CentreAdded,
    /// The centre at `index` was removed; those above it moved down by one.
    CentreRemoved { index: usize },
    /// The centre at `index` is the only one whose coordinates changed.
    CentreMoved { index: usize },
}

/// A cell per observation, with the winning keys where the assigner reports them.
#[derive(Debug)]
pub struct AssignmentCache {
    /// The cell of each observation.
    pub assignment: Vec<usize>,
    /// The winning key of each observation, or nothing.
    pub best_keys: Vec<Binary64>,
}

impl AssignmentCache {
    /// A cache of the given cells and keys.
    pub fn new(assignment: Vec<usize>, best_keys: Vec<Binary64>) -> (r: Self)
        ensures
            r == (AssignmentCache { assignment, best_keys }),
    {
        AssignmentCache { assignment, best_keys }
    }
}

/// The model state that moves and count priors read.
#[derive(Debug)]
pub struct ModelCtx {
    /// Error variance.
    pub sigma_sq: Binary64,
    /// Parameter of the dimension-count prior.
    pub omega: Binary64,
    /// Parameter of the centre-count prior.
    pub lambda_c: Binary64,
    /// Variance of the cell-value prior.
    pub sigma_mu_sq: Binary64,
    /// Number of encoded columns.
    pub p: usize,
    /// Inclusion weight of each encoded column.
    pub weights: Vec<Binary64>,
}

/// What a move proposes, with the change that it declares.
#[derive(Debug)]
pub struct Proposal {
    /// The proposed tessellation.
    pub tessellation: Tessellation,
    /// The declared change.
    pub delta: AssignmentDelta,
}

impl Proposal {
    /// A proposal that claims nothing: every cell is rescanned.
    pub fn new(tessellation: Tessellation) -> (r: Self)
        ensures
            r == (Proposal { tessellation, delta: AssignmentDelta::FullRecompute }),
    {
        Proposal { tessellation, delta: AssignmentDelta::FullRecompute }
    }

    /// A proposal with a declared change.
    pub fn with_delta(tessellation: Tessellation, delta: AssignmentDelta) -> (r: Self)
        ensures
            r == (Proposal { tessellation, delta }),
    {
        Proposal { tessellation, delta }
    }
}

/// A structural move. `R` is the source of randomness.
pub trait ProposalMove<R> {
    /// Can the move be made from this state?
    fn is_valid(&self, state: &Tessellation, ctx: &ModelCtx) -> bool;

    /// Propose a tessellation.
    fn propose(&self, state: &Tessellation, ctx: &ModelCtx, rng: &mut R) -> Proposal;

    /// The log-ratio of the prior and of the proposal densities, from one state to
    /// another.
    fn log_structure_ratio(&self, from: &Tessellation, to: &Tessellation, ctx: &ModelCtx) ->
        Binary64;
}

/// The law of a centre's coordinate. `R` is the source of randomness.
pub trait CoordinateDistribution<R> {
    /// Draw a coordinate.
    fn sample(&self, rng: &mut R) -> Binary64;

    /// The logarithm of the density at a coordinate.
    fn log_density(&self, value: Binary64) -> Binary64;
}

/// A comparison key between an observation and a centre over the active
/// dimensions; smaller is nearer.
pub trait PairwiseDistance {
    /// The key of the row against a row that holds the centre's coordinates in the
    /// active dimensions.
    fn distance(&self, x_row: &[Binary64], centre_row: &[Binary64], dims: &[usize]) -> Binary64;

    /// Is the key always the sum of squared active differences?
    fn all_euclidean(&self) -> bool;
}

/// The assignment of observations to cells.
pub trait CellAssigner {
    /// The cell of every observation.
    fn assign_cells(&self, x: &Data, tessellation: &Tessellation) -> Result<Vec<usize>>;

    /// The cells of the new tessellation, given those of the one before it and what
    /// the change left untouched.
    fn reassign(
        &self,
        x: &Data,
        new: &Tessellation,
        delta: AssignmentDelta,
        previous: &AssignmentCache,
    ) -> Result<AssignmentCache>;
}

/// The per-observation basis row of a linear cell payload.
pub trait CellBasis {
    /// Width of the basis row.
    fn q(&self) -> usize;

    /// Write the basis row of a design row into `out`, which keeps its length as
    /// every slice does.
    fn row(&self, x_row: &[Binary64], out: &mut [Binary64])
        ensures
            final(out)@.len() == old(out)@.len(),
    ;

    /// The largest design column that is read, or `None` where none is.
    fn max_column(&self) -> Option<usize>;
}

/// The membership weights of one observation over all cells.
pub trait MembershipKernel {
    /// Write the weight of each cell, given its key, into `weights`, which keeps its
    /// length as every slice does.
    fn weights(&self, keys: &[Binary64], weights: &mut [Binary64])
        ensures
            final(weights)@.len() == old(weights)@.len(),
    ;
}

/// The inclusion weights of the covariates, updated from their usage. `U` is what the
/// usage is given as, `R` the source of randomness.
pub trait InclusionModel<U, R> {
    /// What an update that fails returns.
    type Error;

    /// The weight of each covariate.
    fn weights(&self) -> &[Binary64];

    /// Update the weights.
    fn update(&mut self, usage: &U, rng: &mut R) -> core::result::Result<(), Self::Error>;
}

/// The error variance, updated from the residuals. `C` is the state that an update
/// reads, `R` the source of randomness.
pub trait ScaleModel<C, R> {
    /// What an update that fails returns.
    type Error;

    /// Update the variance.
    fn update(&mut self, ctx: &C, rng: &mut R) -> core::result::Result<(), Self::Error>;

    /// The variance.
    fn sigma_sq(&self) -> Binary64;

    /// The precision of each observation, where the model has any.
    fn precisions(&self) -> Option<&[Binary64]>;
}

/// The augmentation of a response. `R` is the source of randomness.
pub trait ResponseModel<R> {
    /// What an augmentation that fails returns.
    type Error;

    /// Write the working response and the weight of each observation into buffers,
    /// which keep their lengths as every slice does.
    fn augment(
        &mut self,
        y: &[Binary64],
        fit: &[Binary64],
        sigma_sq: Binary64,
        rng: &mut R,
        working: &mut [Binary64],
        weights: &mut [Binary64],
    ) -> (r: core::result::Result<(), Self::Error>)
        ensures
            final(working)@.len() == old(working)@.len(),
            final(weights)@.len() == old(weights)@.len(),
    ;
}

/// The sufficient statistic of one cell; a default one has seen nothing.
pub trait CellStats: Default {
    /// See one more observation.
    fn record(&mut self, value: Binary64, weight: Binary64);

    /// See one more observation with its basis row.
    fn record_basis(&mut self, row: &[Binary64], value: Binary64, weight: Binary64);

    /// See everything that the other one has seen.
    fn merge(&mut self, other: &Self);

    /// Forget everything that the other one has seen.
    fn remove(&mut self, other: &Self);
}

/// A conjugate model of the cell values.
pub trait CellModel {
    /// The sufficient statistic of one cell.
    type Stats: CellStats;

    /// The log marginal likelihood of the cells, up to what no partition changes.
    fn log_marginal_terms(&self, stats: &[Self::Stats], sigma_sq: Binary64) -> Result<Binary64>;
}

/// The draw of the cell values of a conjugate model. `R` is the source of randomness.
pub trait CellDraws<R>: CellModel {
    /// Draw the value of every cell from its posterior, which is the prior for a
    /// statistic that has seen nothing.
    fn draw_cell_values(&self, stats: &[Self::Stats], sigma_sq: Binary64, rng: &mut R) -> (r:
        Result<Vec<Binary64>>)
        ensures
            r matches Ok(values) ==> values@.len() == stats@.len(),
    ;
}

/// The draw of the coefficients of a conjugate model whose cells hold several values.
/// `R` is the source of randomness.
pub trait PayloadDraws<R>: CellModel {
    /// Draw the coefficients of every cell, one cell after the other.
    fn draw_cell_payload(&self, stats: &[Self::Stats], sigma_sq: Binary64, rng: &mut R) -> Result<
        Vec<Binary64>,
    >;
}

/// The prior log-ratios of adjacent cell and dimension counts.
pub trait CountPriors {
    /// The log-ratio of `b` cells to one fewer.
    fn log_cell_count_ratio(&self, b: usize, ctx: &ModelCtx) -> Binary64;

    /// The log-ratio of `d` dimensions to one fewer.
    fn log_dim_count_ratio(&self, d: usize, ctx: &ModelCtx) -> Binary64;
}

/// Caches and proposals hold what they were made of; a proposal that declares nothing has
/// every cell rescanned.
pub proof fn caches_and_proposals_hold_their_parts(
    assignment: Vec<usize>,
    best_keys: Vec<Binary64>,
    cache: AssignmentCache,
    tessellation: Tessellation,
    delta: AssignmentDelta,
    plain: Proposal,
    declared: Proposal,
)
    requires
        call_ensures(AssignmentCache::new, (assignment, best_keys), cache),
        call_ensures(Proposal::new, (tessellation,), plain),
        call_ensures(Proposal::with_delta, (tessellation, delta), declared),
    ensures
        cache.assignment == assignment && cache.best_keys == best_keys,
        plain.tessellation == tessellation && plain.delta is FullRecompute,
        declared.tessellation == tessellation && declared.delta == delta,
{
}

} // verus!
