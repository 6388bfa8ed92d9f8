//! A data-only description of a configuration: the bridge between a payload of
//! plain values and an [`AddiVortesConfig`] with its chosen shelf components.
//!
//! Every field left unset is not applied, so the library's own default takes
//! effect. Settings that are sized by the data are resolved against its column
//! count.

use crate::binary64::{one, Binary64};
use crate::engine::column::CoordLaw;
use crate::engine::config::{default_config, AddiVortesConfig};
use crate::engine::data::{Data, Metric};
use crate::engine::error::{
    at_least_one_reason, invalid, invalid_hyperparameter, AddiVortesError, Failure, Result,
};
use crate::engine::model::ResponseFamily;
use crate::message::{
    decimal, quote, quoted, same_words, string_of, text, Message, Style, Text,
};
use crate::search::{first, lemma_first_holds, lemma_first_is, lemma_first_none};
use vstd::prelude::*;

pub mod equality;
pub mod resolution;

verus! {

/// A description of a configuration: the mandatory seed plus every selectable
/// setting; an unset one takes the library's default.
#[derive(Debug)]
pub struct ConfigSpec {
    /// Chain seed.
    pub seed: u64,
    /// Ensemble size.
    pub m: Option<usize>,
    /// Sweeps discarded by a fit.
    pub burn_in: Option<usize>,
    /// Posterior draws kept by a fit.
    pub draws: Option<usize>,
    /// Thinning interval of a fit.
    pub thinning: Option<usize>,
    /// Degrees of freedom of the error-variance prior.
    pub nu: Option<Binary64>,
    /// Calibration quantile of the error-variance prior.
    pub q: Option<Binary64>,
    /// Spread parameter of the cell-value prior.
    pub k: Option<Binary64>,
    /// Parameter of the centre-count prior.
    pub lambda_c: Option<Binary64>,
    /// Parameter of the dimension-count prior.
    pub omega: Option<Binary64>,
    /// Spread of the centre-coordinate law.
    pub sigma_c: Option<Binary64>,
    /// Metrics of the raw columns by name.
    pub metrics: Option<Vec<String>>,
    /// Structural moves and their selection weights.
    pub moves: Option<Vec<MoveSpec>>,
    /// Coordinate laws, one per raw column.
    pub coords: Option<Vec<CoordSpec>>,
    /// Assignment geometry.
    pub distance: Option<DistanceSpec>,
    /// Covariate-inclusion model.
    pub inclusion: Option<InclusionSpec>,
    /// Response family by name.
    pub response_family: Option<String>,
    /// Student-t degrees of freedom: required by, and only valid for, the robust
    /// family.
    pub t_df: Option<Binary64>,
    /// Scale model.
    pub scale: Option<ScaleSpec>,
    /// Count priors.
    pub count_priors: Option<CountPriorsSpec>,
    /// Within-cell basis.
    pub basis: Option<BasisSpec>,
    /// Soft-membership kernel.
    pub membership: Option<MembershipSpec>,
}

/// One entry of a move set: a built-in move and its selection weight.
#[derive(Debug)]
pub struct MoveSpec {
    /// The move's name.
    pub name: String,
    /// Its selection weight.
    pub weight: Binary64,
}

/// The built-in moves.
#[derive(Debug, Clone, Copy, PartialEq, Eq, Structural)]
pub enum Move {
    /// Add a centre.
    AddCentre,
    /// Remove a centre.
    RemoveCentre,
    /// Add a dimension.
    AddDimension,
    /// Remove a dimension.
    RemoveDimension,
    /// Change a centre.
    Change,
    /// Swap a dimension.
    Swap,
}

/// A coordinate law of one raw column.
#[derive(Debug, Clone, Copy)]
pub enum CoordSpec {
    /// Normal on the real line.
    EuclideanNormal { sigma_c: Binary64 },
    /// Normal wrapped onto the circle.
    WrappedNormal { sigma_c: Binary64 },
}

/// The assignment geometries.
#[derive(Debug)]
pub enum DistanceSpec {
    /// Squared Euclidean.
    Euclidean,
    /// Manhattan.
    Manhattan,
    /// Cosine distance from the mid-range origin of scaled space.
    Cosine,
    /// Great-circle geometry for an all-angular design.
    Spherical,
    /// Minkowski of order `p`, at least 1.
    Minkowski { p: Binary64 },
    /// Gower geometry of mixed numeric and categorical columns, one entry per raw
    /// column.
    Gower { columns: Vec<GowerColumnSpec> },
    /// Mahalanobis geometry from a precision matrix over the encoded design width:
    /// square, finite, symmetric, positive definite.
    Mahalanobis { precision: Vec<Vec<Binary64>> },
}

/// A raw column of the Gower geometry.
#[derive(Debug, Clone, Copy, PartialEq, Eq, Structural)]
pub enum GowerColumnSpec {
    /// A numeric column.
    Numeric,
    /// A categorical column with `levels` distinct levels.
    Categorical { levels: usize },
}

/// A column kind of the Gower geometry.
#[derive(Debug, Clone, Copy, PartialEq, Eq, Structural)]
pub enum GowerKind {
    /// A numeric column.
    Numeric,
    /// A categorical column with `levels` distinct levels.
    Categorical { levels: usize },
}

impl From<GowerColumnSpec> for GowerKind {
    fn from(spec: GowerColumnSpec) -> (r: Self) {
        match spec {
            GowerColumnSpec::Numeric => GowerKind::Numeric,
            GowerColumnSpec::Categorical { levels } => GowerKind::Categorical { levels },
        }
    }
}

impl vstd::std_specs::convert::FromSpecImpl<GowerColumnSpec> for GowerKind {
    open spec fn obeys_from_spec() -> bool {
        true
    }

    open spec fn from_spec(spec: GowerColumnSpec) -> Self {
        match spec {
            GowerColumnSpec::Numeric => GowerKind::Numeric,
            GowerColumnSpec::Categorical { levels } => GowerKind::Categorical { levels },
        }
    }
}

/// The covariate-inclusion models.
#[derive(Debug)]
pub enum InclusionSpec {
    /// Equal weight on every covariate.
    Uniform,
    /// Fixed weights, one per raw covariate.
    Weighted { weights: Vec<Binary64> },
    /// A Dirichlet prior of concentration `alpha` over the inclusion weights.
    Dart { alpha: Binary64 },
}

/// The scale models.
#[derive(Debug, Clone, Copy)]
pub enum ScaleSpec {
    /// The error variance held fixed.
    Pinned { sigma_sq: Binary64 },
    /// A second ensemble of `m_prime` tessellations for the variance; its prior is
    /// pinned by `nu_prime` and `lambda_prime` together, or calibrated.
    HVariance {
        m_prime: usize,
        nu_prime: Option<Binary64>,
        lambda_prime: Option<Binary64>,
    },
}

/// The count priors.
#[derive(Debug, Clone, Copy, PartialEq, Eq, Structural)]
pub enum CountPriorsSpec {
    /// Shifted Poisson on cells, shifted Binomial on dimensions.
    ShiftedPoissonBinomial,
}

/// The within-cell bases.
#[derive(Debug)]
pub enum BasisSpec {
    /// An intercept plus the named encoded columns, with the prior variance of a
    /// coefficient.
    Linear { columns: Vec<usize>, sigma_beta_sq: Binary64 },
}

/// The soft-membership kernels.
#[derive(Debug, Clone, Copy)]
pub enum MembershipSpec {
    /// Softmax over the negated membership keys, with temperature `tau`.
    Softmax { tau: Binary64 },
}

/// A geometry whose parameters were checked.
#[derive(Debug)]
pub enum Distance {
    /// Squared Euclidean.
    Euclidean,
    /// Manhattan.
    Manhattan,
    /// Cosine.
    Cosine,
    /// Great-circle.
    Spherical,
    /// Minkowski of order `p`.
    Minkowski { p: Binary64 },
    /// Gower over the given column kinds.
    Gower { kinds: Vec<GowerKind> },
    /// Mahalanobis with a row-major precision matrix of the given width.
    Mahalanobis { precision: Vec<Binary64>, width: usize },
}

/// An inclusion model sized by the covariate count.
#[derive(Debug)]
pub enum InclusionChoice {
    /// Equal weight on each of `p` covariates.
    Uniform { p: usize },
    /// Fixed weights.
    Weighted { weights: Vec<Binary64> },
    /// A Dirichlet prior over `p` inclusion weights.
    Dart { alpha: Binary64, p: usize },
}

/// A basis and the payload family that goes with it.
#[derive(Debug)]
pub struct LinearPayload {
    /// The columns of the basis next to its intercept.
    pub columns: Vec<usize>,
    /// Prior variance of a coefficient.
    pub sigma_beta_sq: Binary64,
    /// Width of the payload: the intercept and one coefficient per column.
    pub q: usize,
}

/// The shelf components that a description selects, each with checked parameters.
#[derive(Debug)]
pub struct Shelf {
    /// Moves with their weights.
    pub moves: Option<Vec<(Move, Binary64)>>,
    /// Coordinate laws, one per raw column.
    pub coords: Option<Vec<CoordLaw>>,
    /// Assignment geometry.
    pub distance: Option<Distance>,
    /// Inclusion model.
    pub inclusion: Option<InclusionChoice>,
    /// Scale model.
    pub scale: Option<ScaleSpec>,
    /// Count priors.
    pub count_priors: Option<CountPriorsSpec>,
    /// Basis and payload.
    pub basis: Option<LinearPayload>,
    /// Soft-membership kernel.
    pub membership: Option<MembershipSpec>,
}

/// What a description resolves to.
#[derive(Debug)]
pub struct Assembly {
    /// The plain configuration.
    pub config: AddiVortesConfig,
    /// The selected shelf components.
    pub shelf: Shelf,
}

/// The first of two failures.
pub open spec fn or_failure(a: Option<Failure>, b: Option<Failure>) -> Option<Failure> {
    if a is Some {
        a
    } else {
        b
    }
}

/// The reason of [`positive_finite`].
pub open spec fn strictly_positive_reason(value: Binary64) -> Text {
    text("must be finite and strictly positive, got "@).number(value, Style::Plain)
}

/// The failure of a number under `name` that has to be finite and strictly
/// positive.
pub open spec fn strict_failure(name: Seq<char>, value: Binary64) -> Option<Failure> {
    if value.positive_finite() {
        None
    } else {
        Some(invalid(name, strictly_positive_reason(value)))
    }
}

/// Reject a number that is not finite and strictly positive, under the
/// description's own field name.
pub fn positive_finite(name: &str, value: Binary64) -> (r: Result<Binary64>)
    ensures
        match r {
            Ok(v) => v == value && strict_failure(name@, value) is None,
            Err(e) => strict_failure(name@, value) == Some(e@),
        },
{
    if value.is_positive_finite() {
        Ok(value)
    } else {
        let reason = Message::of("must be finite and strictly positive, got ").number(
            value,
            Style::Plain,
        );
        Err(invalid_hyperparameter(name, reason))
    }
}

/// The metric that a name stands for.
pub open spec fn metric_named(name: Seq<char>) -> Option<Metric> {
    if name == "euclidean"@ {
        Some(Metric::Euclidean)
    } else if name == "spherical"@ {
        Some(Metric::Spherical)
    } else if name == "categorical"@ {
        Some(Metric::Categorical)
    } else if name == "prepared"@ {
        Some(Metric::Prepared)
    } else {
        None
    }
}

/// The failure of an unknown metric name.
pub open spec fn unknown_metric(name: Seq<char>) -> Failure {
    invalid(
        "metrics"@,
        text("unknown metric "@).text(quoted(name)).text(
            ": expected one of 'euclidean', 'spherical', 'categorical', 'prepared'"@,
        ),
    )
}

/// Parse a metric name; an unknown name is an error.
pub fn parse_metric(name: &str) -> (r: Result<Metric>)
    ensures
        match r {
            Ok(metric) => metric_named(name@) == Some(metric),
            Err(e) => metric_named(name@) is None && e@ == unknown_metric(name@),
        },
{
    if same_words(name, "euclidean") {
        Ok(Metric::Euclidean)
    } else if same_words(name, "spherical") {
        Ok(Metric::Spherical)
    } else if same_words(name, "categorical") {
        Ok(Metric::Categorical)
    } else if same_words(name, "prepared") {
        Ok(Metric::Prepared)
    } else {
        let reason = Message::of("unknown metric ").text(quote(name).as_str()).text(
            ": expected one of 'euclidean', 'spherical', 'categorical', 'prepared'",
        );
        Err(invalid_hyperparameter("metrics", reason))
    }
}

/// The first unknown name of a metric list, as a failure.
pub open spec fn metrics_failure(names: Option<Vec<String>>) -> Option<Failure> {
    match names {
        None => None,
        Some(list) => match first(list@.len(), |i: int| metric_named(list@[i]@) is None) {
            Some(i) => Some(unknown_metric(list@[i]@)),
            None => None,
        },
    }
}

/// Parse every name of a list.
fn parse_metrics(names: &Vec<String>) -> (r: Result<Vec<Metric>>)
    ensures
        match r {
            Ok(metrics) => {
                &&& metrics_failure(Some(*names)) is None
                &&& metrics@.len() == names@.len()
                &&& forall|i: int|
                    0 <= i < names@.len() ==> metric_named((#[trigger] names@[i])@) == Some(
                        metrics@[i],
                    )
            },
            Err(e) => metrics_failure(Some(*names)) == Some(e@),
        },
{
    let ghost p = |i: int| metric_named(names@[i]@) is None;
    let mut metrics: Vec<Metric> = Vec::new();
    for i in 0..names.len()
        invariant
            p == (|i: int| metric_named(names@[i]@) is None),
            metrics@.len() == i,
            forall|j: int| 0 <= j < i ==> !#[trigger] p(j),
            forall|j: int|
                0 <= j < i ==> metric_named((#[trigger] names@[j])@) == Some(metrics@[j]),
    {
        match parse_metric(names[i].as_str()) {
            Ok(metric) => {
                metrics.push(metric);
                assert(!p(i as int));
            },
            Err(e) => {
                proof {
                    assert(p(i as int));
                    lemma_first_is(names@.len(), p, i as int);
                }
                return Err(e);
            },
        }
    }
    proof {
        lemma_first_none(names@.len(), p);
    }
    Ok(metrics)
}

/// The move that a name stands for.
pub open spec fn move_named(name: Seq<char>) -> Option<Move> {
    if name == "add_centre"@ {
        Some(Move::AddCentre)
    } else if name == "remove_centre"@ {
        Some(Move::RemoveCentre)
    } else if name == "add_dimension"@ {
        Some(Move::AddDimension)
    } else if name == "remove_dimension"@ {
        Some(Move::RemoveDimension)
    } else if name == "change"@ {
        Some(Move::Change)
    } else if name == "swap"@ {
        Some(Move::Swap)
    } else {
        None
    }
}

/// The failure of an unknown move name.
pub open spec fn unknown_move(name: Seq<char>) -> Failure {
    invalid(
        "moves"@,
        text("unknown move "@).text(quoted(name)).text(
            ": expected one of 'add_centre', 'remove_centre', 'add_dimension', 'remove_dimension', 'change', 'swap'"@,
        ),
    )
}

impl Move {
    /// The move's own name.
    pub open spec fn title(self) -> Seq<char> {
        match self {
            Move::AddCentre => "AddCentre"@,
            Move::RemoveCentre => "RemoveCentre"@,
            Move::AddDimension => "AddDimension"@,
            Move::RemoveDimension => "RemoveDimension"@,
            Move::Change => "Change"@,
            Move::Swap => "Swap"@,
        }
    }

    /// The move that undoes this one.
    pub open spec fn undone_by(self) -> Move {
        match self {
            Move::AddCentre => Move::RemoveCentre,
            Move::RemoveCentre => Move::AddCentre,
            Move::AddDimension => Move::RemoveDimension,
            Move::RemoveDimension => Move::AddDimension,
            Move::Change => Move::Change,
            Move::Swap => Move::Swap,
        }
    }

    /// The move's own name.
    pub fn name(self) -> (r: &'static str)
        ensures
            r@ == self.title(),
    {
        match self {
            Move::AddCentre => "AddCentre",
            Move::RemoveCentre => "RemoveCentre",
            Move::AddDimension => "AddDimension",
            Move::RemoveDimension => "RemoveDimension",
            Move::Change => "Change",
            Move::Swap => "Swap",
        }
    }

    /// The move that undoes this one.
    pub fn reverse(self) -> (r: Move)
        ensures
            r == self.undone_by(),
    {
        match self {
            Move::AddCentre => Move::RemoveCentre,
            Move::RemoveCentre => Move::AddCentre,
            Move::AddDimension => Move::RemoveDimension,
            Move::RemoveDimension => Move::AddDimension,
            Move::Change => Move::Change,
            Move::Swap => Move::Swap,
        }
    }
}

impl MoveSpec {
    /// The built-in move this entry names.
    pub fn build(&self) -> (r: Result<Move>)
        ensures
            match r {
                Ok(mv) => move_named(self.name@) == Some(mv),
                Err(e) => move_named(self.name@) is None && e@ == unknown_move(self.name@),
            },
    {
        let name = self.name.as_str();
        if same_words(name, "add_centre") {
            Ok(Move::AddCentre)
        } else if same_words(name, "remove_centre") {
            Ok(Move::RemoveCentre)
        } else if same_words(name, "add_dimension") {
            Ok(Move::AddDimension)
        } else if same_words(name, "remove_dimension") {
            Ok(Move::RemoveDimension)
        } else if same_words(name, "change") {
            Ok(Move::Change)
        } else if same_words(name, "swap") {
            Ok(Move::Swap)
        } else {
            let reason = Message::of("unknown move ").text(quote(name).as_str()).text(
                ": expected one of 'add_centre', 'remove_centre', 'add_dimension', 'remove_dimension', 'change', 'swap'",
            );
            Err(invalid_hyperparameter("moves", reason))
        }
    }
}

/// The failure of one entry of a move set: its name, then its weight.
pub open spec fn move_entry_failure(entry: MoveSpec) -> Option<Failure> {
    if move_named(entry.name@) is None {
        Some(unknown_move(entry.name@))
    } else {
        strict_failure("moves.weight"@, entry.weight)
    }
}

/// The moves that the entries name.
pub open spec fn named_moves(entries: Seq<MoveSpec>) -> Seq<Move> {
    Seq::new(entries.len(), |i: int| move_named(entries[i].name@)->0)
}

/// Does the move at `i` also stand before `i`?
pub open spec fn repeated(moves: Seq<Move>, i: int) -> bool {
    exists|j: int| 0 <= j < i && #[trigger] moves[j] == moves[i]
}

/// The failure of a set of moves: a move that occurs twice, then a move whose
/// reverse is not in the set.
pub open spec fn move_set_failure(moves: Seq<Move>) -> Option<Failure> {
    match first(moves.len(), |i: int| repeated(moves, i)) {
        Some(i) => Some(
            Failure::InvalidMoveSet {
                move_name: moves[i].title(),
                reason: text("appears more than once"@),
            },
        ),
        None => match first(moves.len(), |i: int| !moves.contains(moves[i].undone_by())) {
            Some(i) => Some(
                Failure::InvalidMoveSet {
                    move_name: moves[i].title(),
                    reason: text("has no reverse move in the set"@),
                },
            ),
            None => None,
        },
    }
}

/// The failure of a list of move entries.
pub open spec fn moves_failure(moves: Option<Vec<MoveSpec>>) -> Option<Failure> {
    match moves {
        None => None,
        Some(list) => if list@.len() == 0 {
            Some(invalid("moves"@, text("a move set needs at least one move"@)))
        } else {
            match first(list@.len(), |i: int| move_entry_failure(list@[i]) is Some) {
                Some(i) => move_entry_failure(list@[i]),
                None => move_set_failure(named_moves(list@)),
            }
        },
    }
}

/// Is `mv` one of the first `upto` moves?
fn occurs(moves: &Vec<(Move, Binary64)>, upto: usize, mv: Move) -> (r: bool)
    requires
        upto <= moves@.len(),
    ensures
        r == exists|j: int| 0 <= j < upto && (#[trigger] moves@[j]).0 == mv,
{
    for j in 0..upto
        invariant
            upto <= moves@.len(),
            forall|k: int| 0 <= k < j ==> (#[trigger] moves@[k]).0 != mv,
    {
        if moves[j].0 == mv {
            return true;
        }
    }
    false
}

/// Check that no move occurs twice and that each has its reverse in the set.
fn check_move_pairing(moves: &Vec<(Move, Binary64)>, Ghost(names): Ghost<Seq<Move>>) -> (r: Result<
    (),
>)
    requires
        names.len() == moves@.len(),
        forall|i: int| 0 <= i < names.len() ==> names[i] == (#[trigger] moves@[i]).0,
    ensures
        match r {
            Ok(_) => move_set_failure(names) is None,
            Err(e) => move_set_failure(names) == Some(e@),
        },
{
    let ghost p = |i: int| repeated(names, i);
    let ghost q = |i: int| !names.contains(names[i].undone_by());
    for i in 0..moves.len()
        invariant
            names.len() == moves@.len(),
            forall|i: int| 0 <= i < names.len() ==> names[i] == (#[trigger] moves@[i]).0,
            p == (|i: int| repeated(names, i)),
            forall|j: int| 0 <= j < i ==> !#[trigger] p(j),
    {
        let mv = moves[i].0;
        if occurs(moves, i, mv) {
            proof {
                let j = choose|j: int| 0 <= j < i && (#[trigger] moves@[j]).0 == mv;
                assert(names[j] == names[i as int]);
                assert(p(i as int));
                lemma_first_is(names.len(), p, i as int);
            }
            return Err(
                AddiVortesError::InvalidMoveSet {
                    move_name: mv.name().to_owned(),
                    reason: Message::of("appears more than once"),
                },
            );
        }
        proof {
            if p(i as int) {
                let j = choose|j: int| 0 <= j < i && #[trigger] names[j] == names[i as int];
                assert(moves@[j].0 == mv);
            }
        }
    }
    proof {
        lemma_first_none(names.len(), p);
    }
    for i in 0..moves.len()
        invariant
            names.len() == moves@.len(),
            forall|i: int| 0 <= i < names.len() ==> names[i] == (#[trigger] moves@[i]).0,
            first(names.len(), |i: int| repeated(names, i)) is None,
            q == (|i: int| !names.contains(names[i].undone_by())),
            forall|j: int| 0 <= j < i ==> !#[trigger] q(j),
    {
        let mv = moves[i].0;
        if !occurs(moves, moves.len(), mv.reverse()) {
            proof {
                if names.contains(mv.undone_by()) {
                    let j = choose|j: int| 0 <= j < names.len() && names[j] == mv.undone_by();
                    assert(moves@[j].0 == mv.undone_by());
                }
                assert(q(i as int));
                lemma_first_is(names.len(), q, i as int);
            }
            return Err(
                AddiVortesError::InvalidMoveSet {
                    move_name: mv.name().to_owned(),
                    reason: Message::of("has no reverse move in the set"),
                },
            );
        }
        proof {
            let j = choose|j: int|
                0 <= j < moves@.len() && (#[trigger] moves@[j]).0 == mv.undone_by();
            assert(names[j] == mv.undone_by());
            assert(!q(i as int));
        }
    }
    proof {
        lemma_first_none(names.len(), q);
    }
    Ok(())
}

/// The moves and weights of a list of entries.
fn build_moves(list: &Vec<MoveSpec>) -> (r: Result<Vec<(Move, Binary64)>>)
    ensures
        match r {
            Ok(moves) => {
                &&& moves_failure(Some(*list)) is None
                &&& moves@.len() == list@.len()
                &&& forall|i: int|
                    0 <= i < list@.len() ==> move_named((#[trigger] list@[i]).name@) == Some(
                        moves@[i].0,
                    ) && moves@[i].1 == list@[i].weight
            },
            Err(e) => moves_failure(Some(*list)) == Some(e@),
        },
{
    if list.len() == 0 {
        return Err(
            invalid_hyperparameter("moves", Message::of("a move set needs at least one move")),
        );
    }
    let ghost p = |i: int| move_entry_failure(list@[i]) is Some;
    let mut moves: Vec<(Move, Binary64)> = Vec::new();
    for i in 0..list.len()
        invariant
            list@.len() > 0,
            p == (|i: int| move_entry_failure(list@[i]) is Some),
            moves@.len() == i,
            forall|j: int| 0 <= j < i ==> !#[trigger] p(j),
            forall|j: int|
                0 <= j < i ==> move_named((#[trigger] list@[j]).name@) == Some(moves@[j].0)
                    && moves@[j].1 == list@[j].weight,
    {
        let mv = match list[i].build() {
            Ok(mv) => mv,
            Err(e) => {
                proof {
                    assert(p(i as int));
                    lemma_first_is(list@.len(), p, i as int);
                }
                return Err(e);
            },
        };
        match positive_finite("moves.weight", list[i].weight) {
            Ok(weight) => {
                moves.push((mv, weight));
                assert(!p(i as int));
            },
            Err(e) => {
                proof {
                    assert(p(i as int));
                    lemma_first_is(list@.len(), p, i as int);
                }
                return Err(e);
            },
        }
    }
    proof {
        lemma_first_none(list@.len(), p);
    }
    let ghost names = named_moves(list@);
    proof {
        assert forall|i: int| 0 <= i < names.len() implies names[i] == (#[trigger] moves@[i]).0 by {
            assert(move_named(list@[i].name@) == Some(moves@[i].0));
        }
    }
    match check_move_pairing(&moves, Ghost(names)) {
        Ok(_) => Ok(moves),
        Err(e) => Err(e),
    }
}

impl CoordSpec {
    /// The spread of this law.
    pub open spec fn spread(self) -> Binary64 {
        match self {
            CoordSpec::EuclideanNormal { sigma_c } => sigma_c,
            CoordSpec::WrappedNormal { sigma_c } => sigma_c,
        }
    }

    /// The law this entry describes.
    pub open spec fn law(self) -> CoordLaw {
        match self {
            CoordSpec::EuclideanNormal { sigma_c } => CoordLaw::EuclideanNormal { sigma_c },
            CoordSpec::WrappedNormal { sigma_c } => CoordLaw::WrappedNormal { sigma_c },
        }
    }

    /// The law this entry describes, once its spread is valid.
    pub fn build(&self) -> (r: Result<CoordLaw>)
        ensures
            match r {
                Ok(law) => strict_failure("coords.sigma_c"@, self.spread()) is None && law
                    == self.law(),
                Err(e) => strict_failure("coords.sigma_c"@, self.spread()) == Some(e@),
            },
    {
        match *self {
            CoordSpec::EuclideanNormal { sigma_c } => match positive_finite(
                "coords.sigma_c",
                sigma_c,
            ) {
                Ok(sigma_c) => Ok(CoordLaw::EuclideanNormal { sigma_c }),
                Err(e) => Err(e),
            },
            CoordSpec::WrappedNormal { sigma_c } => match positive_finite(
                "coords.sigma_c",
                sigma_c,
            ) {
                Ok(sigma_c) => Ok(CoordLaw::WrappedNormal { sigma_c }),
                Err(e) => Err(e),
            },
        }
    }
}

/// The failure of a list of laws whose length differs from the covariate count.
pub open spec fn coords_length_failure(found: nat, p: usize) -> Failure {
    invalid(
        "coords"@,
        text("expected one coordinate law per covariate (p = "@).count(p as int).text(
            "), got "@,
        ).count(found as int),
    )
}

/// Which entries have a spread that is refused.
pub open spec fn refused_spread(list: Seq<CoordSpec>) -> spec_fn(int) -> bool {
    |i: int| strict_failure("coords.sigma_c"@, list[i].spread()) is Some
}

/// The failure of a list of coordinate laws: a bad spread, then, once the
/// covariate count is known, a wrong length.
pub open spec fn coords_failure(
    coords: Option<Vec<CoordSpec>>,
    p: Option<usize>,
) -> Option<Failure> {
    match coords {
        None => None,
        Some(list) => match first(list@.len(), refused_spread(list@)) {
            Some(i) => strict_failure("coords.sigma_c"@, list@[i].spread()),
            None => match p {
                Some(p) if list@.len() != p => Some(coords_length_failure(list@.len(), p)),
                _ => None,
            },
        },
    }
}

/// The laws of a list of entries.
fn build_coords(list: &Vec<CoordSpec>, p: Option<usize>) -> (r: Result<Vec<CoordLaw>>)
    ensures
        match r {
            Ok(laws) => {
                &&& coords_failure(Some(*list), p) is None
                &&& laws@ == list@.map_values(|c: CoordSpec| c.law())
            },
            Err(e) => coords_failure(Some(*list), p) == Some(e@),
        },
{
    let ghost bad = refused_spread(list@);
    let mut laws: Vec<CoordLaw> = Vec::new();
    for i in 0..list.len()
        invariant
            bad == refused_spread(list@),
            laws@ == list@.take(i as int).map_values(|c: CoordSpec| c.law()),
            forall|j: int| 0 <= j < i ==> !#[trigger] bad(j),
    {
        match list[i].build() {
            Ok(law) => {
                laws.push(law);
                assert(!bad(i as int));
                assert(laws@ =~= list@.take(i + 1).map_values(|c: CoordSpec| c.law()));
            },
            Err(e) => {
                proof {
                    assert(bad(i as int));
                    lemma_first_is(list@.len(), bad, i as int);
                }
                return Err(e);
            },
        }
    }
    proof {
        lemma_first_none(list@.len(), bad);
        assert(list@.take(list@.len() as int) =~= list@);
    }
    if let Some(p) = p {
        if list.len() != p {
            let reason = Message::of("expected one coordinate law per covariate (p = ").count(
                p,
            ).text("), got ").count(list.len());
            return Err(invalid_hyperparameter("coords", reason));
        }
    }
    Ok(laws)
}

/// A categorical column without levels.
pub open spec fn without_levels(column: GowerColumnSpec) -> bool {
    column == GowerColumnSpec::Categorical { levels: 0 }
}

/// The failure of a Gower column without levels.
pub open spec fn gower_failure(i: int) -> Failure {
    invalid(
        "gower.columns"@,
        text("column "@).count(i).text(
            " is categorical with 0 levels: it needs at least 1"@,
        ),
    )
}

/// The failure of a precision matrix whose row `i` has the wrong length.
pub open spec fn not_square(precision: Seq<Vec<Binary64>>, i: int) -> Failure {
    invalid(
        "mahalanobis_precision"@,
        text("must be square: row "@).count(i).text(" has "@).count(
            precision[i]@.len() as int,
        ).text(" entries, expected "@).count(precision.len() as int),
    )
}

/// Every entry of a square matrix is finite.
pub open spec fn all_finite(precision: Seq<Vec<Binary64>>) -> bool {
    forall|i: int, j: int|
        0 <= i < precision.len() && 0 <= j < precision.len() ==> (
        #[trigger] precision[i]@[j]).finite()
}

/// A square matrix is equal to its transpose.
pub open spec fn symmetric(precision: Seq<Vec<Binary64>>) -> bool {
    forall|i: int, j: int|
        0 <= i < precision.len() && 0 <= j < precision.len() ==> (
        #[trigger] precision[i]@[j]).same(precision[j]@[i])
}

impl DistanceSpec {
    /// The failure of a geometry's parameters. `definite` says whether the
    /// Cholesky factorisation of the precision matrix succeeds; it is read for a
    /// Mahalanobis geometry alone.
    pub open spec fn failure(self, definite: bool) -> Option<Failure> {
        match self {
            DistanceSpec::Minkowski { p } => if p.finite() && one().at_most(p) {
                None
            } else {
                Some(
                    invalid(
                        "minkowski_p"@,
                        text("must be finite and at least 1, got "@).number(p, Style::Plain),
                    ),
                )
            },
            DistanceSpec::Gower { columns } => match first(
                columns@.len(),
                |i: int| without_levels(columns@[i]),
            ) {
                Some(i) => Some(gower_failure(i)),
                None => None,
            },
            DistanceSpec::Mahalanobis { precision } => match first(
                precision@.len(),
                |i: int| precision@[i]@.len() != precision@.len(),
            ) {
                Some(i) => Some(not_square(precision@, i)),
                None => if !all_finite(precision@) {
                    Some(invalid("mahalanobis_precision"@, text("must be finite"@)))
                } else if !symmetric(precision@) {
                    Some(invalid("mahalanobis_precision"@, text("must be symmetric"@)))
                } else if !definite {
                    Some(invalid("mahalanobis_precision"@, text("must be positive definite"@)))
                } else {
                    None
                },
            },
            _ => None,
        }
    }

    /// Is `distance` the checked form of this geometry?
    pub open spec fn describes(self, distance: Distance) -> bool {
        match (self, distance) {
            (DistanceSpec::Euclidean, Distance::Euclidean) => true,
            (DistanceSpec::Manhattan, Distance::Manhattan) => true,
            (DistanceSpec::Cosine, Distance::Cosine) => true,
            (DistanceSpec::Spherical, Distance::Spherical) => true,
            (DistanceSpec::Minkowski { p: a }, Distance::Minkowski { p: b }) => a == b,
            (DistanceSpec::Gower { columns }, Distance::Gower { kinds }) => {
                &&& kinds@.len() == columns@.len()
                &&& forall|i: int|
                    0 <= i < columns@.len() ==> kinds@[i] == gower_kind(#[trigger] columns@[i])
            },
            (
                DistanceSpec::Mahalanobis { precision: rows },
                Distance::Mahalanobis { precision: flat, width },
            ) => {
                &&& width == rows@.len()
                &&& flat@.len() == width * width
                &&& forall|i: int|
                    0 <= i < width ==> flat@.subrange(i * width, (i + 1) * width) == (
                    #[trigger] rows@[i])@
            },
            _ => false,
        }
    }
}

/// The column kind of a declared column.
pub open spec fn gower_kind(column: GowerColumnSpec) -> GowerKind {
    match column {
        GowerColumnSpec::Numeric => GowerKind::Numeric,
        GowerColumnSpec::Categorical { levels } => GowerKind::Categorical { levels },
    }
}

/// The column kinds of a Gower geometry, each with at least one level.
fn gower_kinds(columns: &Vec<GowerColumnSpec>) -> (r: Result<Vec<GowerKind>>)
    ensures
        match r {
            Ok(kinds) => {
                &&& first(columns@.len(), |i: int| without_levels(columns@[i])) is None
                &&& kinds@.len() == columns@.len()
                &&& forall|i: int|
                    0 <= i < columns@.len() ==> kinds@[i] == gower_kind(#[trigger] columns@[i])
            },
            Err(e) => {
                let at = first(columns@.len(), |i: int| without_levels(columns@[i]));
                at is Some && e@ == gower_failure(at->0)
            },
        },
{
    let ghost bad = |i: int| without_levels(columns@[i]);
    let mut kinds: Vec<GowerKind> = Vec::new();
    for i in 0..columns.len()
        invariant
            bad == (|i: int| without_levels(columns@[i])),
            kinds@.len() == i,
            forall|j: int| 0 <= j < i ==> !#[trigger] bad(j),
            forall|j: int| 0 <= j < i ==> kinds@[j] == gower_kind(#[trigger] columns@[j]),
    {
        let column = columns[i];
        if column == (GowerColumnSpec::Categorical { levels: 0 }) {
            proof {
                assert(bad(i as int));
                lemma_first_is(columns@.len(), bad, i as int);
            }
            let reason = Message::of("column ").count(i).text(
                " is categorical with 0 levels: it needs at least 1",
            );
            return Err(invalid_hyperparameter("gower.columns", reason));
        }
        kinds.push(GowerKind::from(column));
        assert(!bad(i as int));
    }
    proof {
        lemma_first_none(columns@.len(), bad);
    }
    Ok(kinds)
}

/// Is every entry of a square matrix finite?
fn is_all_finite(precision: &Vec<Vec<Binary64>>) -> (r: bool)
    requires
        forall|i: int| 0 <= i < precision@.len() ==> (#[trigger] precision@[i])@.len()
            == precision@.len(),
    ensures
        r == all_finite(precision@),
{
    for i in 0..precision.len()
        invariant
            forall|i: int| 0 <= i < precision@.len() ==> (#[trigger] precision@[i])@.len()
                == precision@.len(),
            forall|a: int, b: int|
                0 <= a < i && 0 <= b < precision@.len() ==> (
                #[trigger] precision@[a]@[b]).finite(),
    {
        let row = &precision[i];
        assert(row@ == precision@[i as int]@);
        for j in 0..row.len()
            invariant
                i < precision@.len(),
                row@ == precision@[i as int]@,
                row@.len() == precision@.len(),
                forall|b: int| 0 <= b < j ==> (#[trigger] precision@[i as int]@[b]).finite(),
        {
            if !row[j].is_finite() {
                assert(!precision@[i as int]@[j as int].finite());
                return false;
            }
        }
    }
    true
}

/// Is a square matrix equal to its transpose?
fn is_symmetric(precision: &Vec<Vec<Binary64>>) -> (r: bool)
    requires
        forall|i: int| 0 <= i < precision@.len() ==> (#[trigger] precision@[i])@.len()
            == precision@.len(),
    ensures
        r == symmetric(precision@),
{
    for i in 0..precision.len()
        invariant
            forall|i: int| 0 <= i < precision@.len() ==> (#[trigger] precision@[i])@.len()
                == precision@.len(),
            forall|a: int, b: int|
                0 <= a < i && 0 <= b < precision@.len() ==> (#[trigger] precision@[a]@[b]).same(
                    precision@[b]@[a],
                ),
    {
        for j in 0..precision.len()
            invariant
                i < precision@.len(),
                forall|i: int| 0 <= i < precision@.len() ==> (#[trigger] precision@[i])@.len()
                    == precision@.len(),
                forall|b: int|
                    0 <= b < j ==> (#[trigger] precision@[i as int]@[b]).same(
                        precision@[b]@[i as int],
                    ),
        {
            assert(precision@[i as int]@.len() == precision@.len());
            assert(precision@[j as int]@.len() == precision@.len());
            if !precision[i][j].is_same(precision[j][i]) {
                assert(!precision@[i as int]@[j as int].same(precision@[j as int]@[i as int]));
                return false;
            }
        }
    }
    true
}

/// The row-major form of a valid precision matrix.
fn flatten_precision(precision: &Vec<Vec<Binary64>>, definite: bool) -> (r: Result<Vec<Binary64>>)
    ensures
        match r {
            Ok(flat) => {
                &&& (DistanceSpec::Mahalanobis { precision: *precision }).failure(definite) is None
                &&& (DistanceSpec::Mahalanobis { precision: *precision }).describes(
                    Distance::Mahalanobis { precision: flat, width: precision@.len() as usize },
                )
            },
            Err(e) => (DistanceSpec::Mahalanobis { precision: *precision }).failure(definite)
                == Some(e@),
        },
{
    let width: usize = precision.len();
    let ghost bad = |i: int| precision@[i]@.len() != precision@.len();
    for i in 0..width
        invariant
            width == precision@.len(),
            bad == (|i: int| precision@[i]@.len() != precision@.len()),
            forall|j: int| 0 <= j < i ==> !#[trigger] bad(j),
    {
        if precision[i].len() != width {
            proof {
                assert(bad(i as int));
                lemma_first_is(precision@.len(), bad, i as int);
            }
            let reason = Message::of("must be square: row ").count(i).text(" has ").count(
                precision[i].len(),
            ).text(" entries, expected ").count(width);
            return Err(invalid_hyperparameter("mahalanobis_precision", reason));
        }
        assert(!bad(i as int));
    }
    proof {
        lemma_first_none(precision@.len(), bad);
        assert forall|i: int| 0 <= i < precision@.len() implies (#[trigger] precision@[i])@.len()
            == precision@.len() by {
            assert(!bad(i));
        }
    }
    if !is_all_finite(precision) {
        return Err(invalid_hyperparameter("mahalanobis_precision", Message::of("must be finite")));
    }
    if !is_symmetric(precision) {
        return Err(
            invalid_hyperparameter("mahalanobis_precision", Message::of("must be symmetric")),
        );
    }
    if !definite {
        return Err(
            invalid_hyperparameter(
                "mahalanobis_precision",
                Message::of("must be positive definite"),
            ),
        );
    }
    let rows = Data::from_rows(precision.as_slice());
    proof {
        let ragged = |i: int| precision@[i]@.len() != crate::engine::data::first_width(precision@);
        assert forall|j: int| 0 <= j < precision@.len() implies !#[trigger] ragged(j) by {
            assert(precision@[j]@.len() == precision@.len());
            assert(precision@[0]@.len() == precision@.len());
        }
        lemma_first_none(precision@.len(), ragged);
    }
    match rows {
        Ok(x) => {
            let ghost matrix = x@;
            let (flat, _, _) = x.into_parts();
            proof {
                assert forall|i: int| 0 <= i < width implies flat@.subrange(
                    i * width,
                    (i + 1) * width,
                ) == (#[trigger] precision@[i])@ by {
                    assert(matrix.row(i) == precision@[i]@);
                    assert(precision@[0]@.len() == precision@.len());
                }
                if width > 0 {
                    assert(precision@[0]@.len() == precision@.len());
                }
            }
            Ok(flat)
        },
        Err(e) => Err(e),
    }
}

impl DistanceSpec {
    /// Select this geometry, validating its parameters.
    pub fn apply(&self, shelf: Shelf, definite: bool) -> (r: Result<Shelf>)
        ensures
            match r {
                Ok(s) => {
                    &&& self.failure(definite) is None
                    &&& s.distance is Some
                    &&& self.describes(s.distance->0)
                    &&& s == (Shelf { distance: s.distance, ..shelf })
                },
                Err(e) => self.failure(definite) == Some(e@),
            },
    {
        let distance = match self {
            DistanceSpec::Euclidean => Distance::Euclidean,
            DistanceSpec::Manhattan => Distance::Manhattan,
            DistanceSpec::Cosine => Distance::Cosine,
            DistanceSpec::Spherical => Distance::Spherical,
            DistanceSpec::Minkowski { p } => {
                if !(p.is_finite() && one().is_at_most(*p)) {
                    let reason = Message::of("must be finite and at least 1, got ").number(
                        *p,
                        Style::Plain,
                    );
                    return Err(invalid_hyperparameter("minkowski_p", reason));
                }
                Distance::Minkowski { p: *p }
            },
            DistanceSpec::Gower { columns } => match gower_kinds(columns) {
                Ok(kinds) => Distance::Gower { kinds },
                Err(e) => {
                    return Err(e);
                },
            },
            DistanceSpec::Mahalanobis { precision } => match flatten_precision(
                precision,
                definite,
            ) {
                Ok(flat) => Distance::Mahalanobis { precision: flat, width: precision.len() },
                Err(e) => {
                    return Err(e);
                },
            },
        };
        Ok(Shelf { distance: Some(distance), ..shelf })
    }
}

/// The name of inclusion weight `i`.
pub open spec fn weight_name(i: int) -> Seq<char> {
    "inclusion.weights["@ + decimal(i as nat) + "]"@
}

/// The failure of a weight list whose length differs from the covariate count.
pub open spec fn weights_length_failure(found: nat, p: usize) -> Failure {
    invalid(
        "inclusion.weights"@,
        text("expected one weight per covariate (p = "@).count(p as int).text(
            "), got "@,
        ).count(found as int),
    )
}

/// The name of inclusion weight `i`.
fn weight_field(i: usize) -> (r: String)
    ensures
        r@ == weight_name(i as int),
{
    let name = Message::of("inclusion.weights[").count(i).text("]");
    string_of(name.characters())
}

/// A copy of a list of numbers.
fn copied_numbers(list: &Vec<Binary64>) -> (r: Vec<Binary64>)
    ensures
        r@ == list@,
{
    let mut r: Vec<Binary64> = Vec::new();
    for i in 0..list.len()
        invariant
            r@ == list@.take(i as int),
    {
        r.push(list[i]);
        assert(r@ =~= list@.take(i + 1));
    }
    assert(list@.take(list@.len() as int) =~= list@);
    r
}

/// A copy of a list of counts.
fn copied_counts(list: &Vec<usize>) -> (r: Vec<usize>)
    ensures
        r@ == list@,
{
    let mut r: Vec<usize> = Vec::new();
    for i in 0..list.len()
        invariant
            r@ == list@.take(i as int),
    {
        r.push(list[i]);
        assert(r@ =~= list@.take(i + 1));
    }
    assert(list@.take(list@.len() as int) =~= list@);
    r
}

impl InclusionSpec {
    /// The failure that needs no data: the weight values or the concentration.
    pub open spec fn value_failure(self) -> Option<Failure> {
        match self {
            InclusionSpec::Uniform => None,
            InclusionSpec::Weighted { weights } => match first(
                weights@.len(),
                |i: int| !weights@[i].positive_finite(),
            ) {
                Some(i) => strict_failure(weight_name(i), weights@[i]),
                None => None,
            },
            InclusionSpec::Dart { alpha } => strict_failure("inclusion.alpha"@, alpha),
        }
    }

    /// The failure of this model, against the covariate count where it is known.
    pub open spec fn failure(self, p: Option<usize>) -> Option<Failure> {
        if self.value_failure() is Some {
            self.value_failure()
        } else {
            match (self, p) {
                (InclusionSpec::Weighted { weights }, Some(p)) if weights@.len() != p => Some(
                    weights_length_failure(weights@.len(), p),
                ),
                _ => None,
            }
        }
    }

    /// Is `choice` this model sized for `p` covariates?
    pub open spec fn describes(self, choice: InclusionChoice, p: usize) -> bool {
        match (self, choice) {
            (InclusionSpec::Uniform, InclusionChoice::Uniform { p: n }) => n == p,
            (
                InclusionSpec::Weighted { weights: a },
                InclusionChoice::Weighted { weights: b },
            ) => a@ == b@,
            (
                InclusionSpec::Dart { alpha: a },
                InclusionChoice::Dart { alpha: b, p: n },
            ) => a == b && n == p,
            _ => false,
        }
    }

    /// Everything checkable without the data: the concentration, and the weight
    /// values (but not how many of them there should be).
    pub fn validate(&self) -> (r: Result<()>)
        ensures
            match r {
                Ok(_) => self.value_failure() is None,
                Err(e) => self.value_failure() == Some(e@),
            },
    {
        match self {
            InclusionSpec::Uniform => Ok(()),
            InclusionSpec::Weighted { weights } => check_weights(weights),
            InclusionSpec::Dart { alpha } => match positive_finite("inclusion.alpha", *alpha) {
                Ok(_) => Ok(()),
                Err(e) => Err(e),
            },
        }
    }

    /// Select this model for `p` raw covariates.
    pub fn apply(&self, shelf: Shelf, p: usize) -> (r: Result<Shelf>)
        ensures
            match r {
                Ok(s) => {
                    &&& self.failure(Some(p)) is None
                    &&& s.inclusion is Some
                    &&& self.describes(s.inclusion->0, p)
                    &&& s == (Shelf { inclusion: s.inclusion, ..shelf })
                },
                Err(e) => self.failure(Some(p)) == Some(e@),
            },
    {
        if let Err(e) = self.validate() {
            return Err(e);
        }
        let choice = match self {
            InclusionSpec::Uniform => InclusionChoice::Uniform { p },
            InclusionSpec::Weighted { weights } => {
                if weights.len() != p {
                    let reason = Message::of("expected one weight per covariate (p = ").count(
                        p,
                    ).text("), got ").count(weights.len());
                    return Err(invalid_hyperparameter("inclusion.weights", reason));
                }
                InclusionChoice::Weighted { weights: copied_numbers(weights) }
            },
            InclusionSpec::Dart { alpha } => InclusionChoice::Dart { alpha: *alpha, p },
        };
        Ok(Shelf { inclusion: Some(choice), ..shelf })
    }
}

/// Check that every weight is finite and strictly positive.
fn check_weights(weights: &Vec<Binary64>) -> (r: Result<()>)
    ensures
        match r {
            Ok(_) => (InclusionSpec::Weighted { weights: *weights }).value_failure() is None,
            Err(e) => (InclusionSpec::Weighted { weights: *weights }).value_failure() == Some(e@),
        },
{
    let ghost bad = |i: int| !weights@[i].positive_finite();
    for i in 0..weights.len()
        invariant
            bad == (|i: int| !weights@[i].positive_finite()),
            forall|j: int| 0 <= j < i ==> !#[trigger] bad(j),
    {
        if !weights[i].is_positive_finite() {
            proof {
                assert(bad(i as int));
                lemma_first_is(weights@.len(), bad, i as int);
            }
            return match positive_finite(weight_field(i).as_str(), weights[i]) {
                Ok(_) => Ok(()),
                Err(e) => Err(e),
            };
        }
        assert(!bad(i as int));
    }
    proof {
        lemma_first_none(weights@.len(), bad);
    }
    Ok(())
}

/// The name that the family setting stands for where it is unset.
pub open spec fn family_name(name: Option<String>) -> Seq<char> {
    match name {
        Some(n) => n@,
        None => "gaussian"@,
    }
}

/// The failure of degrees of freedom given for another family.
pub open spec fn misplaced_df() -> Failure {
    invalid("t_df"@, text("t_df only applies to response_family='robust_t'"@))
}

/// The failure of a family name and its degrees of freedom.
pub open spec fn family_failure(name: Seq<char>, t_df: Option<Binary64>) -> Option<Failure> {
    if name == "gaussian"@ || name == "binary_probit"@ {
        if t_df is Some {
            Some(misplaced_df())
        } else {
            None
        }
    } else if name == "robust_t"@ {
        match t_df {
            None => Some(
                invalid(
                    "t_df"@,
                    text(
                        "response_family='robust_t' requires t_df (the Student-t degrees of freedom)"@,
                    ),
                ),
            ),
            Some(df) => strict_failure("t_df"@, df),
        }
    } else {
        Some(
            invalid(
                "response_family"@,
                text("unknown response_family "@).text(quoted(name)).text(
                    ": expected 'gaussian', 'binary_probit', or 'robust_t'"@,
                ),
            ),
        )
    }
}

/// The family of a valid name and its degrees of freedom.
pub open spec fn family_named(name: Seq<char>, t_df: Option<Binary64>) -> ResponseFamily {
    if name == "robust_t"@ {
        ResponseFamily::RobustT { df: t_df->0 }
    } else if name == "binary_probit"@ {
        ResponseFamily::BinaryProbit
    } else {
        ResponseFamily::Gaussian
    }
}

/// Resolve a family name and its degrees of freedom, which are required by, and
/// only valid for, the robust family.
pub fn resolve_response_family(name: &Option<String>, t_df: Option<Binary64>) -> (r: Result<
    ResponseFamily,
>)
    ensures
        match r {
            Ok(family) => family_failure(family_name(*name), t_df) is None && family
                == family_named(family_name(*name), t_df),
            Err(e) => family_failure(family_name(*name), t_df) == Some(e@),
        },
{
    let name: &str = match name {
        Some(n) => n.as_str(),
        None => "gaussian",
    };
    proof {
        reveal_strlit("gaussian");
        reveal_strlit("binary_probit");
        reveal_strlit("robust_t");
        assert("gaussian"@.len() != "binary_probit"@.len());
        assert("gaussian"@[0] != "robust_t"@[0]);
        assert("binary_probit"@.len() != "robust_t"@.len());
    }
    let gaussian: bool = same_words(name, "gaussian");
    let probit: bool = same_words(name, "binary_probit");
    if gaussian || probit {
        if t_df.is_some() {
            return Err(
                invalid_hyperparameter(
                    "t_df",
                    Message::of("t_df only applies to response_family='robust_t'"),
                ),
            );
        }
        if gaussian {
            Ok(ResponseFamily::Gaussian)
        } else {
            Ok(ResponseFamily::BinaryProbit)
        }
    } else if same_words(name, "robust_t") {
        match t_df {
            None => Err(
                invalid_hyperparameter(
                    "t_df",
                    Message::of(
                        "response_family='robust_t' requires t_df (the Student-t degrees of freedom)",
                    ),
                ),
            ),
            Some(df) => match positive_finite("t_df", df) {
                Ok(df) => Ok(ResponseFamily::RobustT { df }),
                Err(e) => Err(e),
            },
        }
    } else {
        let reason = Message::of("unknown response_family ").text(quote(name).as_str()).text(
            ": expected 'gaussian', 'binary_probit', or 'robust_t'",
        );
        Err(invalid_hyperparameter("response_family", reason))
    }
}

/// The canonical name of a family.
pub open spec fn canonical_name(family: ResponseFamily) -> Seq<char> {
    match family {
        ResponseFamily::Gaussian => "gaussian"@,
        ResponseFamily::BinaryProbit => "binary_probit"@,
        ResponseFamily::RobustT { df: _ } => "robust_t"@,
    }
}

/// The canonical name of a resolved family, for reporting.
pub fn response_family_name(family: ResponseFamily) -> (r: &'static str)
    ensures
        r@ == canonical_name(family),
{
    match family {
        ResponseFamily::Gaussian => "gaussian",
        ResponseFamily::BinaryProbit => "binary_probit",
        ResponseFamily::RobustT { df: _ } => "robust_t",
    }
}

impl ScaleSpec {
    /// The failure of a scale model's parameters.
    pub open spec fn failure(self) -> Option<Failure> {
        match self {
            ScaleSpec::Pinned { sigma_sq } => strict_failure("scale.sigma_sq"@, sigma_sq),
            ScaleSpec::HVariance { m_prime, nu_prime, lambda_prime } => if m_prime < 1 {
                Some(invalid("scale.m_prime"@, at_least_one_reason()))
            } else {
                match (nu_prime, lambda_prime) {
                    (None, None) => None,
                    (Some(nu), Some(lambda)) => or_failure(
                        strict_failure("scale.nu_prime"@, nu),
                        strict_failure("scale.lambda_prime"@, lambda),
                    ),
                    _ => Some(
                        invalid(
                            "scale.nu_prime"@,
                            text(
                                "nu_prime and lambda_prime must be given together (or both omitted, to calibrate the variance prior from the data)"@,
                            ),
                        ),
                    ),
                }
            },
        }
    }

    /// Select this model, validating its parameters.
    pub fn apply(&self, shelf: Shelf) -> (r: Result<Shelf>)
        ensures
            match r {
                Ok(s) => self.failure() is None && s == (Shelf { scale: Some(*self), ..shelf }),
                Err(e) => self.failure() == Some(e@),
            },
    {
        match *self {
            ScaleSpec::Pinned { sigma_sq } => {
                if let Err(e) = positive_finite("scale.sigma_sq", sigma_sq) {
                    return Err(e);
                }
            },
            ScaleSpec::HVariance { m_prime, nu_prime, lambda_prime } => {
                if m_prime < 1 {
                    return Err(
                        invalid_hyperparameter("scale.m_prime", Message::of("must be at least 1")),
                    );
                }
                match (nu_prime, lambda_prime) {
                    (None, None) => {},
                    (Some(nu), Some(lambda)) => {
                        if let Err(e) = positive_finite("scale.nu_prime", nu) {
                            return Err(e);
                        }
                        if let Err(e) = positive_finite("scale.lambda_prime", lambda) {
                            return Err(e);
                        }
                    },
                    _ => {
                        return Err(
                            invalid_hyperparameter(
                                "scale.nu_prime",
                                Message::of(
                                    "nu_prime and lambda_prime must be given together (or both omitted, to calibrate the variance prior from the data)",
                                ),
                            ),
                        );
                    },
                }
            },
        }
        Ok(Shelf { scale: Some(*self), ..shelf })
    }
}

impl CountPriorsSpec {
    /// Select these priors.
    pub fn apply(&self, shelf: Shelf) -> (r: Shelf)
        ensures
            r == (Shelf { count_priors: Some(*self), ..shelf }),
    {
        Shelf { count_priors: Some(*self), ..shelf }
    }
}

impl BasisSpec {
    /// The failure of a basis' parameters.
    pub open spec fn failure(self) -> Option<Failure> {
        match self {
            BasisSpec::Linear { columns: _, sigma_beta_sq } => strict_failure(
                "basis.sigma_beta_sq"@,
                sigma_beta_sq,
            ),
        }
    }

    /// The width of the payload fits the machine's counts.
    pub open spec fn fits(self) -> bool {
        match self {
            BasisSpec::Linear { columns, sigma_beta_sq: _ } => columns@.len() < usize::MAX,
        }
    }

    /// Is `payload` this basis with its payload family? The payload's width is one
    /// more than the number of columns.
    pub open spec fn describes(self, payload: LinearPayload) -> bool {
        match self {
            BasisSpec::Linear { columns, sigma_beta_sq } => {
                &&& payload.columns@ == columns@
                &&& payload.sigma_beta_sq == sigma_beta_sq
                &&& payload.q == 1 + columns@.len()
            },
        }
    }

    /// Select this basis together with its payload family, whose width is derived
    /// from the columns.
    pub fn apply(&self, shelf: Shelf) -> (r: Result<Shelf>)
        requires
            self.fits(),
        ensures
            match r {
                Ok(s) => {
                    &&& self.failure() is None
                    &&& s.basis is Some
                    &&& self.describes(s.basis->0)
                    &&& s == (Shelf { basis: s.basis, ..shelf })
                },
                Err(e) => self.failure() == Some(e@),
            },
    {
        match self {
            BasisSpec::Linear { columns, sigma_beta_sq } => {
                if let Err(e) = positive_finite("basis.sigma_beta_sq", *sigma_beta_sq) {
                    return Err(e);
                }
                let payload = LinearPayload {
                    columns: copied_counts(columns),
                    sigma_beta_sq: *sigma_beta_sq,
                    q: 1 + columns.len(),
                };
                Ok(Shelf { basis: Some(payload), ..shelf })
            },
        }
    }
}

impl MembershipSpec {
    /// The failure of a kernel's parameters.
    pub open spec fn failure(self) -> Option<Failure> {
        match self {
            MembershipSpec::Softmax { tau } => strict_failure("membership.tau"@, tau),
        }
    }

    /// Select this kernel, validating its parameters.
    pub fn apply(&self, shelf: Shelf) -> (r: Result<Shelf>)
        ensures
            match r {
                Ok(s) => self.failure() is None && s == (Shelf {
                    membership: Some(*self),
                    ..shelf
                }),
                Err(e) => self.failure() == Some(e@),
            },
    {
        match *self {
            MembershipSpec::Softmax { tau } => {
                if let Err(e) = positive_finite("membership.tau", tau) {
                    return Err(e);
                }
            },
        }
        Ok(Shelf { membership: Some(*self), ..shelf })
    }
}

/// The chosen value, or the default where none is chosen.
pub open spec fn chosen<T>(choice: Option<T>, default: T) -> T {
    match choice {
        Some(v) => v,
        None => default,
    }
}

impl ConfigSpec {
    /// The configuration this description resolves to, but for its metric list.
    pub open spec fn plain(self) -> AddiVortesConfig {
        let base = default_config(self.seed);
        AddiVortesConfig {
            m: chosen(self.m, base.m),
            burn_in: chosen(self.burn_in, base.burn_in),
            n_draws: chosen(self.draws, base.n_draws),
            thinning: chosen(self.thinning, base.thinning),
            nu: chosen(self.nu, base.nu),
            q: chosen(self.q, base.q),
            k: chosen(self.k, base.k),
            lambda_c: chosen(self.lambda_c, base.lambda_c),
            omega: chosen(self.omega, base.omega),
            sigma_c: chosen(self.sigma_c, base.sigma_c),
            family: family_named(family_name(self.response_family), self.t_df),
            ..base
        }
    }

    /// The first failure of this description in the order of its settings, where
    /// there is one: the metric names, the moves, the coordinate laws, the
    /// distance, the inclusion model, the family, the scale model, the basis, the
    /// membership kernel, and then the hyperparameters. Without a covariate count
    /// the lengths of the laws and of the weights are left unchecked.
    pub open spec fn failure(self, p: Option<usize>, definite: bool) -> Option<Failure> {
        let shelf = or_failure(
            metrics_failure(self.metrics),
            or_failure(
                moves_failure(self.moves),
                or_failure(
                    coords_failure(self.coords, p),
                    match self.distance {
                        Some(d) => d.failure(definite),
                        None => None,
                    },
                ),
            ),
        );
        let models = or_failure(
            match self.inclusion {
                Some(i) => i.failure(p),
                None => None,
            },
            or_failure(
                family_failure(family_name(self.response_family), self.t_df),
                or_failure(
                    match self.scale {
                        Some(s) => s.failure(),
                        None => None,
                    },
                    or_failure(
                        match self.basis {
                            Some(b) => b.failure(),
                            None => None,
                        },
                        match self.membership {
                            Some(k) => k.failure(),
                            None => None,
                        },
                    ),
                ),
            ),
        );
        or_failure(shelf, or_failure(models, self.plain().failure()))
    }

    /// Is `config` the configuration this description resolves to?
    pub open spec fn configures(self, config: AddiVortesConfig) -> bool {
        &&& config == (AddiVortesConfig { metrics: config.metrics, ..self.plain() })
        &&& match (self.metrics, config.metrics) {
            (Some(names), Some(metrics)) => {
                &&& metrics@.len() == names@.len()
                &&& forall|i: int|
                    0 <= i < names@.len() ==> metric_named((#[trigger] names@[i])@) == Some(
                        metrics@[i],
                    )
            },
            (None, None) => true,
            _ => false,
        }
    }

    /// Is `shelf` what this description selects? What is sized by the covariate
    /// count is selected only where the count is known.
    pub open spec fn stocks(self, shelf: Shelf, p: Option<usize>) -> bool {
        &&& match (self.moves, shelf.moves) {
            (Some(list), Some(moves)) => {
                &&& moves@.len() == list@.len()
                &&& forall|i: int|
                    0 <= i < list@.len() ==> move_named((#[trigger] list@[i]).name@) == Some(
                        moves@[i].0,
                    ) && moves@[i].1 == list@[i].weight
            },
            (None, None) => true,
            _ => false,
        }
        &&& match (self.coords, p) {
            (Some(list), Some(_)) => shelf.coords is Some && shelf.coords->0@ == list@.map_values(
                |c: CoordSpec| c.law(),
            ),
            _ => shelf.coords is None,
        }
        &&& match (self.distance, shelf.distance) {
            (Some(d), Some(chosen)) => d.describes(chosen),
            (None, None) => true,
            _ => false,
        }
        &&& match (self.inclusion, p) {
            (Some(i), Some(n)) => shelf.inclusion is Some && i.describes(shelf.inclusion->0, n),
            _ => shelf.inclusion is None,
        }
        &&& shelf.scale == self.scale
        &&& shelf.count_priors == self.count_priors
        &&& match (self.basis, shelf.basis) {
            (Some(b), Some(payload)) => b.describes(payload),
            (None, None) => true,
            _ => false,
        }
        &&& shelf.membership == self.membership
    }

    /// The machine's counts hold the payload width of the basis.
    pub open spec fn fits(self) -> bool {
        self.basis matches Some(b) ==> b.fits()
    }

    /// A description with the seed alone: every setting at its default.
    pub fn new(seed: u64) -> (r: Self)
        ensures
            r == (ConfigSpec {
                seed,
                m: None,
                burn_in: None,
                draws: None,
                thinning: None,
                nu: None,
                q: None,
                k: None,
                lambda_c: None,
                omega: None,
                sigma_c: None,
                metrics: None,
                moves: None,
                coords: None,
                distance: None,
                inclusion: None,
                response_family: None,
                t_df: None,
                scale: None,
                count_priors: None,
                basis: None,
                membership: None,
            }),
    {
        ConfigSpec {
            seed,
            m: None,
            burn_in: None,
            draws: None,
            thinning: None,
            nu: None,
            q: None,
            k: None,
            lambda_c: None,
            omega: None,
            sigma_c: None,
            metrics: None,
            moves: None,
            coords: None,
            distance: None,
            inclusion: None,
            response_family: None,
            t_df: None,
            scale: None,
            count_priors: None,
            basis: None,
            membership: None,
        }
    }

    /// Check the description without any data: every check but the lengths of the
    /// settings that are sized by the covariate count. `definite` says whether the
    /// Cholesky factorisation of a Mahalanobis precision matrix succeeds.
    pub fn validate(&self, definite: bool) -> (r: Result<()>)
        requires
            self.fits(),
        ensures
            match r {
                Ok(_) => self.failure(None, definite) is None,
                Err(e) => self.failure(None, definite) == Some(e@),
            },
    {
        match self.assemble(None, definite) {
            Ok(_) => Ok(()),
            Err(e) => Err(e),
        }
    }

    /// The configuration and shelf components that this description selects for
    /// the data it will be fitted to.
    pub fn into_config(&self, x: &Data, definite: bool) -> (r: Result<Assembly>)
        requires
            self.fits(),
        ensures
            match r {
                Ok(a) => {
                    &&& self.failure(Some(x@.n_cols), definite) is None
                    &&& self.configures(a.config)
                    &&& self.stocks(a.shelf, Some(x@.n_cols))
                },
                Err(e) => self.failure(Some(x@.n_cols), definite) == Some(e@),
            },
    {
        self.assemble(Some(x.n_cols()), definite)
    }

    /// The plain settings of the configuration, without metrics and family.
    fn scalars(&self) -> (r: AddiVortesConfig)
        ensures
            r == (AddiVortesConfig { family: ResponseFamily::Gaussian, ..self.plain() }),
    {
        let mut config = AddiVortesConfig::new(self.seed);
        if let Some(v) = self.m {
            config = config.with_m(v);
        }
        if let Some(v) = self.burn_in {
            config = config.with_burn_in(v);
        }
        if let Some(v) = self.draws {
            config = config.with_draws(v);
        }
        if let Some(v) = self.thinning {
            config = config.with_thinning(v);
        }
        if let Some(v) = self.nu {
            config = config.with_nu(v);
        }
        if let Some(v) = self.q {
            config = config.with_q(v);
        }
        if let Some(v) = self.k {
            config = config.with_k(v);
        }
        if let Some(v) = self.lambda_c {
            config = config.with_lambda_c(v);
        }
        if let Some(v) = self.omega {
            config = config.with_omega(v);
        }
        if let Some(v) = self.sigma_c {
            config = config.with_sigma_c(v);
        }
        config
    }

    /// The one assembly path. `p` is the raw covariate count where the data is
    /// known; without it the settings that it sizes have their values checked but
    /// are not selected.
    pub fn assemble(&self, p: Option<usize>, definite: bool) -> (r: Result<Assembly>)
        requires
            self.fits(),
        ensures
            match r {
                Ok(a) => {
                    &&& self.failure(p, definite) is None
                    &&& self.configures(a.config)
                    &&& self.stocks(a.shelf, p)
                },
                Err(e) => self.failure(p, definite) == Some(e@),
            },
    {
        let mut config = self.scalars();
        let mut shelf = Shelf {
            moves: None,
            coords: None,
            distance: None,
            inclusion: None,
            scale: None,
            count_priors: None,
            basis: None,
            membership: None,
        };
        if let Some(names) = &self.metrics {
            match parse_metrics(names) {
                Ok(metrics) => {
                    config = config.with_metrics(metrics);
                },
                Err(e) => {
                    return Err(e);
                },
            }
        }
        if let Some(list) = &self.moves {
            match build_moves(list) {
                Ok(moves) => {
                    shelf = Shelf { moves: Some(moves), ..shelf };
                },
                Err(e) => {
                    return Err(e);
                },
            }
        }
        if let Some(list) = &self.coords {
            match build_coords(list, p) {
                Ok(laws) => {
                    if p.is_some() {
                        shelf = Shelf { coords: Some(laws), ..shelf };
                    }
                },
                Err(e) => {
                    return Err(e);
                },
            }
        }
        if let Some(distance) = &self.distance {
            match distance.apply(shelf, definite) {
                Ok(s) => {
                    shelf = s;
                },
                Err(e) => {
                    return Err(e);
                },
            }
        }
        if let Some(inclusion) = &self.inclusion {
            if let Err(e) = inclusion.validate() {
                return Err(e);
            }
            if let Some(p) = p {
                match inclusion.apply(shelf, p) {
                    Ok(s) => {
                        shelf = s;
                    },
                    Err(e) => {
                        return Err(e);
                    },
                }
            }
        }
        match resolve_response_family(&self.response_family, self.t_df) {
            Ok(family) => {
                config = config.with_response_family(family);
            },
            Err(e) => {
                return Err(e);
            },
        }
        if let Some(scale) = &self.scale {
            match scale.apply(shelf) {
                Ok(s) => {
                    shelf = s;
                },
                Err(e) => {
                    return Err(e);
                },
            }
        }
        if let Some(count_priors) = &self.count_priors {
            shelf = count_priors.apply(shelf);
        }
        if let Some(basis) = &self.basis {
            match basis.apply(shelf) {
                Ok(s) => {
                    shelf = s;
                },
                Err(e) => {
                    return Err(e);
                },
            }
        }
        if let Some(membership) = &self.membership {
            match membership.apply(shelf) {
                Ok(s) => {
                    shelf = s;
                },
                Err(e) => {
                    return Err(e);
                },
            }
        }
        match config.validate() {
            Ok(_) => Ok(Assembly { config, shelf }),
            Err(e) => Err(e),
        }
    }
}

/// Whatever resolves against some data passes the check without data.
pub proof fn validate_accepts_everything_into_config_accepts(
    spec: ConfigSpec,
    p: usize,
    definite: bool,
)
    requires
        spec.failure(Some(p), definite) is None,
    ensures
        spec.failure(None, definite) is None,
{
}

/// The check without data misses nothing but a wrong length: a description that
/// passes it, and whose laws and weights are one per covariate, resolves.
pub proof fn only_lengths_need_the_data(spec: ConfigSpec, p: usize, definite: bool)
    requires
        spec.failure(None, definite) is None,
        spec.coords matches Some(list) ==> list@.len() == p,
        spec.inclusion matches Some(InclusionSpec::Weighted { weights }) ==> weights@.len() == p,
    ensures
        spec.failure(Some(p), definite) is None,
{
}

/// A description whose laws or weights are of the wrong length may pass the check
/// without data, and is refused against the data.
pub proof fn wrong_lengths_pass_only_without_data(spec: ConfigSpec, p: usize, definite: bool)
    requires
        spec.failure(None, definite) is None,
        (spec.coords matches Some(list) && list@.len() != p) || (
        spec.inclusion matches Some(InclusionSpec::Weighted { weights }) && weights@.len() != p),
    ensures
        spec.failure(Some(p), definite) is Some,
{
    if spec.coords is Some && spec.coords->0@.len() != p {
        let list = spec.coords->0@;
        lemma_first_holds(list.len(), refused_spread(list));
        assert(coords_failure(spec.coords, None) is None);
        assert(coords_failure(spec.coords, Some(p)) is Some);
    }
}

/// A setting left unset takes the default: the description with the seed alone
/// resolves to the default configuration without shelf components.
pub proof fn a_bare_seed_yields_the_defaults(spec: ConfigSpec, config: AddiVortesConfig)
    requires
        spec.m is None && spec.burn_in is None && spec.draws is None && spec.thinning is None,
        spec.nu is None && spec.q is None && spec.k is None && spec.lambda_c is None,
        spec.omega is None && spec.sigma_c is None && spec.metrics is None,
        spec.response_family is None && spec.t_df is None,
        spec.configures(config),
    ensures
        config == default_config(spec.seed),
{
    reveal_strlit("gaussian");
    reveal_strlit("binary_probit");
    reveal_strlit("robust_t");
    assert("gaussian"@.len() != "binary_probit"@.len());
    assert("gaussian"@[0] != "robust_t"@[0]);
}

/// A resolved family reports the name that it was resolved from.
pub proof fn resolved_family_reports_its_name(name: Seq<char>, t_df: Option<Binary64>)
    requires
        family_failure(name, t_df) is None,
    ensures
        canonical_name(family_named(name, t_df)) == name,
{
    reveal_strlit("gaussian");
    reveal_strlit("binary_probit");
    reveal_strlit("robust_t");
    assert("gaussian"@.len() != "binary_probit"@.len());
    assert("gaussian"@[0] != "robust_t"@[0]);
    assert("binary_probit"@.len() != "robust_t"@.len());
}

/// Every built-in move is reachable by a name.
pub proof fn every_move_has_a_name(mv: Move)
    ensures
        exists|name: Seq<char>| #[trigger] move_named(name) == Some(mv),
{
    reveal_strlit("add_centre");
    reveal_strlit("remove_centre");
    reveal_strlit("add_dimension");
    reveal_strlit("remove_dimension");
    reveal_strlit("change");
    reveal_strlit("swap");
    let name = match mv {
        Move::AddCentre => "add_centre"@,
        Move::RemoveCentre => "remove_centre"@,
        Move::AddDimension => "add_dimension"@,
        Move::RemoveDimension => "remove_dimension"@,
        Move::Change => "change"@,
        Move::Swap => "swap"@,
    };
    assert("add_centre"@.len() == 10 && "remove_centre"@.len() == 13);
    assert("add_dimension"@.len() == 13 && "remove_dimension"@.len() == 16);
    assert("remove_centre"@[0] != "add_dimension"@[0]);
    assert("change"@.len() == 6 && "swap"@.len() == 4);
    assert(move_named(name) == Some(mv));
}

/// Undoing is mutual.
pub proof fn reverse_is_mutual(mv: Move)
    ensures
        mv.undone_by().undone_by() == mv,
{
}

} // verus!
