//! The decisions of the prediction surface: which requests are refused, how draws are
//! arranged, which law and link a family has, how often each column is used.

use crate::binary64::{not_a_number, one, rank_orders_values, zero, Binary64};
use crate::engine::data::{first_non_finite, Data, Metric};
use crate::engine::error::{invalid, invalid_hyperparameter, AddiVortesError, Failure, Result};
use crate::engine::model::ResponseFamily;
use crate::engine::posterior::PosteriorSamples;
use crate::engine::tessellation::Tessellation;
use crate::extensions::CellAssigner;
use crate::message::{text, Message, Style, Text};
use crate::order::{ascending, sorted};
use crate::search::{first, lemma_first_holds, lemma_first_is, lemma_first_none};
use crate::value::{same_numbers, Value};
use vstd::prelude::*;

verus! {

/// A central credible interval for one prediction, on the response scale.
#[derive(Debug, Clone, Copy)]
pub struct CredibleInterval {
    /// Lower end.
    pub lower: Binary64,
    /// Upper end.
    pub upper: Binary64,
}

impl Value for CredibleInterval {
    open spec fn equal(self, other: Self) -> bool {
        self.lower.same(other.lower) && self.upper.same(other.upper)
    }

    open spec fn copy_of(self, other: Self) -> bool {
        self == other
    }

    fn equals(&self, other: &Self) -> (r: bool) {
        self.lower.is_same(other.lower) && self.upper.is_same(other.upper)
    }

    fn duplicate(&self) -> (r: Self) {
        *self
    }
}

impl PartialEq for CredibleInterval {
    fn eq(&self, other: &Self) -> (r: bool) {
        self.equals(other)
    }
}

impl vstd::std_specs::cmp::PartialEqSpecImpl for CredibleInterval {
    open spec fn obeys_eq_spec() -> bool {
        true
    }

    open spec fn eq_spec(&self, other: &Self) -> bool {
        self.equal(*other)
    }
}

/// A central predictive interval for one new observation, on the response scale.
#[derive(Debug, Clone, Copy)]
pub struct PredictionInterval {
    /// Lower end.
    pub lower: Binary64,
    /// Upper end.
    pub upper: Binary64,
}

impl Value for PredictionInterval {
    open spec fn equal(self, other: Self) -> bool {
        self.lower.same(other.lower) && self.upper.same(other.upper)
    }

    open spec fn copy_of(self, other: Self) -> bool {
        self == other
    }

    fn equals(&self, other: &Self) -> (r: bool) {
        self.lower.is_same(other.lower) && self.upper.is_same(other.upper)
    }

    fn duplicate(&self) -> (r: Self) {
        *self
    }
}

impl PartialEq for PredictionInterval {
    fn eq(&self, other: &Self) -> (r: bool) {
        self.equals(other)
    }
}

impl vstd::std_specs::cmp::PartialEqSpecImpl for PredictionInterval {
    open spec fn obeys_eq_spec() -> bool {
        true
    }

    open spec fn eq_spec(&self, other: &Self) -> bool {
        self.equal(*other)
    }
}

/// Quantile predictions, observation by observation: the value at
/// `row * probs().len() + j` is the quantile of probability `j` for observation
/// `row`.
#[derive(Debug)]
pub struct QuantilePredictions {
    values: Vec<Binary64>,
    probs: Vec<Binary64>,
    n_rows: usize,
}

/// The mathematical model of a [`QuantilePredictions`].
pub struct Quantiles {
    /// The quantiles, observation by observation.
    pub values: Seq<Binary64>,
    /// The probabilities.
    pub probs: Seq<Binary64>,
    /// The number of observations.
    pub n_rows: int,
}

impl View for QuantilePredictions {
    type V = Quantiles;

    closed spec fn view(&self) -> Quantiles {
        Quantiles { values: self.values@, probs: self.probs@, n_rows: self.n_rows as int }
    }
}

impl Quantiles {
    /// The same shape with equal numbers.
    pub open spec fn same(self, other: Self) -> bool {
        &&& same_numbers(self.values, other.values)
        &&& same_numbers(self.probs, other.probs)
        &&& self.n_rows == other.n_rows
    }
}

impl Value for QuantilePredictions {
    open spec fn equal(self, other: Self) -> bool {
        self@.same(other@)
    }

    open spec fn copy_of(self, other: Self) -> bool {
        self@ == other@
    }

    fn equals(&self, other: &Self) -> (r: bool) {
        self.values.equals(&other.values) && self.probs.equals(&other.probs) && self.n_rows
            == other.n_rows
    }

    fn duplicate(&self) -> (r: Self) {
        proof {
            use_type_invariant(self);
        }
        let values = self.values.duplicate();
        let probs = self.probs.duplicate();
        assert(values@ =~= self.values@ && probs@ =~= self.probs@);
        QuantilePredictions { values, probs, n_rows: self.n_rows }
    }
}

impl PartialEq for QuantilePredictions {
    fn eq(&self, other: &Self) -> (r: bool) {
        self.equals(other)
    }
}

impl vstd::std_specs::cmp::PartialEqSpecImpl for QuantilePredictions {
    open spec fn obeys_eq_spec() -> bool {
        true
    }

    open spec fn eq_spec(&self, other: &Self) -> bool {
        self.equal(*other)
    }
}

impl Clone for QuantilePredictions {
    fn clone(&self) -> (r: Self)
        ensures
            r.copy_of(*self),
    {
        self.duplicate()
    }
}

impl QuantilePredictions {
    #[verifier::type_invariant]
    spec fn is_rectangular(self) -> bool {
        self.values@.len() == self.n_rows * self.probs@.len()
    }

    /// Quantiles of the given shape.
    pub fn new(values: Vec<Binary64>, probs: Vec<Binary64>, n_rows: usize) -> (r: Self)
        requires
            values@.len() == n_rows * probs@.len(),
        ensures
            r@ == (Quantiles { values: values@, probs: probs@, n_rows: n_rows as int }),
    {
        QuantilePredictions { values, probs, n_rows }
    }

    /// The probabilities, in the caller's order.
    pub fn probs(&self) -> (r: &[Binary64])
        ensures
            r@ == self@.probs,
    {
        self.probs.as_slice()
    }

    /// The number of observations.
    pub fn n_rows(&self) -> (r: usize)
        ensures
            r == self@.n_rows,
            self@.values.len() == self@.n_rows * self@.probs.len(),
    {
        proof {
            use_type_invariant(self);
        }
        self.n_rows
    }

    /// The quantiles, observation by observation.
    pub fn values(&self) -> (r: &[Binary64])
        ensures
            r@ == self@.values,
    {
        self.values.as_slice()
    }

    /// The quantiles, the probabilities and the number of observations.
    pub fn into_parts(self) -> (r: (Vec<Binary64>, Vec<Binary64>, usize))
        ensures
            r.0@ == self@.values,
            r.1@ == self@.probs,
            r.2 == self@.n_rows,
            r.0@.len() == r.2 * r.1@.len(),
    {
        proof {
            use_type_invariant(&self);
        }
        (self.values, self.probs, self.n_rows)
    }
}

/// The failure of a list of probabilities: an empty one is refused as a NaN, else the
/// first one that does not lie strictly between zero and one.
pub open spec fn probs_failure(probs: Seq<Binary64>) -> Option<Failure> {
    if probs.len() == 0 {
        Some(Failure::InvalidQuantileProb { value: not_a_number() })
    } else {
        match first(probs.len(), |i: int| !probs[i].in_open_unit()) {
            Some(i) => Some(Failure::InvalidQuantileProb { value: probs[i] }),
            None => None,
        }
    }
}

/// Refuse a list of probabilities that is empty or holds one that does not lie
/// strictly between zero and one.
pub fn check_probs(probs: &[Binary64]) -> (r: Result<()>)
    ensures
        match r {
            Ok(_) => probs_failure(probs@) is None,
            Err(e) => probs_failure(probs@) == Some(e@),
        },
{
    if probs.len() == 0 {
        return Err(AddiVortesError::InvalidQuantileProb { value: not_a_number() });
    }
    let ghost bad = |i: int| !probs@[i].in_open_unit();
    for i in 0..probs.len()
        invariant
            probs@.len() > 0,
            bad == (|i: int| !probs@[i].in_open_unit()),
            forall|j: int| 0 <= j < i ==> !#[trigger] bad(j),
    {
        if !probs[i].is_in_open_unit() {
            proof {
                assert(bad(i as int));
                lemma_first_is(probs@.len(), bad, i as int);
            }
            return Err(AddiVortesError::InvalidQuantileProb { value: probs[i] });
        }
        assert(!bad(i as int));
    }
    proof {
        lemma_first_none(probs@.len(), bad);
    }
    Ok(())
}

/// Refuse an interval level that does not lie strictly between zero and one.
pub fn check_level(level: Binary64) -> (r: Result<()>)
    ensures
        match r {
            Ok(_) => level.in_open_unit(),
            Err(e) => !level.in_open_unit() && e@ == (Failure::InvalidQuantileProb {
                value: level,
            }),
        },
{
    if !level.is_in_open_unit() {
        return Err(AddiVortesError::InvalidQuantileProb { value: level });
    }
    Ok(())
}

/// What the draws say about one observation, draw by draw.
pub open spec fn row_values(per_draw: Seq<Vec<Binary64>>, row: int) -> Seq<Binary64> {
    Seq::new(per_draw.len(), |d: int| per_draw[d]@[row])
}

/// What the draws say about one observation, draw by draw.
pub fn gather_row(per_draw: &Vec<Vec<Binary64>>, row: usize) -> (r: Vec<Binary64>)
    requires
        forall|d: int| 0 <= d < per_draw@.len() ==> row < (#[trigger] per_draw@[d])@.len(),
    ensures
        r@ == row_values(per_draw@, row as int),
{
    let mut values: Vec<Binary64> = Vec::new();
    for d in 0..per_draw.len()
        invariant
            forall|d: int| 0 <= d < per_draw@.len() ==> row < (#[trigger] per_draw@[d])@.len(),
            values@.len() == d,
            forall|k: int| 0 <= k < d ==> values@[k] == per_draw@[k]@[row as int],
    {
        assert(row < per_draw@[d as int]@.len());
        values.push(per_draw[d][row]);
    }
    assert(values@ =~= row_values(per_draw@, row as int));
    values
}

/// What the draws say about each of `n` observations, in ascending order.
pub fn sorted_rows(per_draw: &Vec<Vec<Binary64>>, n: usize) -> (r: Vec<Vec<Binary64>>)
    requires
        forall|d: int| 0 <= d < per_draw@.len() ==> (#[trigger] per_draw@[d])@.len() == n,
    ensures
        r@.len() == n,
        forall|row: int|
            0 <= row < n ==> {
                &&& ascending((#[trigger] r@[row])@)
                &&& r@[row]@.to_multiset() == row_values(per_draw@, row).to_multiset()
                &&& r@[row]@.len() == per_draw@.len()
            },
{
    let mut rows: Vec<Vec<Binary64>> = Vec::new();
    for row in 0..n
        invariant
            forall|d: int| 0 <= d < per_draw@.len() ==> (#[trigger] per_draw@[d])@.len() == n,
            rows@.len() == row,
            forall|k: int|
                0 <= k < row ==> {
                    &&& ascending((#[trigger] rows@[k])@)
                    &&& rows@[k]@.to_multiset() == row_values(per_draw@, k).to_multiset()
                    &&& rows@[k]@.len() == per_draw@.len()
                },
    {
        let values = gather_row(per_draw, row);
        rows.push(sorted(values.as_slice()));
    }
    rows
}

/// The two order statistics between which a quantile is interpolated, given the whole
/// part of its position: the next one is the last one at most.
pub fn quantile_neighbours(sorted: &[Binary64], position: usize) -> (r: (Binary64, Binary64))
    requires
        position < sorted@.len(),
    ensures
        r.0 == sorted@[position as int],
        r.1 == sorted@[if position + 1 < sorted@.len() {
            position + 1
        } else {
            sorted@.len() - 1
        }],
{
    assert(sorted@.len() == sorted.len());
    let next: usize = if position + 1 < sorted.len() {
        position + 1
    } else {
        sorted.len() - 1
    };
    (sorted[position], sorted[next])
}

/// The intervals between the two quantiles of each observation.
pub fn credible_pairs(values: &[Binary64], n_rows: usize) -> (r: Vec<CredibleInterval>)
    requires
        values@.len() == n_rows * 2,
    ensures
        r@.len() == n_rows,
        forall|row: int|
            0 <= row < n_rows ==> #[trigger] r@[row] == (CredibleInterval {
                lower: values@[row * 2],
                upper: values@[row * 2 + 1],
            }),
{
    let mut intervals: Vec<CredibleInterval> = Vec::new();
    for row in 0..n_rows
        invariant
            values@.len() == n_rows * 2,
            intervals@.len() == row,
            forall|k: int|
                0 <= k < row ==> #[trigger] intervals@[k] == (CredibleInterval {
                    lower: values@[k * 2],
                    upper: values@[k * 2 + 1],
                }),
    {
        assert(values@.len() == values.len());
        intervals.push(
            CredibleInterval { lower: values[row * 2], upper: values[row * 2 + 1] },
        );
    }
    intervals
}

/// The quantile of a mixture of labels, given the probability of label zero.
pub fn label_quantile(q: Binary64, p_zero: Binary64) -> (r: Binary64)
    ensures
        r == (if q.at_most(p_zero) {
            zero()
        } else {
            one()
        }),
{
    if q.is_at_most(p_zero) {
        zero()
    } else {
        one()
    }
}

/// How the sum of an ensemble becomes a prediction.
#[derive(Debug, Clone, Copy, PartialEq, Eq, Structural)]
pub enum Link {
    /// Mapped back to the response scale.
    Unscale,
    /// Mapped through the normal distribution function to the probability scale.
    NormalCdf,
}

/// The predictive law of one observation.
#[derive(Debug, Clone, Copy)]
pub enum PredictiveLaw {
    /// A mixture of normal laws.
    Normal,
    /// A mixture of labels.
    Labels,
    /// A mixture of Student-t laws.
    StudentT { df: Binary64 },
}

impl ResponseFamily {
    /// The link of the family: labels are predicted as probabilities, everything else
    /// on the response scale.
    pub fn link(&self) -> (r: Link)
        ensures
            r == (match *self {
                ResponseFamily::BinaryProbit => Link::NormalCdf,
                _ => Link::Unscale,
            }),
    {
        match *self {
            ResponseFamily::BinaryProbit => Link::NormalCdf,
            _ => Link::Unscale,
        }
    }

    /// The predictive law of the family.
    pub fn predictive_law(&self) -> (r: PredictiveLaw)
        ensures
            r == (match *self {
                ResponseFamily::Gaussian => PredictiveLaw::Normal,
                ResponseFamily::BinaryProbit => PredictiveLaw::Labels,
                ResponseFamily::RobustT { df } => PredictiveLaw::StudentT { df },
            }),
    {
        match *self {
            ResponseFamily::Gaussian => PredictiveLaw::Normal,
            ResponseFamily::BinaryProbit => PredictiveLaw::Labels,
            ResponseFamily::RobustT { df } => PredictiveLaw::StudentT { df },
        }
    }
}

/// The metrics of the raw columns: those that were set, or all Euclidean.
pub open spec fn metrics_in_force(metrics: Option<Vec<Metric>>, n_raw: nat) -> Seq<Metric> {
    match metrics {
        Some(list) => list@,
        None => Seq::new(n_raw, |i: int| Metric::Euclidean),
    }
}

/// The metrics of the raw columns: those that were set, or all Euclidean.
pub fn effective_metrics(metrics: &Option<Vec<Metric>>, n_raw: usize) -> (r: Vec<Metric>)
    ensures
        r@ == metrics_in_force(*metrics, n_raw as nat),
{
    match metrics {
        Some(list) => copied_metrics(list),
        None => all_euclidean(n_raw),
    }
}

/// A copy of a list of metrics.
pub(crate) fn copied_metrics(list: &Vec<Metric>) -> (r: Vec<Metric>)
    ensures
        r@ == list@,
{
    let mut r: Vec<Metric> = Vec::new();
    for i in 0..list.len()
        invariant
            r@ == list@.take(i as int),
    {
        r.push(list[i]);
        assert(r@ =~= list@.take(i + 1));
    }
    assert(list@.take(list@.len() as int) =~= list@);
    r
}

/// As many Euclidean columns.
fn all_euclidean(n: usize) -> (r: Vec<Metric>)
    ensures
        r@ == Seq::new(n as nat, |i: int| Metric::Euclidean),
{
    let mut r: Vec<Metric> = Vec::new();
    for i in 0..n
        invariant
            r@.len() == i,
            forall|j: int| 0 <= j < i ==> r@[j] == Metric::Euclidean,
    {
        r.push(Metric::Euclidean);
    }
    assert(r@ =~= Seq::new(n as nat, |i: int| Metric::Euclidean));
    r
}

/// Is the number one of the labels zero and one?
pub open spec fn is_label(value: Binary64) -> bool {
    value.same(zero()) || value.same(one())
}

/// Why a response that is no label is refused.
pub open spec fn label_reason(value: Binary64) -> Text {
    text("BinaryProbit needs a {0, 1} response; found "@).number(value, Style::Plain)
}

/// The failure of a response that log-likelihoods are asked for.
pub open spec fn response_failure(
    y: Seq<Binary64>,
    n_rows: usize,
    family: ResponseFamily,
) -> Option<Failure> {
    if y.len() != n_rows {
        Some(Failure::RowCountMismatch { y_len: y.len() as usize, x_rows: n_rows })
    } else {
        match first(y.len(), |i: int| !y[i].finite()) {
            Some(i) => Some(Failure::NonFiniteResponse { row: i as usize }),
            None => if family is BinaryProbit {
                match first(y.len(), |i: int| !is_label(y[i])) {
                    Some(i) => Some(invalid("response_family"@, label_reason(y[i]))),
                    None => None,
                }
            } else {
                None
            },
        }
    }
}

/// The first number that is no label.
fn first_non_label(y: &[Binary64]) -> (r: Option<Binary64>)
    ensures
        match first(y@.len(), |i: int| !is_label(y@[i])) {
            Some(i) => r == Some(y@[i]),
            None => r is None,
        },
{
    let ghost bad = |i: int| !is_label(y@[i]);
    for i in 0..y.len()
        invariant
            bad == (|i: int| !is_label(y@[i])),
            forall|j: int| 0 <= j < i ==> !#[trigger] bad(j),
    {
        if !y[i].is_same(zero()) && !y[i].is_same(one()) {
            proof {
                assert(bad(i as int));
                lemma_first_is(y@.len(), bad, i as int);
            }
            return Some(y[i]);
        }
        assert(!bad(i as int));
    }
    proof {
        lemma_first_none(y@.len(), bad);
    }
    None
}

/// Refuse a response that does not match the rows, is not finite, or holds something
/// else than labels where the family needs labels; in that order.
pub fn check_response(y: &[Binary64], n_rows: usize, family: ResponseFamily) -> (r: Result<()>)
    ensures
        match r {
            Ok(_) => response_failure(y@, n_rows, family) is None,
            Err(e) => response_failure(y@, n_rows, family) == Some(e@),
        },
{
    if y.len() != n_rows {
        return Err(AddiVortesError::RowCountMismatch { y_len: y.len(), x_rows: n_rows });
    }
    if let Some(row) = first_non_finite(y) {
        return Err(AddiVortesError::NonFiniteResponse { row });
    }
    if let ResponseFamily::BinaryProbit = family {
        if let Some(value) = first_non_label(y) {
            return Err(
                invalid_hyperparameter(
                    "response_family",
                    Message::of("BinaryProbit needs a {0, 1} response; found ").number(
                        value,
                        Style::Plain,
                    ),
                ),
            );
        }
    }
    Ok(())
}

/// What each observation receives from a tessellation whose cells hold one value: the
/// value of the cell that it is assigned to.
pub fn cell_contributions(tessellation: &Tessellation, assignment: &[usize]) -> (r: Vec<Binary64>)
    requires
        forall|i: int|
            0 <= i < assignment@.len() ==> (#[trigger] assignment@[i]) < tessellation@.mus.len(),
    ensures
        r@ == Seq::new(
            assignment@.len(),
            |i: int| tessellation@.mus[assignment@[i] as int],
        ),
{
    let mus = tessellation.mus();
    let mut r: Vec<Binary64> = Vec::new();
    for i in 0..assignment.len()
        invariant
            mus@ == tessellation@.mus,
            forall|i: int|
                0 <= i < assignment@.len() ==> (#[trigger] assignment@[i])
                    < tessellation@.mus.len(),
            r@.len() == i,
            forall|k: int| 0 <= k < i ==> r@[k] == mus@[assignment@[k] as int],
    {
        assert(assignment@[i as int] < mus@.len());
        r.push(mus[assignment[i]]);
    }
    assert(r@ =~= Seq::new(assignment@.len(), |i: int| tessellation@.mus[assignment@[i] as int]));
    r
}

/// The reply is what the assigner answers for a tessellation.
pub open spec fn assigned<A: CellAssigner>(
    assigner: &A,
    x: &Data,
    tessellation: Tessellation,
    reply: Result<Vec<usize>>,
) -> bool {
    call_ensures(A::assign_cells, (assigner, x, &tessellation), reply)
}

/// The reply for an ensemble: the assigner's answer for each tessellation, or its first
/// error.
pub open spec fn draw_assigned<A: CellAssigner>(
    assigner: &A,
    x: &Data,
    tessellations: Seq<Tessellation>,
    reply: Result<Vec<Vec<usize>>>,
) -> bool {
    match reply {
        Ok(cells) => {
            &&& cells@.len() == tessellations.len()
            &&& forall|j: int|
                0 <= j < cells@.len() ==> assigned(
                    assigner,
                    x,
                    tessellations[j],
                    Ok(#[trigger] cells@[j]),
                )
        },
        Err(error) => exists|cells: Seq<Vec<usize>>|
            {
                &&& #[trigger] cells.len() < tessellations.len()
                &&& forall|j: int|
                    0 <= j < cells.len() ==> assigned(
                        assigner,
                        x,
                        tessellations[j],
                        Ok(#[trigger] cells[j]),
                    )
                &&& assigned(assigner, x, tessellations[cells.len() as int], Err(error))
            },
    }
}

/// The cells of the observations in every tessellation of an ensemble, asked for in
/// order; the first error ends it.
pub fn assign_draw<A: CellAssigner>(
    assigner: &A,
    x: &Data,
    tessellations: &Vec<Tessellation>,
) -> (r: Result<Vec<Vec<usize>>>)
    ensures
        draw_assigned(assigner, x, tessellations@, r),
{
    let mut all: Vec<Vec<usize>> = Vec::new();
    for j in 0..tessellations.len()
        invariant
            all@.len() == j,
            forall|k: int|
                0 <= k < j ==> assigned(assigner, x, tessellations@[k], Ok(#[trigger] all@[k])),
    {
        let ghost so_far = all@;
        match assigner.assign_cells(x, &tessellations[j]) {
            Ok(cells) => {
                all.push(cells);
                assert forall|k: int| 0 <= k < j + 1 implies assigned(
                    assigner,
                    x,
                    tessellations@[k],
                    Ok(#[trigger] all@[k]),
                ) by {
                    if k < j {
                        assert(all@[k] == so_far[k]);
                    }
                }
            },
            Err(error) => {
                assert(so_far.len() < tessellations@.len());
                return Err(error);
            },
        }
    }
    Ok(all)
}

/// The reply for a posterior: the replies for its draws, or the first error among them.
pub open spec fn draws_assigned<A: CellAssigner>(
    assigner: &A,
    x: &Data,
    draws: Seq<Vec<Tessellation>>,
    reply: Result<Vec<Vec<Vec<usize>>>>,
) -> bool {
    match reply {
        Ok(cells) => {
            &&& cells@.len() == draws.len()
            &&& forall|d: int|
                0 <= d < cells@.len() ==> draw_assigned(
                    assigner,
                    x,
                    draws[d]@,
                    Ok(#[trigger] cells@[d]),
                )
        },
        Err(error) => exists|cells: Seq<Vec<Vec<usize>>>|
            {
                &&& #[trigger] cells.len() < draws.len()
                &&& forall|d: int|
                    0 <= d < cells.len() ==> draw_assigned(
                        assigner,
                        x,
                        draws[d]@,
                        Ok(#[trigger] cells[d]),
                    )
                &&& draw_assigned(assigner, x, draws[cells.len() as int]@, Err(error))
            },
    }
}

/// The cells of the observations in every tessellation of every draw, asked for in
/// order; the first error ends it.
pub fn assignments_by_draw<A: CellAssigner>(
    assigner: &A,
    x: &Data,
    posterior: &PosteriorSamples,
) -> (r: Result<Vec<Vec<Vec<usize>>>>)
    ensures
        draws_assigned(assigner, x, posterior@.draws, r),
{
    let n_draws: usize = posterior.n_draws();
    let mut all: Vec<Vec<Vec<usize>>> = Vec::new();
    for d in 0..n_draws
        invariant
            n_draws == posterior@.draws.len(),
            all@.len() == d,
            forall|k: int|
                0 <= k < d ==> draw_assigned(
                    assigner,
                    x,
                    posterior@.draws[k]@,
                    Ok(#[trigger] all@[k]),
                ),
    {
        let ghost so_far = all@;
        match assign_draw(assigner, x, posterior.tessellations(d)) {
            Ok(cells) => {
                all.push(cells);
                assert forall|k: int| 0 <= k < d + 1 implies draw_assigned(
                    assigner,
                    x,
                    posterior@.draws[k]@,
                    Ok(#[trigger] all@[k]),
                ) by {
                    if k < d {
                        assert(all@[k] == so_far[k]);
                    }
                }
            },
            Err(error) => {
                assert(so_far.len() < posterior@.draws.len());
                return Err(error);
            },
        }
    }
    Ok(all)
}

/// Only labels are held to zero and one: a response with as many finite values as there
/// are rows is accepted under every family other than the probit one, and under the
/// probit family exactly where each of its values is zero or one.
pub proof fn only_probit_responses_must_be_labels(
    y: &[Binary64],
    n_rows: usize,
    family: ResponseFamily,
    r: Result<()>,
)
    requires
        call_ensures(check_response, (y, n_rows, family), r),
        y@.len() == n_rows,
        forall|i: int| 0 <= i < y@.len() ==> (#[trigger] y@[i]).finite(),
    ensures
        !(family is BinaryProbit) ==> r is Ok,
        family is BinaryProbit ==> (r is Ok <==> forall|i: int|
            0 <= i < y@.len() ==> (#[trigger] y@[i]).value() == 0 || y@[i].value()
                == one().value()),
        r is Err ==> exists|i: int|
            0 <= i < y@.len() && (#[trigger] y@[i]).value() != 0 && y@[i].value() != one().value()
                && r->Err_0@ == invalid(
                "response_family"@,
                text("BinaryProbit needs a {0, 1} response; found "@).number(y@[i], Style::Plain),
            ),
{
    let unfit = |i: int| !y@[i].finite();
    lemma_first_none(y@.len(), unfit);
    let bad = |i: int| !is_label(y@[i]);
    lemma_first_holds(y@.len(), bad);
    assert(zero().value() == 0);
    assert forall|i: int| 0 <= i < y@.len() implies bad(i) == ((#[trigger] y@[i]).value() != 0
        && y@[i].value() != one().value()) by {
        rank_orders_values(y@[i], zero());
        rank_orders_values(y@[i], one());
    }
    if first(y@.len(), bad) is Some {
        let i = first(y@.len(), bad)->0;
        assert(bad(i));
        assert(y@[i].value() != 0);
    }
    if family is BinaryProbit && r is Ok {
        assert forall|i: int| 0 <= i < y@.len() implies (#[trigger] y@[i]).value() == 0
            || y@[i].value() == one().value() by {
            assert(!bad(i));
        }
    }
}

/// A response is never scored where its length differs from the number of rows or where
/// one of its values is not finite, whatever the family; the first such value is named.
pub proof fn unusable_responses_are_refused(
    y: &[Binary64],
    n_rows: usize,
    family: ResponseFamily,
    r: Result<()>,
)
    requires
        call_ensures(check_response, (y, n_rows, family), r),
    ensures
        y@.len() != n_rows ==> r is Err && r->Err_0@ == (Failure::RowCountMismatch {
            y_len: y@.len() as usize,
            x_rows: n_rows,
        }),
        y@.len() == n_rows && (exists|i: int|
            0 <= i < y@.len() && !(#[trigger] y@[i]).finite()) ==> {
            &&& r is Err
            &&& r->Err_0@ is NonFiniteResponse
            &&& ({
                let row = r->Err_0@->NonFiniteResponse_row as int;
                &&& 0 <= row < y@.len()
                &&& !y@[row].finite()
                &&& forall|i: int| 0 <= i < row ==> (#[trigger] y@[i]).finite()
            })
        },
{
    let unfit = |i: int| !y@[i].finite();
    lemma_first_holds(y@.len(), unfit);
    if y@.len() == n_rows && exists|i: int| 0 <= i < y@.len() && !(#[trigger] y@[i]).finite() {
        let i = choose|i: int| 0 <= i < y@.len() && !(#[trigger] y@[i]).finite();
        assert(unfit(i));
        let row = first(y@.len(), unfit)->0;
        assert(unfit(row));
        assert forall|j: int| 0 <= j < row implies (#[trigger] y@[j]).finite() by {
            assert(!unfit(j));
        }
    }
}

/// A list of probabilities is accepted exactly where there is one and each lies strictly
/// between zero and one; an empty list is refused as a NaN, another by the first of its
/// values that does not.
pub proof fn probabilities_lie_strictly_inside_the_unit(probs: &[Binary64], r: Result<()>)
    requires
        call_ensures(check_probs, (probs,), r),
    ensures
        r is Ok <==> {
            &&& probs@.len() > 0
            &&& forall|i: int|
                0 <= i < probs@.len() ==> zero().below(#[trigger] probs@[i]) && probs@[i].below(
                    one(),
                )
        },
        r is Err ==> r->Err_0@ is InvalidQuantileProb,
        r is Err && probs@.len() == 0 ==> r->Err_0@->InvalidQuantileProb_value.nan(),
        r is Err && probs@.len() > 0 ==> exists|i: int|
            {
                &&& 0 <= i < probs@.len()
                &&& r->Err_0@->InvalidQuantileProb_value == #[trigger] probs@[i]
                &&& !(zero().below(probs@[i]) && probs@[i].below(one()))
                &&& forall|j: int|
                    0 <= j < i ==> zero().below(#[trigger] probs@[j]) && probs@[j].below(one())
            },
{
    let bad = |i: int| !probs@[i].in_open_unit();
    lemma_first_holds(probs@.len(), bad);
    assert forall|i: int| 0 <= i < probs@.len() implies bad(i) == !(zero().below(
        #[trigger] probs@[i],
    ) && probs@[i].below(one())) by {}
    if r is Err && probs@.len() > 0 {
        let i = first(probs@.len(), bad)->0;
        assert(bad(i));
        assert(r->Err_0@->InvalidQuantileProb_value == probs@[i]);
        assert forall|j: int| 0 <= j < i implies zero().below(#[trigger] probs@[j])
            && probs@[j].below(one()) by {
            assert(!bad(j));
        }
    }
    if r is Ok {
        assert forall|i: int| 0 <= i < probs@.len() implies zero().below(#[trigger] probs@[i])
            && probs@[i].below(one()) by {
            assert(!bad(i));
        }
    }
}

/// An interval level is accepted exactly where a list of that single probability is.
pub proof fn levels_are_probabilities(
    level: Binary64,
    probs: &[Binary64],
    r: Result<()>,
    s: Result<()>,
)
    requires
        call_ensures(check_level, (level,), r),
        call_ensures(check_probs, (probs,), s),
        probs@ == seq![level],
    ensures
        r is Ok <==> s is Ok,
        r is Err ==> r->Err_0@ == s->Err_0@ && r->Err_0@ == (Failure::InvalidQuantileProb {
            value: level,
        }),
{
    probabilities_lie_strictly_inside_the_unit(probs, s);
    assert(probs@[0] == level);
}

/// Quantiles of labels are labels that do not fall as the probability rises: zero
/// exactly up to the probability of label zero.
pub proof fn label_quantiles_step_once(
    q: Binary64,
    later: Binary64,
    p_zero: Binary64,
    r: Binary64,
    s: Binary64,
)
    requires
        call_ensures(label_quantile, (q, p_zero), r),
        call_ensures(label_quantile, (later, p_zero), s),
        q.at_most(later),
        !p_zero.nan(),
    ensures
        r.value() == 0 || r.value() == one().value(),
        r.at_most(s),
        r.same(zero()) <==> q.at_most(p_zero),
        r.same(one()) <==> p_zero.below(q),
{
    assert(zero().value() == 0);
}

/// The neighbours of a quantile: the lower one stands at its position, the upper one
/// directly behind it, and the last order statistic is its own upper neighbour. In a
/// sorted list they enclose no other value, and moving one position on moves the upper
/// neighbour to the lower place.
pub proof fn neighbours_are_adjacent(
    sorted: &[Binary64],
    position: usize,
    next: usize,
    r: (Binary64, Binary64),
    s: (Binary64, Binary64),
)
    requires
        next == position + 1,
        next < sorted@.len(),
        call_ensures(quantile_neighbours, (sorted, position), r),
        call_ensures(quantile_neighbours, (sorted, next), s),
    ensures
        r.0 == sorted@[position as int],
        r.1 == s.0,
        next + 1 == sorted@.len() ==> s.0 == s.1,
        ascending(sorted@) ==> r.0.total_rank() <= r.1.total_rank(),
{
}

/// A central interval runs from the first quantile of an observation to the second one:
/// row by row the ends are the quantiles, and they are in order where the quantiles are.
pub proof fn interval_ends_are_the_row_quantiles(
    values: &[Binary64],
    n_rows: usize,
    r: Vec<CredibleInterval>,
    row: int,
)
    requires
        call_ensures(credible_pairs, (values, n_rows), r),
        0 <= row < n_rows,
    ensures
        r@.len() == n_rows,
        r@[row].lower == values@[2 * row],
        r@[row].upper == values@[2 * row + 1],
        values@[2 * row].at_most(values@[2 * row + 1]) ==> r@[row].lower.at_most(r@[row].upper),
{
}

/// Only labels are predicted on the probability scale, and only they have a predictive
/// law of labels; the degrees of freedom of a robust family are those of its law.
pub proof fn links_and_laws_agree(family: ResponseFamily, link: Link, law: PredictiveLaw)
    requires
        call_ensures(ResponseFamily::link, (&family,), link),
        call_ensures(ResponseFamily::predictive_law, (&family,), law),
    ensures
        link == Link::NormalCdf <==> law is Labels,
        law is Labels <==> family is BinaryProbit,
        law is Normal <==> family is Gaussian,
        law is StudentT <==> family is RobustT,
        family matches ResponseFamily::RobustT { df } ==> law->df == df,
{
}

/// Metrics that were set are in force as they were set; where none were, every column is
/// Euclidean.
pub proof fn metrics_default_to_euclidean(
    metrics: &Option<Vec<Metric>>,
    n_raw: usize,
    r: Vec<Metric>,
)
    requires
        call_ensures(effective_metrics, (metrics, n_raw), r),
    ensures
        metrics matches Some(list) ==> r@ == list@,
        metrics is None ==> r@.len() == n_raw && forall|i: int|
            0 <= i < r@.len() ==> #[trigger] r@[i] == Metric::Euclidean,
{
}

/// What an observation receives from a tessellation is the value of its cell, so two
/// observations in one cell receive the same.
pub proof fn contributions_depend_on_the_cell_alone(
    tessellation: &Tessellation,
    assignment: &[usize],
    r: Vec<Binary64>,
    i: int,
    k: int,
)
    requires
        call_ensures(cell_contributions, (tessellation, assignment), r),
        0 <= i < assignment@.len(),
        0 <= k < assignment@.len(),
    ensures
        r@.len() == assignment@.len(),
        r@[i] == tessellation@.mus[assignment@[i] as int],
        assignment@[i] == assignment@[k] ==> r@[i] == r@[k],
{
}

/// A row of draws holds, in the order of the draws, what each says about the
/// observation; sorting it keeps every value as often as it was drawn.
pub proof fn sorted_rows_hold_the_draws(
    per_draw: &Vec<Vec<Binary64>>,
    n: usize,
    r: Vec<Vec<Binary64>>,
    row: usize,
    drawn: Vec<Binary64>,
    value: Binary64,
)
    requires
        call_ensures(sorted_rows, (per_draw, n), r),
        call_ensures(gather_row, (per_draw, row), drawn),
        row < n,
    ensures
        r@.len() == n,
        drawn@.len() == per_draw@.len(),
        forall|d: int|
            0 <= d < per_draw@.len() ==> #[trigger] drawn@[d] == per_draw@[d]@[row as int],
        r@[row as int]@.to_multiset().count(value) == drawn@.to_multiset().count(value),
        forall|i: int, j: int|
            0 <= i < j < r@[row as int]@.len() ==> (#[trigger] r@[row as int]@[i]).total_rank() <= (
            #[trigger] r@[row as int]@[j]).total_rank(),
{
}

/// The cells of a draw are the assigner's own answers, one for each tessellation and in
/// their order; an error is the answer for one of them, and comes only where there is a
/// tessellation to ask for.
pub proof fn assignments_are_the_answers<A: CellAssigner>(
    assigner: &A,
    x: &Data,
    tessellations: &Vec<Tessellation>,
    r: Result<Vec<Vec<usize>>>,
)
    requires
        call_ensures(assign_draw::<A>, (assigner, x, tessellations), r),
    ensures
        r matches Ok(cells) ==> cells@.len() == tessellations@.len(),
        r matches Ok(cells) ==> forall|j: int|
            0 <= j < cells@.len() ==> call_ensures(
                A::assign_cells,
                (assigner, x, &tessellations@[j]),
                Ok(#[trigger] cells@[j]),
            ),
        r matches Err(error) ==> exists|j: int|
            0 <= j < tessellations@.len() && call_ensures(
                A::assign_cells,
                (assigner, x, &#[trigger] tessellations@[j]),
                Err(error),
            ),
        tessellations@.len() == 0 ==> r is Ok,
{
    if let Ok(cells) = r {
        assert forall|j: int| 0 <= j < cells@.len() implies call_ensures(
            A::assign_cells,
            (assigner, x, &tessellations@[j]),
            Ok(#[trigger] cells@[j]),
        ) by {
            assert(assigned(assigner, x, tessellations@[j], Ok(cells@[j])));
        }
    }
    if let Err(error) = r {
        let cells = choose|cells: Seq<Vec<usize>>|
            {
                &&& #[trigger] cells.len() < tessellations@.len()
                &&& forall|j: int|
                    0 <= j < cells.len() ==> assigned(
                        assigner,
                        x,
                        tessellations@[j],
                        Ok(#[trigger] cells[j]),
                    )
                &&& assigned(assigner, x, tessellations@[cells.len() as int], Err(error))
            };
        let j = cells.len() as int;
        assert(call_ensures(A::assign_cells, (assigner, x, &tessellations@[j]), Err(error)));
    }
}

/// The cells of a posterior are the assigner's own answers for every tessellation of every
/// draw, in their order.
pub proof fn posterior_assignments_are_the_answers<A: CellAssigner>(
    assigner: &A,
    x: &Data,
    posterior: &PosteriorSamples,
    r: Result<Vec<Vec<Vec<usize>>>>,
    d: int,
    j: int,
)
    requires
        call_ensures(assignments_by_draw::<A>, (assigner, x, posterior), r),
        r is Ok,
        0 <= d < posterior@.draws.len(),
    ensures
        (r->Ok_0)@.len() == posterior@.draws.len(),
        (r->Ok_0)@[d]@.len() == posterior@.draws[d]@.len(),
        0 <= j < posterior@.draws[d]@.len() ==> call_ensures(
            A::assign_cells,
            (assigner, x, &posterior@.draws[d]@[j]),
            Ok((r->Ok_0)@[d]@[j]),
        ),
{
    let cells = r->Ok_0;
    assert(draw_assigned(assigner, x, posterior@.draws[d]@, Ok(cells@[d])));
    if 0 <= j < posterior@.draws[d]@.len() {
        assert(assigned(assigner, x, posterior@.draws[d]@[j], Ok(cells@[d]@[j])));
    }
}

/// Quantile predictions are read back as they were put in.
pub proof fn quantiles_read_back(
    values: Vec<Binary64>,
    probs: Vec<Binary64>,
    n_rows: usize,
    p: QuantilePredictions,
    read_values: &[Binary64],
    read_probs: &[Binary64],
    read_rows: usize,
    parts: (Vec<Binary64>, Vec<Binary64>, usize),
)
    requires
        call_ensures(QuantilePredictions::new, (values, probs, n_rows), p),
        call_ensures(QuantilePredictions::values, (&p,), read_values),
        call_ensures(QuantilePredictions::probs, (&p,), read_probs),
        call_ensures(QuantilePredictions::n_rows, (&p,), read_rows),
        call_ensures(QuantilePredictions::into_parts, (p,), parts),
    ensures
        read_values@ == values@ && parts.0@ == values@,
        read_probs@ == probs@ && parts.1@ == probs@,
        read_rows == n_rows && parts.2 == n_rows,
{
}

/// Intervals are equal exactly where both ends are; quantiles where their shape,
/// probabilities and values are.
pub proof fn predictions_equal_number_by_number(
    c: (CredibleInterval, CredibleInterval, bool),
    p: (PredictionInterval, PredictionInterval, bool),
    q: (QuantilePredictions, QuantilePredictions, bool),
)
    requires
        call_ensures(CredibleInterval::equals, (&c.0, &c.1), c.2),
        call_ensures(PredictionInterval::equals, (&p.0, &p.1), p.2),
        call_ensures(QuantilePredictions::equals, (&q.0, &q.1), q.2),
    ensures
        c.2 <==> c.0.lower.same(c.1.lower) && c.0.upper.same(c.1.upper),
        p.2 <==> p.0.lower.same(p.1.lower) && p.0.upper.same(p.1.upper),
        q.2 <==> {
            let (a, b) = (q.0@, q.1@);
            &&& a.n_rows == b.n_rows
            &&& a.values.len() == b.values.len() && a.probs.len() == b.probs.len()
            &&& forall|i: int| 0 <= i < a.values.len() ==> (#[trigger] a.values[i]).same(b.values[i])
            &&& forall|i: int| 0 <= i < a.probs.len() ==> (#[trigger] a.probs[i]).same(b.probs[i])
        },
{
}

} // verus!
