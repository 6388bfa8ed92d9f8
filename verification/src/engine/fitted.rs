//! The fitted model, and its saved form.

use crate::binary64::{one, zero, Binary64};
use crate::engine::config::{
    accepted_settings, count_failure, default_config, lemma_accepted_settings, AddiVortesConfig,
};
use crate::engine::data::{
    all_finite, angles_lie_on_the_circle, predict_failure, validate_predict, Data, Matrix, Metric,
    Warning,
};
use crate::engine::error::{Failure, Result};
use crate::engine::model::ResponseFamily;
use crate::engine::posterior::{kept_failure, PosteriorSamples, SavedModelError};
use crate::engine::predict::{
    check_level, check_probs, check_response, effective_metrics, is_label, metrics_in_force,
    probs_failure, response_failure,
};
use crate::engine::tessellation::Tessellation;
use crate::message::{text, Message, Style, Text};
use crate::search::{first, lemma_first_holds, lemma_first_is, lemma_first_none};
use crate::value::Value;
use vstd::prelude::*;

verus! {

/// The fitted encoding: for each raw column its levels where it is one-hot encoded,
/// for each encoded column its metric, its raw column and its range, and the range of
/// the response.
#[derive(Debug)]
pub struct FittedScaler {
    levels: Vec<Option<Vec<Binary64>>>,
    metrics: Vec<Metric>,
    col_map: Vec<usize>,
    ranges: Vec<(Binary64, Binary64)>,
    y_min: Binary64,
    y_max: Binary64,
}

/// The mathematical model of a [`FittedScaler`].
pub struct Encoding {
    /// The levels of each raw column that is one-hot encoded.
    pub levels: Seq<Option<Vec<Binary64>>>,
    /// The metric of each encoded column.
    pub metrics: Seq<Metric>,
    /// The raw column of each encoded column.
    pub col_map: Seq<usize>,
    /// The smallest and the largest value of each encoded column.
    pub ranges: Seq<(Binary64, Binary64)>,
    /// The smallest response.
    pub y_min: Binary64,
    /// The largest response.
    pub y_max: Binary64,
}

impl View for FittedScaler {
    type V = Encoding;

    closed spec fn view(&self) -> Encoding {
        Encoding {
            levels: self.levels@,
            metrics: self.metrics@,
            col_map: self.col_map@,
            ranges: self.ranges@,
            y_min: self.y_min,
            y_max: self.y_max,
        }
    }
}

/// How many encoded columns raw column `c` has.
pub open spec fn width(levels: Seq<Option<Vec<Binary64>>>, c: int) -> nat {
    match levels[c] {
        Some(list) => list@.len(),
        None => 1,
    }
}

/// How many encoded columns the first `c` raw columns have.
pub open spec fn offset(levels: Seq<Option<Vec<Binary64>>>, c: nat) -> nat
    decreases c,
{
    if c == 0 {
        0
    } else {
        offset(levels, (c - 1) as nat) + width(levels, c - 1)
    }
}

/// The raw column of each encoded column, in place, of the first `c` raw columns.
pub open spec fn expansion(levels: Seq<Option<Vec<Binary64>>>, c: nat) -> Seq<int>
    decreases c,
{
    if c == 0 {
        Seq::empty()
    } else {
        expansion(levels, (c - 1) as nat) + Seq::new(width(levels, c - 1), |k: int| c - 1)
    }
}

impl Encoding {
    /// The column map expands every raw column in place, and every encoded column has
    /// a metric and a range.
    pub open spec fn coherent(self) -> bool {
        let n = self.levels.len();
        &&& self.metrics.len() == self.col_map.len()
        &&& self.ranges.len() == self.col_map.len()
        &&& self.col_map.len() == offset(self.levels, n)
        &&& forall|i: int|
            0 <= i < self.col_map.len() ==> #[trigger] self.col_map[i] == expansion(
                self.levels,
                n,
            )[i]
    }

    /// The same encoding, number for number.
    pub open spec fn copy_of(self, other: Self) -> bool {
        &&& self.levels.len() == other.levels.len()
        &&& forall|c: int| 0 <= c < self.levels.len() ==> (#[trigger] self.levels[c]).copy_of(
            other.levels[c],
        )
        &&& self.metrics == other.metrics
        &&& self.col_map == other.col_map
        &&& self.ranges == other.ranges
        &&& self.y_min == other.y_min
        &&& self.y_max == other.y_max
    }

    /// The metric of raw column `c`: categorical where it has levels, else that of its
    /// encoded column.
    pub open spec fn raw_metric(self, c: int) -> Metric {
        match self.levels[c] {
            Some(_) => Metric::Categorical,
            None => self.metrics[offset(self.levels, c as nat) as int],
        }
    }

    /// The metrics of the raw columns.
    pub open spec fn raw_metrics(self) -> Seq<Metric> {
        Seq::new(self.levels.len(), |c: int| self.raw_metric(c))
    }
}

/// The expansion is as long as there are encoded columns.
proof fn lemma_expansion_len(levels: Seq<Option<Vec<Binary64>>>, c: nat)
    ensures
        expansion(levels, c).len() == offset(levels, c),
    decreases c,
{
    if c > 0 {
        lemma_expansion_len(levels, (c - 1) as nat);
    }
}

/// Raw columns of the same widths are expanded in the same way.
proof fn lemma_same_widths(
    a: Seq<Option<Vec<Binary64>>>,
    b: Seq<Option<Vec<Binary64>>>,
    c: nat,
)
    requires
        c <= a.len(),
        a.len() == b.len(),
        forall|i: int| 0 <= i < a.len() ==> (#[trigger] a[i]).copy_of(b[i]),
    ensures
        offset(a, c) == offset(b, c),
        expansion(a, c) == expansion(b, c),
    decreases c,
{
    if c > 0 {
        lemma_same_widths(a, b, (c - 1) as nat);
        assert(a[c - 1].copy_of(b[c - 1]));
        assert(width(a, c - 1) == width(b, c - 1));
        assert(expansion(a, c) =~= expansion(b, c));
    }
}

/// Every entry of the expansion names a raw column.
proof fn lemma_expansion_range(levels: Seq<Option<Vec<Binary64>>>, c: nat, i: int)
    requires
        0 <= i < expansion(levels, c).len(),
    ensures
        0 <= expansion(levels, c)[i] < c,
    decreases c,
{
    if c > 0 {
        let before = expansion(levels, (c - 1) as nat);
        if i < before.len() {
            lemma_expansion_range(levels, (c - 1) as nat, i);
        }
    }
}

/// Fewer raw columns have no more encoded columns.
proof fn lemma_offset_grows(levels: Seq<Option<Vec<Binary64>>>, a: nat, b: nat)
    requires
        a <= b,
    ensures
        offset(levels, a) <= offset(levels, b),
    decreases b,
{
    if a < b {
        lemma_offset_grows(levels, a, (b - 1) as nat);
    }
}

/// The expansion of fewer raw columns starts the expansion of more.
proof fn lemma_expansion_prefix(levels: Seq<Option<Vec<Binary64>>>, a: nat, b: nat, i: int)
    requires
        a <= b,
        0 <= i < expansion(levels, a).len(),
    ensures
        i < expansion(levels, b).len(),
        expansion(levels, b)[i] == expansion(levels, a)[i],
    decreases b,
{
    if a < b {
        lemma_expansion_prefix(levels, a, (b - 1) as nat, i);
    }
}

/// Why the parts form no encoding.
pub open spec fn encoding_reason() -> Text {
    text("the column map does not match the encoding"@)
}

/// Does the column map expand every raw column in place?
fn is_expansion(levels: &Vec<Option<Vec<Binary64>>>, col_map: &Vec<usize>) -> (r: bool)
    ensures
        r == (col_map@.len() == offset(levels@, levels@.len()) && forall|i: int|
            0 <= i < col_map@.len() ==> #[trigger] col_map@[i] == expansion(
                levels@,
                levels@.len(),
            )[i]),
{
    let ghost whole = expansion(levels@, levels@.len());
    proof {
        lemma_expansion_len(levels@, levels@.len());
    }
    let mut at: usize = 0;
    for c in 0..levels.len()
        invariant
            whole == expansion(levels@, levels@.len()),
            whole.len() == offset(levels@, levels@.len()),
            at == offset(levels@, c as nat),
            at <= col_map@.len(),
            forall|i: int| 0 <= i < at ==> #[trigger] col_map@[i] == whole[i],
    {
        let wide: usize = match &levels[c] {
            Some(list) => list.len(),
            None => 1,
        };
        let ghost start = at;
        proof {
            lemma_offset_grows(levels@, (c + 1) as nat, levels@.len());
            lemma_expansion_len(levels@, (c + 1) as nat);
            lemma_expansion_len(levels@, c as nat);
        }
        for k in 0..wide
            invariant
                c < levels@.len(),
                whole == expansion(levels@, levels@.len()),
                whole.len() == offset(levels@, levels@.len()),
                wide == width(levels@, c as int),
                start == offset(levels@, c as nat),
                offset(levels@, (c + 1) as nat) == start + wide,
                offset(levels@, (c + 1) as nat) <= whole.len(),
                expansion(levels@, (c + 1) as nat).len() == start + wide,
                expansion(levels@, c as nat).len() == start,
                at == start + k,
                at <= col_map@.len(),
                forall|i: int| 0 <= i < at ==> #[trigger] col_map@[i] == whole[i],
        {
            proof {
                lemma_expansion_prefix(levels@, (c + 1) as nat, levels@.len(), at as int);
                assert(expansion(levels@, (c + 1) as nat)[at as int] == c);
                assert(col_map@.len() == col_map.len());
            }
            if at >= col_map.len() || col_map[at] != c {
                if at < col_map.len() {
                    assert(col_map@[at as int] != whole[at as int]);
                }
                return false;
            }
            at = at + 1;
        }
    }
    at == col_map.len()
}

impl FittedScaler {
    #[verifier::type_invariant]
    spec fn is_coherent(self) -> bool {
        Encoding {
            levels: self.levels@,
            metrics: self.metrics@,
            col_map: self.col_map@,
            ranges: self.ranges@,
            y_min: self.y_min,
            y_max: self.y_max,
        }.coherent()
    }

    /// An encoding of the given parts: the column map expands every raw column in
    /// place, and every encoded column has a metric and a range.
    pub fn new(
        levels: Vec<Option<Vec<Binary64>>>,
        metrics: Vec<Metric>,
        col_map: Vec<usize>,
        ranges: Vec<(Binary64, Binary64)>,
        y_min: Binary64,
        y_max: Binary64,
    ) -> (r: core::result::Result<Self, SavedModelError>)
        ensures
            ({
                let parts = Encoding {
                    levels: levels@,
                    metrics: metrics@,
                    col_map: col_map@,
                    ranges: ranges@,
                    y_min,
                    y_max,
                };
                match r {
                    Ok(scaler) => parts.coherent() && scaler@ == parts,
                    Err(e) => !parts.coherent() && e.reason@ == encoding_reason(),
                }
            }),
    {
        if metrics.len() != col_map.len() || ranges.len() != col_map.len() || !is_expansion(&levels, &col_map) {
            return Err(
                SavedModelError {
                    reason: Message::of("the column map does not match the encoding"),
                },
            );
        }
        Ok(FittedScaler { levels, metrics, col_map, ranges, y_min, y_max })
    }

    /// Number of raw columns.
    pub fn n_raw_cols(&self) -> (r: usize)
        ensures
            r == self@.levels.len(),
            self@.coherent(),
    {
        proof {
            use_type_invariant(self);
        }
        self.levels.len()
    }

    /// Number of encoded columns.
    pub fn n_encoded_cols(&self) -> (r: usize)
        ensures
            r == self@.metrics.len(),
            self@.coherent(),
    {
        proof {
            use_type_invariant(self);
        }
        self.metrics.len()
    }

    /// The metric of each encoded column.
    pub fn metrics(&self) -> (r: &Vec<Metric>)
        ensures
            r@ == self@.metrics,
    {
        &self.metrics
    }

    /// The raw column of each encoded column.
    pub fn col_map(&self) -> (r: &Vec<usize>)
        ensures
            r@ == self@.col_map,
            self@.coherent(),
    {
        proof {
            use_type_invariant(self);
        }
        &self.col_map
    }

    /// The smallest and the largest value of each encoded column.
    pub fn ranges(&self) -> (r: &Vec<(Binary64, Binary64)>)
        ensures
            r@ == self@.ranges,
    {
        &self.ranges
    }

    /// The levels of a raw column, where it is one-hot encoded.
    pub fn levels(&self, col: usize) -> (r: &Option<Vec<Binary64>>)
        requires
            col < self@.levels.len(),
        ensures
            *r == self@.levels[col as int],
    {
        &self.levels[col]
    }

    /// The smallest response.
    pub fn y_min(&self) -> (r: Binary64)
        ensures
            r == self@.y_min,
    {
        self.y_min
    }

    /// The largest response.
    pub fn y_max(&self) -> (r: Binary64)
        ensures
            r == self@.y_max,
    {
        self.y_max
    }

    /// The metrics of the raw columns.
    pub fn raw_metrics(&self) -> (r: Vec<Metric>)
        ensures
            r@ == self@.raw_metrics(),
    {
        proof {
            use_type_invariant(self);
        }
        let ghost e = self@;
        let mut derived: Vec<Metric> = Vec::new();
        let mut at: usize = 0;
        for c in 0..self.levels.len()
            invariant
                e == self@,
                e.coherent(),
                e.levels == self.levels@,
                e.metrics == self.metrics@,
                at == offset(e.levels, c as nat),
                derived@.len() == c,
                forall|k: int| 0 <= k < c ==> derived@[k] == e.raw_metric(k),
        {
            proof {
                lemma_offset_grows(e.levels, (c + 1) as nat, e.levels.len());
                assert(self.metrics@.len() == self.metrics.len());
            }
            match &self.levels[c] {
                Some(list) => {
                    derived.push(Metric::Categorical);
                    at = at + list.len();
                },
                None => {
                    derived.push(self.metrics[at]);
                    at = at + 1;
                },
            }
        }
        assert(derived@ =~= e.raw_metrics());
        derived
    }
}

impl Clone for FittedScaler {
    fn clone(&self) -> (r: Self)
        ensures
            r@.copy_of(self@),
    {
        proof {
            use_type_invariant(self);
        }
        let levels = self.levels.duplicate();
        let metrics = self.metrics.duplicate();
        let col_map = self.col_map.duplicate();
        let ranges = self.ranges.duplicate();
        proof {
            assert(metrics@ =~= self.metrics@);
            assert(col_map@ =~= self.col_map@);
            assert forall|i: int| 0 <= i < ranges@.len() implies ranges@[i] == self.ranges@[i] by {
                assert(ranges@[i].copy_of(self.ranges@[i]));
            }
            assert(ranges@ =~= self.ranges@);
            lemma_same_widths(levels@, self.levels@, levels@.len());
        }
        FittedScaler { levels, metrics, col_map, ranges, y_min: self.y_min, y_max: self.y_max }
    }
}

/// Every encoded column belongs to a raw column.
pub proof fn column_map_stays_in_range(e: Encoding, i: int)
    requires
        e.coherent(),
        0 <= i < e.col_map.len(),
    ensures
        e.col_map[i] < e.levels.len(),
{
    lemma_expansion_len(e.levels, e.levels.len());
    lemma_expansion_range(e.levels, e.levels.len(), i);
    assert(e.col_map[i] == expansion(e.levels, e.levels.len())[i]);
}

/// A fitted model: the posterior, the encoding and the configuration. The training
/// data is not retained.
#[derive(Debug)]
pub struct FittedAddiVortes {
    /// The kept draws.
    pub posterior: PosteriorSamples,
    /// The fitted encoding.
    pub scaler: FittedScaler,
    /// The configuration of the fit.
    pub config: AddiVortesConfig,
    /// Was a component chosen explicitly at the fit?
    pub custom_components: bool,
    /// What the fit warned of.
    pub warnings: Vec<Warning>,
    /// The error of the mean prediction on the training response.
    pub in_sample_rmse: Binary64,
}

impl FittedAddiVortes {
    /// The same model, number for number.
    pub open spec fn copy_of(self, other: Self) -> bool {
        &&& self.posterior@.copy_of(other.posterior@)
        &&& self.scaler@.copy_of(other.scaler@)
        &&& self.config.copy_of(other.config)
        &&& self.custom_components == other.custom_components
        &&& self.warnings@ == other.warnings@
        &&& self.in_sample_rmse == other.in_sample_rmse
    }
}

impl Clone for FittedAddiVortes {
    fn clone(&self) -> (r: Self)
        ensures
            r.copy_of(*self),
    {
        let warnings = self.warnings.duplicate();
        assert(warnings@ =~= self.warnings@);
        FittedAddiVortes {
            posterior: self.posterior.clone(),
            scaler: self.scaler.clone(),
            config: self.config.clone(),
            custom_components: self.custom_components,
            warnings,
            in_sample_rmse: self.in_sample_rmse,
        }
    }
}

/// What a sampler hands over once its sweeps are kept.
#[derive(Debug)]
pub struct FittedParts {
    /// The fitted encoding.
    pub scaler: FittedScaler,
    /// The configuration of the fit.
    pub config: AddiVortesConfig,
    /// Was a component chosen explicitly?
    pub custom_components: bool,
    /// What the fit warned of.
    pub warnings: Vec<Warning>,
}

/// The model holds the kept sweeps and the parts that were handed over; its training
/// error is zero until it is known.
pub open spec fn packaged(
    parts: FittedParts,
    sigma_sqs: Seq<Binary64>,
    draws: Seq<Vec<Tessellation>>,
    model: FittedAddiVortes,
) -> bool {
    &&& model.posterior@.sigma_sqs == sigma_sqs
    &&& model.posterior@.draws == draws
    &&& model.scaler == parts.scaler
    &&& model.config == parts.config
    &&& model.custom_components == parts.custom_components
    &&& model.warnings == parts.warnings
    &&& model.in_sample_rmse == zero()
}

/// The failure of a prediction input of the model, where it has one.
pub open spec fn input_failure(model: FittedAddiVortes, x: Matrix) -> Option<Failure> {
    let n_raw = model.scaler@.levels.len();
    predict_failure(x, n_raw as usize, metrics_in_force(model.config.metrics, n_raw))
}

/// The failure of an interval level.
pub open spec fn level_failure(level: Binary64) -> Option<Failure> {
    if level.in_open_unit() {
        None
    } else {
        Some(Failure::InvalidQuantileProb { value: level })
    }
}

/// The first of two failures.
pub open spec fn earlier(a: Option<Failure>, b: Option<Failure>) -> Option<Failure> {
    if a is Some {
        a
    } else {
        b
    }
}

impl FittedAddiVortes {
    /// Package kept sweeps as a model, or refuse them: none, or not one variance per
    /// sweep. The training error is zero until it is known.
    pub fn from_parts(
        parts: FittedParts,
        sigma_sqs: Vec<Binary64>,
        draws: Vec<Vec<Tessellation>>,
    ) -> (r: Result<Self>)
        ensures
            match r {
                Ok(model) => {
                    &&& kept_failure(sigma_sqs@.len() as int, draws@.len() as int) is None
                    &&& packaged(parts, sigma_sqs@, draws@, model)
                },
                Err(e) => kept_failure(sigma_sqs@.len() as int, draws@.len() as int) == Some(e@),
            },
    {
        match PosteriorSamples::from_kept(sigma_sqs, draws) {
            Err(e) => Err(e),
            Ok(posterior) => Ok(
                FittedAddiVortes {
                    posterior,
                    scaler: parts.scaler,
                    config: parts.config,
                    custom_components: parts.custom_components,
                    warnings: parts.warnings,
                    in_sample_rmse: zero(),
                },
            ),
        }
    }

    /// The kept draws.
    pub fn posterior(&self) -> (r: &PosteriorSamples)
        ensures
            *r == self.posterior,
    {
        &self.posterior
    }

    /// The fitted encoding.
    pub fn scaler(&self) -> (r: &FittedScaler)
        ensures
            *r == self.scaler,
    {
        &self.scaler
    }

    /// The configuration of the fit.
    pub fn config(&self) -> (r: &AddiVortesConfig)
        ensures
            *r == self.config,
    {
        &self.config
    }

    /// What the fit warned of.
    pub fn warnings(&self) -> (r: &[Warning])
        ensures
            r@ == self.warnings@,
    {
        self.warnings.as_slice()
    }

    /// The error of the mean prediction on the training response.
    pub fn in_sample_rmse(&self) -> (r: Binary64)
        ensures
            r == self.in_sample_rmse,
    {
        self.in_sample_rmse
    }

    /// The posterior and the encoding.
    pub fn into_parts(self) -> (r: (PosteriorSamples, FittedScaler))
        ensures
            r.0 == self.posterior,
            r.1 == self.scaler,
    {
        (self.posterior, self.scaler)
    }

    /// The checks that a prediction input passes before it is encoded: as many columns
    /// as the model was fitted on, finite features, features in their domains. An
    /// input without rows is valid.
    pub fn check_input(&self, x: &Data) -> (r: Result<()>)
        ensures
            match r {
                Ok(_) => input_failure(*self, x@) is None,
                Err(e) => input_failure(*self, x@) == Some(e@),
            },
    {
        let n_raw: usize = self.scaler.n_raw_cols();
        let metrics = effective_metrics(&self.config.metrics, n_raw);
        validate_predict(x, n_raw, metrics.as_slice())
    }

    /// The checks before quantiles are predicted: the probabilities, then the input.
    pub fn check_quantiles(&self, x: &Data, probs: &[Binary64]) -> (r: Result<()>)
        ensures
            ({
                let failure = earlier(probs_failure(probs@), input_failure(*self, x@));
                match r {
                    Ok(_) => failure is None,
                    Err(e) => failure == Some(e@),
                }
            }),
    {
        match check_probs(probs) {
            Err(e) => Err(e),
            Ok(()) => self.check_input(x),
        }
    }

    /// The checks before an interval is predicted: the level, then the input.
    pub fn check_interval(&self, x: &Data, level: Binary64) -> (r: Result<()>)
        ensures
            ({
                let failure = earlier(level_failure(level), input_failure(*self, x@));
                match r {
                    Ok(_) => failure is None,
                    Err(e) => failure == Some(e@),
                }
            }),
    {
        match check_level(level) {
            Err(e) => Err(e),
            Ok(()) => self.check_input(x),
        }
    }

    /// The checks before a response is scored: the response against the rows and the
    /// family, then the input.
    pub fn check_scoring(&self, x: &Data, y: &[Binary64]) -> (r: Result<()>)
        ensures
            ({
                let failure = earlier(
                    response_failure(y@, x@.n_rows, self.config.family),
                    input_failure(*self, x@),
                );
                match r {
                    Ok(_) => failure is None,
                    Err(e) => failure == Some(e@),
                }
            }),
    {
        match check_response(y, x.n_rows(), self.config.family) {
            Err(e) => Err(e),
            Ok(()) => self.check_input(x),
        }
    }
}

/// The saved form of a model: the plain settings and the parts.
#[derive(Debug)]
pub struct SavedModel {
    /// The version of the layout.
    pub format: u32,
    /// See the setting of the same name.
    pub seed: u64,
    /// See the setting of the same name.
    pub m: usize,
    /// See the setting of the same name.
    pub nu: Binary64,
    /// See the setting of the same name.
    pub q: Binary64,
    /// See the setting of the same name.
    pub k: Binary64,
    /// See the setting of the same name.
    pub sigma_c: Binary64,
    /// See the setting of the same name.
    pub omega: Binary64,
    /// See the setting of the same name.
    pub lambda_c: Binary64,
    /// See the setting of the same name.
    pub burn_in: usize,
    /// See the setting of the same name.
    pub n_draws: usize,
    /// See the setting of the same name.
    pub thinning: usize,
    /// See the setting of the same name.
    pub metrics: Option<Vec<Metric>>,
    /// The response family; the first layout has none and means Gaussian.
    pub family: ResponseFamily,
    /// The kept draws.
    pub posterior: PosteriorSamples,
    /// The fitted encoding.
    pub scaler: FittedScaler,
    /// What the fit warned of.
    pub warnings: Vec<Warning>,
    /// The error of the mean prediction on the training response.
    pub in_sample_rmse: Binary64,
}

/// The version of the layout that is written.
pub const FORMAT: u32 = 2;

/// Is a component of the configuration not the built-in one, or the cell-value spread
/// set directly?
pub open spec fn has_component(c: AddiVortesConfig) -> bool {
    c.move_set is Some || c.coords is Some || c.assigner is Some || c.membership is Some
        || c.inclusion is Some || c.cell_model is Some || c.basis is Some || c.response_model
        is Some || c.scale_model is Some || c.count_priors is Some || c.cell_prior_sd is Some
}

/// Must the model not be saved?
pub open spec fn unportable(model: FittedAddiVortes) -> bool {
    model.custom_components || has_component(model.config)
}

/// Why a model with components of its own cannot be saved.
pub open spec fn refusal() -> Text {
    text(
        "a model fitted with custom extension points cannot be serialised (trait objects have no portable form); persist its into_parts() values and rebuild in code instead"@,
    )
}

/// The saved form of a model.
pub open spec fn saved_form(model: FittedAddiVortes) -> SavedModel {
    SavedModel {
        format: FORMAT,
        seed: model.config.seed,
        m: model.config.m,
        nu: model.config.nu,
        q: model.config.q,
        k: model.config.k,
        sigma_c: model.config.sigma_c,
        omega: model.config.omega,
        lambda_c: model.config.lambda_c,
        burn_in: model.config.burn_in,
        n_draws: model.config.n_draws,
        thinning: model.config.thinning,
        metrics: model.config.metrics,
        family: model.config.family,
        posterior: model.posterior,
        scaler: model.scaler,
        warnings: model.warnings,
        in_sample_rmse: model.in_sample_rmse,
    }
}

impl FittedAddiVortes {
    /// The saved form, or why there is none: a component that lives outside the
    /// library has no portable form.
    pub fn into_saved(self) -> (r: core::result::Result<SavedModel, Message>)
        ensures
            match r {
                Ok(saved) => !unportable(self) && saved == saved_form(self),
                Err(reason) => unportable(self) && reason@ == refusal(),
            },
    {
        let c = self.config;
        let custom = self.custom_components || c.move_set.is_some() || c.coords.is_some()
            || c.assigner.is_some() || c.membership.is_some() || c.inclusion.is_some()
            || c.cell_model.is_some() || c.basis.is_some() || c.response_model.is_some()
            || c.scale_model.is_some() || c.count_priors.is_some() || c.cell_prior_sd.is_some();
        if custom {
            return Err(
                Message::of(
                    "a model fitted with custom extension points cannot be serialised (trait objects have no portable form); persist its into_parts() values and rebuild in code instead",
                ),
            );
        }
        Ok(
            SavedModel {
                format: FORMAT,
                seed: c.seed,
                m: c.m,
                nu: c.nu,
                q: c.q,
                k: c.k,
                sigma_c: c.sigma_c,
                omega: c.omega,
                lambda_c: c.lambda_c,
                burn_in: c.burn_in,
                n_draws: c.n_draws,
                thinning: c.thinning,
                metrics: c.metrics,
                family: c.family,
                posterior: self.posterior,
                scaler: self.scaler,
                warnings: self.warnings,
                in_sample_rmse: self.in_sample_rmse,
            },
        )
    }
}

/// The first dimension of a tessellation that no encoded column stands for.
pub open spec fn outside_dim(t: Tessellation, p_enc: nat) -> Option<int> {
    first(t@.dims.len(), |i: int| t@.dims[i] >= p_enc)
}

/// The first tessellation of a draw with such a dimension.
pub open spec fn outside_tessellation(draw: Seq<Tessellation>, p_enc: nat) -> Option<int> {
    first(draw.len(), |t: int| outside_dim(draw[t], p_enc) is Some)
}

/// The first draw with such a tessellation.
pub open spec fn outside_draw(draws: Seq<Vec<Tessellation>>, p_enc: nat) -> Option<int> {
    first(draws.len(), |d: int| outside_tessellation(draws[d]@, p_enc) is Some)
}

/// The first dimension of a draw that no encoded column stands for.
pub open spec fn outside_value(draw: Seq<Tessellation>, p_enc: nat) -> int {
    let t = outside_tessellation(draw, p_enc)->0;
    let i = outside_dim(draw[t], p_enc)->0;
    draw[t]@.dims[i] as int
}

/// Do the saved metrics agree with the encoding? None mean that all are Euclidean.
pub open spec fn metrics_agree(metrics: Option<Vec<Metric>>, e: Encoding) -> bool {
    match metrics {
        Some(list) => list@ == e.raw_metrics(),
        None => forall|c: int|
            0 <= c < e.levels.len() ==> #[trigger] e.raw_metric(c) == Metric::Euclidean,
    }
}

/// The configuration of a saved model.
pub open spec fn saved_config(saved: SavedModel) -> AddiVortesConfig {
    AddiVortesConfig {
        m: saved.m,
        nu: saved.nu,
        q: saved.q,
        k: saved.k,
        sigma_c: saved.sigma_c,
        omega: saved.omega,
        lambda_c: saved.lambda_c,
        burn_in: saved.burn_in,
        n_draws: saved.n_draws,
        thinning: saved.thinning,
        metrics: saved.metrics,
        family: saved.family,
        ..default_config(saved.seed)
    }
}

/// Why a saved model cannot be loaded, where it cannot: the parts are held against each
/// other in this order.
pub open spec fn load_fault(saved: SavedModel) -> Option<Text> {
    let draws = saved.posterior@.draws;
    let p_enc = saved.scaler@.metrics.len();
    if saved.format != 1 && saved.format != FORMAT {
        Some(
            text("format "@).count(saved.format as int).text(
                " is not supported (this version reads formats 1 and 2)"@,
            ),
        )
    } else if !saved.in_sample_rmse.non_negative_finite() {
        Some(text("in-sample RMSE must be finite and non-negative"@))
    } else if saved.family is RobustT && !(saved.family->df).positive_finite() {
        Some(text("RobustT needs finite df > 0; found "@).number(saved.family->df, Style::Plain))
    } else if outside_draw(draws, p_enc) is Some {
        let d = outside_draw(draws, p_enc)->0;
        Some(
            text("draw "@).count(d).text(" uses covariate "@).count(
                outside_value(draws[d]@, p_enc),
            ).text(" but the scaler encodes "@).count(p_enc as int).text(" columns"@),
        )
    } else if draws[0]@.len() != saved.m {
        Some(
            text("the posterior holds "@).count(draws[0]@.len() as int).text(
                " tessellations per draw but m = "@,
            ).count(saved.m as int),
        )
    } else if draws.len() != saved.n_draws {
        Some(
            text("the posterior holds "@).count(draws.len() as int).text(
                " draws but the configuration says "@,
            ).count(saved.n_draws as int),
        )
    } else if !metrics_agree(saved.metrics, saved.scaler@) {
        Some(text("the metric list does not match the scaler's encoding"@))
    } else {
        match saved_config(saved).failure() {
            Some(e) => Some(text("saved hyperparameters are invalid: "@).then_text(e.message())),
            None => None,
        }
    }
}

/// The model that a saved one is loaded as.
pub open spec fn loaded(saved: SavedModel) -> FittedAddiVortes {
    FittedAddiVortes {
        posterior: saved.posterior,
        scaler: saved.scaler,
        config: saved_config(saved),
        custom_components: false,
        warnings: saved.warnings,
        in_sample_rmse: saved.in_sample_rmse,
    }
}

/// The first dimension of a tessellation that no encoded column stands for.
fn find_outside_dim(t: &Tessellation, p_enc: usize) -> (r: Option<usize>)
    ensures
        match outside_dim(*t, p_enc as nat) {
            Some(i) => r == Some(t@.dims[i]),
            None => r is None,
        },
{
    let dims = t.dims();
    let ghost bad = |i: int| t@.dims[i] >= p_enc as nat;
    for i in 0..dims.len()
        invariant
            dims@ == t@.dims,
            bad == (|i: int| t@.dims[i] >= p_enc as nat),
            forall|j: int| 0 <= j < i ==> !#[trigger] bad(j),
    {
        if dims[i] >= p_enc {
            proof {
                assert(bad(i as int));
                lemma_first_is(dims@.len(), bad, i as int);
            }
            return Some(dims[i]);
        }
        assert(!bad(i as int));
    }
    proof {
        lemma_first_none(dims@.len(), bad);
    }
    None
}

/// The first dimension of a draw that no encoded column stands for.
fn find_outside_value(draw: &Vec<Tessellation>, p_enc: usize) -> (r: Option<usize>)
    ensures
        match outside_tessellation(draw@, p_enc as nat) {
            Some(_) => r is Some && r->0 == outside_value(draw@, p_enc as nat),
            None => r is None,
        },
{
    let ghost bad = |t: int| outside_dim(draw@[t], p_enc as nat) is Some;
    for t in 0..draw.len()
        invariant
            bad == (|t: int| outside_dim(draw@[t], p_enc as nat) is Some),
            forall|j: int| 0 <= j < t ==> !#[trigger] bad(j),
    {
        if let Some(dim) = find_outside_dim(&draw[t], p_enc) {
            proof {
                assert(bad(t as int));
                lemma_first_is(draw@.len(), bad, t as int);
            }
            return Some(dim);
        }
        assert(!bad(t as int));
    }
    proof {
        lemma_first_none(draw@.len(), bad);
    }
    None
}

/// The first draw with a dimension that no encoded column stands for, and that
/// dimension.
fn find_outside(posterior: &PosteriorSamples, p_enc: usize) -> (r: Option<(usize, usize)>)
    ensures
        match outside_draw(posterior@.draws, p_enc as nat) {
            Some(d) => {
                &&& r is Some
                &&& (r->0).0 == d
                &&& (r->0).1 == outside_value(posterior@.draws[d]@, p_enc as nat)
            },
            None => r is None,
        },
{
    let ghost draws = posterior@.draws;
    let ghost bad = |d: int| outside_tessellation(draws[d]@, p_enc as nat) is Some;
    let n: usize = posterior.n_draws();
    for d in 0..n
        invariant
            n == draws.len(),
            draws == posterior@.draws,
            bad == (|d: int| outside_tessellation(draws[d]@, p_enc as nat) is Some),
            forall|j: int| 0 <= j < d ==> !#[trigger] bad(j),
    {
        if let Some(dim) = find_outside_value(posterior.tessellations(d), p_enc) {
            proof {
                assert(bad(d as int));
                lemma_first_is(draws.len(), bad, d as int);
            }
            return Some((d, dim));
        }
        assert(!bad(d as int));
    }
    proof {
        lemma_first_none(draws.len(), bad);
    }
    None
}

/// Do the saved metrics agree with the encoding?
fn do_metrics_agree(metrics: &Option<Vec<Metric>>, scaler: &FittedScaler) -> (r: bool)
    ensures
        r == metrics_agree(*metrics, scaler@),
{
    let derived = scaler.raw_metrics();
    let ghost e = scaler@;
    match metrics {
        Some(list) => same_metric_list(list, &derived),
        None => is_all_euclidean(&derived, Ghost(e)),
    }
}

/// Do the two lists hold the same metrics?
fn same_metric_list(a: &Vec<Metric>, b: &Vec<Metric>) -> (r: bool)
    ensures
        r == (a@ == b@),
{
    if a.len() != b.len() {
        return false;
    }
    for i in 0..a.len()
        invariant
            a@.len() == b@.len(),
            forall|j: int| 0 <= j < i ==> a@[j] == b@[j],
    {
        if a[i] != b[i] {
            return false;
        }
    }
    assert(a@ =~= b@);
    true
}

/// Are all raw columns Euclidean?
fn is_all_euclidean(derived: &Vec<Metric>, Ghost(e): Ghost<Encoding>) -> (r: bool)
    requires
        derived@ == e.raw_metrics(),
    ensures
        r == forall|c: int|
            0 <= c < e.levels.len() ==> #[trigger] e.raw_metric(c) == Metric::Euclidean,
{
    for c in 0..derived.len()
        invariant
            derived@ == e.raw_metrics(),
            forall|k: int| 0 <= k < c ==> #[trigger] e.raw_metric(k) == Metric::Euclidean,
    {
        assert(derived@[c as int] == e.raw_metric(c as int));
        if derived[c] != Metric::Euclidean {
            return false;
        }
    }
    true
}

/// Hold the parts of a saved model against each other, and put together a model that
/// can predict; or say why the saved model cannot be loaded. Each part has been
/// validated on its own already.
pub fn rebuild(saved: SavedModel) -> (r: core::result::Result<FittedAddiVortes, SavedModelError>)
    ensures
        match r {
            Ok(model) => load_fault(saved) is None && model == loaded(saved),
            Err(e) => load_fault(saved) == Some(e.reason@),
        },
{
    if saved.format != 1 && saved.format != FORMAT {
        return Err(
            SavedModelError {
                reason: Message::of("format ").count(saved.format as usize).text(
                    " is not supported (this version reads formats 1 and 2)",
                ),
            },
        );
    }
    if !saved.in_sample_rmse.is_non_negative_finite() {
        return Err(
            SavedModelError {
                reason: Message::of("in-sample RMSE must be finite and non-negative"),
            },
        );
    }
    if let ResponseFamily::RobustT { df } = saved.family {
        if !df.is_positive_finite() {
            return Err(
                SavedModelError {
                    reason: Message::of("RobustT needs finite df > 0; found ").number(
                        df,
                        Style::Plain,
                    ),
                },
            );
        }
    }
    let p_enc: usize = saved.scaler.n_encoded_cols();
    if let Some((d, dim)) = find_outside(&saved.posterior, p_enc) {
        return Err(
            SavedModelError {
                reason: Message::of("draw ").count(d).text(" uses covariate ").count(dim).text(
                    " but the scaler encodes ",
                ).count(p_enc).text(" columns"),
            },
        );
    }
    let n_draws: usize = saved.posterior.n_draws();
    let per_draw: usize = saved.posterior.tessellations(0).len();
    if per_draw != saved.m {
        return Err(
            SavedModelError {
                reason: Message::of("the posterior holds ").count(per_draw).text(
                    " tessellations per draw but m = ",
                ).count(saved.m),
            },
        );
    }
    if n_draws != saved.n_draws {
        return Err(
            SavedModelError {
                reason: Message::of("the posterior holds ").count(n_draws).text(
                    " draws but the configuration says ",
                ).count(saved.n_draws),
            },
        );
    }
    if !do_metrics_agree(&saved.metrics, &saved.scaler) {
        return Err(
            SavedModelError {
                reason: Message::of("the metric list does not match the scaler's encoding"),
            },
        );
    }
    let mut config = AddiVortesConfig::new(saved.seed).with_m(saved.m).with_nu(saved.nu).with_q(
        saved.q,
    ).with_k(saved.k).with_sigma_c(saved.sigma_c).with_omega(saved.omega).with_lambda_c(
        saved.lambda_c,
    ).with_burn_in(saved.burn_in).with_draws(saved.n_draws).with_thinning(
        saved.thinning,
    ).with_response_family(saved.family);
    config.metrics = saved.metrics;
    if let Err(e) = config.validate() {
        return Err(
            SavedModelError {
                reason: Message::of("saved hyperparameters are invalid: ").then_message(
                    &e.message(),
                ),
            },
        );
    }
    Ok(
        FittedAddiVortes {
            posterior: saved.posterior,
            scaler: saved.scaler,
            config,
            custom_components: false,
            warnings: saved.warnings,
            in_sample_rmse: saved.in_sample_rmse,
        },
    )
}

/// Do the parts of the model fit together: finite error, valid settings, as many draws
/// and tessellations as the settings say, every dimension encoded, metrics that agree
/// with the encoding?
pub open spec fn consistent(model: FittedAddiVortes) -> bool {
    let draws = model.posterior@.draws;
    &&& model.in_sample_rmse.non_negative_finite()
    &&& model.config.failure() is None
    &&& model.config.family matches ResponseFamily::RobustT { df } ==> df.positive_finite()
    &&& draws.len() == model.config.n_draws
    &&& draws.len() >= 1 && draws[0]@.len() == model.config.m
    &&& outside_draw(draws, model.scaler@.metrics.len()) is None
    &&& metrics_agree(model.config.metrics, model.scaler@)
}

/// A fitted model is consistent, so that it can be saved and loaded, once its training
/// error is known: where the settings are valid, as many sweeps were kept as they say,
/// each with as many tessellations, over columns that are encoded, and the metrics agree
/// with the encoding.
pub proof fn fitted_models_are_consistent(
    parts: FittedParts,
    sigma_sqs: Seq<Binary64>,
    draws: Seq<Vec<Tessellation>>,
    model: FittedAddiVortes,
    in_sample_rmse: Binary64,
)
    requires
        packaged(parts, sigma_sqs, draws, model),
        parts.config.failure() is None,
        parts.config.family matches ResponseFamily::RobustT { df } ==> df.positive_finite(),
        draws.len() == parts.config.n_draws,
        forall|d: int| 0 <= d < draws.len() ==> (#[trigger] draws[d])@.len() == parts.config.m,
        forall|d: int, t: int, i: int|
            0 <= d < draws.len() && 0 <= t < draws[d]@.len() && 0 <= i
                < draws[d]@[t]@.dims.len() ==> #[trigger] draws[d]@[t]@.dims[i]
                < parts.scaler@.metrics.len(),
        metrics_agree(parts.config.metrics, parts.scaler@),
        in_sample_rmse.non_negative_finite(),
    ensures
        consistent((FittedAddiVortes { in_sample_rmse, ..model })),
{
    let p_enc = parts.scaler@.metrics.len();
    let bad_draw = |d: int| outside_tessellation(draws[d]@, p_enc) is Some;
    assert forall|d: int| 0 <= d < draws.len() implies !#[trigger] bad_draw(d) by {
        let draw = draws[d]@;
        let bad_tessellation = |t: int| outside_dim(draw[t], p_enc) is Some;
        assert forall|t: int| 0 <= t < draw.len() implies !#[trigger] bad_tessellation(t) by {
            let bad_dim = |i: int| draw[t]@.dims[i] >= p_enc;
            assert forall|i: int| 0 <= i < draw[t]@.dims.len() implies !#[trigger] bad_dim(i) by {
                assert(draws[d]@[t]@.dims[i] < p_enc);
            }
            lemma_first_none(draw[t]@.dims.len(), bad_dim);
        }
        lemma_first_none(draw.len(), bad_tessellation);
    }
    lemma_first_none(draws.len(), bad_draw);
    assert(count_failure("draws"@, parts.config.n_draws) is None);
}

/// Saving a model and loading it again gives the model back, with every number
/// unchanged.
pub proof fn loading_gives_back_what_was_saved(model: FittedAddiVortes)
    requires
        consistent(model),
        !unportable(model),
    ensures
        load_fault(saved_form(model)) is None,
        loaded(saved_form(model)) == model,
{
    assert(saved_config(saved_form(model)) == model.config);
}

/// A saved model of the first layout, which has no family, loads as the same model of
/// the Gaussian family.
pub proof fn first_layout_still_loads(model: FittedAddiVortes)
    requires
        consistent(model),
        !unportable(model),
        model.config.family is Gaussian,
    ensures
        load_fault((SavedModel { format: 1, ..saved_form(model) })) is None,
        loaded((SavedModel { format: 1, ..saved_form(model) })) == model,
{
    let saved = SavedModel { format: 1, ..saved_form(model) };
    assert(saved_config(saved) == model.config);
}

/// What was loaded can be saved and loaded again.
pub proof fn loaded_models_are_consistent(saved: SavedModel)
    requires
        saved.posterior@.well_formed(),
        load_fault(saved) is None,
    ensures
        consistent(loaded(saved)),
        !unportable(loaded(saved)),
{
}

/// No setting that lives outside the library is lost in silence: a model with any of
/// them is refused.
pub proof fn one_component_is_enough_to_refuse(model: FittedAddiVortes)
    requires
        loaded(saved_form(model)) != model,
    ensures
        unportable(model),
{
    if !unportable(model) {
        assert(saved_config(saved_form(model)) == model.config);
        assert(loaded(saved_form(model)) == model);
    }
}

/// The encoded columns of raw column `c` are those from `starts[c]` up to `starts[c + 1]`:
/// one for each level of a categorical column, one for any other.
pub open spec fn is_layout(
    levels: Seq<Option<Vec<Binary64>>>,
    col_map: Seq<usize>,
    starts: Seq<int>,
) -> bool {
    &&& starts.len() == levels.len() + 1
    &&& starts[0] == 0
    &&& starts[levels.len() as int] == col_map.len()
    &&& forall|c: int|
        0 <= c < levels.len() ==> #[trigger] starts[c + 1] - starts[c] == match levels[c] {
            Some(list) => list@.len() as int,
            None => 1,
        }
    &&& forall|c: int, i: int|
        #![trigger starts[c], col_map[i]]
        0 <= c < levels.len() && starts[c] <= i < starts[c + 1] ==> col_map[i] == c
}

/// Where the first `c` columns of a layout end, and what they hold.
proof fn lemma_layout_prefix(
    levels: Seq<Option<Vec<Binary64>>>,
    col_map: Seq<usize>,
    starts: Seq<int>,
    c: nat,
)
    requires
        is_layout(levels, col_map, starts),
        c <= levels.len(),
    ensures
        starts[c as int] == offset(levels, c),
        forall|i: int|
            0 <= i < offset(levels, c) ==> #[trigger] col_map[i] == expansion(levels, c)[i],
    decreases c,
{
    if c > 0 {
        lemma_layout_prefix(levels, col_map, starts, (c - 1) as nat);
        lemma_expansion_len(levels, (c - 1) as nat);
        let b = c - 1;
        assert(starts[b + 1] - starts[b] == width(levels, b));
        assert forall|i: int| 0 <= i < offset(levels, c) implies #[trigger] col_map[i]
            == expansion(levels, c)[i] by {
            if i >= offset(levels, (c - 1) as nat) {
                assert(starts[b] <= i < starts[b + 1]);
                assert(col_map[i] == b);
            }
        }
    }
}

/// A column map that is an expansion is a layout.
proof fn lemma_expansion_is_layout(
    levels: Seq<Option<Vec<Binary64>>>,
    col_map: Seq<usize>,
    starts: Seq<int>,
)
    requires
        col_map.len() == offset(levels, levels.len()),
        forall|i: int|
            0 <= i < col_map.len() ==> #[trigger] col_map[i] == expansion(levels, levels.len())[i],
        starts == Seq::new(levels.len() + 1, |c: int| offset(levels, c as nat) as int),
    ensures
        is_layout(levels, col_map, starts),
{
    let n = levels.len();
    lemma_expansion_len(levels, n);
    assert forall|c: int, i: int|
        #![trigger starts[c], col_map[i]]
        0 <= c < n && starts[c] <= i < starts[c + 1] implies col_map[i] == c by {
        lemma_expansion_len(levels, c as nat);
        lemma_expansion_len(levels, (c + 1) as nat);
        lemma_offset_grows(levels, (c + 1) as nat, n);
        assert(expansion(levels, (c + 1) as nat)[i] == c);
        lemma_expansion_prefix(levels, (c + 1) as nat, n, i);
    }
}

/// A scaler is built exactly where its column map lays the raw columns out one after the
/// other, each as wide as its encoding, with a metric and a range for every encoded
/// column. It keeps its parts as they are.
pub proof fn scaler_built_exactly_from_a_layout(
    parts: Encoding,
    levels: Vec<Option<Vec<Binary64>>>,
    metrics: Vec<Metric>,
    col_map: Vec<usize>,
    ranges: Vec<(Binary64, Binary64)>,
    r: core::result::Result<FittedScaler, SavedModelError>,
)
    requires
        call_ensures(
            FittedScaler::new,
            (levels, metrics, col_map, ranges, parts.y_min, parts.y_max),
            r,
        ),
    ensures
        r is Ok <==> {
            &&& metrics@.len() == col_map@.len()
            &&& ranges@.len() == col_map@.len()
            &&& exists|starts: Seq<int>| #[trigger] is_layout(levels@, col_map@, starts)
        },
        r matches Ok(scaler) ==> {
            &&& scaler@.levels == levels@
            &&& scaler@.metrics == metrics@
            &&& scaler@.col_map == col_map@
            &&& scaler@.ranges == ranges@
            &&& scaler@.y_min == parts.y_min
            &&& scaler@.y_max == parts.y_max
        },
{
    if r is Ok {
        let starts = Seq::new(levels@.len() + 1, |c: int| offset(levels@, c as nat) as int);
        lemma_expansion_is_layout(levels@, col_map@, starts);
    }
    if exists|starts: Seq<int>| #[trigger] is_layout(levels@, col_map@, starts) {
        let starts = choose|starts: Seq<int>| #[trigger] is_layout(levels@, col_map@, starts);
        lemma_layout_prefix(levels@, col_map@, starts, levels@.len());
    }
}

/// A raw column with levels is categorical; any other has the metric of the one encoded
/// column that maps to it.
pub proof fn raw_metrics_come_from_the_encoding(
    scaler: &FittedScaler,
    starts: Seq<int>,
    r: Vec<Metric>,
    c: int,
)
    requires
        scaler@.coherent(),
        is_layout(scaler@.levels, scaler@.col_map, starts),
        call_ensures(FittedScaler::raw_metrics, (scaler,), r),
        0 <= c < scaler@.levels.len(),
    ensures
        r@.len() == scaler@.levels.len(),
        scaler@.levels[c] is Some ==> r@[c] == Metric::Categorical,
        scaler@.levels[c] is None ==> r@[c] == scaler@.metrics[starts[c]]
            && scaler@.col_map[starts[c]] == c,
{
    let e = scaler@;
    lemma_layout_prefix(e.levels, e.col_map, starts, c as nat);
    if e.levels[c] is None {
        assert(starts[c + 1] - starts[c] == 1);
        assert(e.col_map[starts[c]] == c);
    }
}

/// The rows that a model can predict for: as many columns as it was fitted on, every
/// number finite, and every angle of a column that was set spherical on the circle.
pub open spec fn predictable(model: FittedAddiVortes, x: Matrix) -> bool {
    &&& x.n_cols == model.scaler@.levels.len()
    &&& all_finite(x)
    &&& model.config.metrics matches Some(list) ==> angles_lie_on_the_circle(x, list@)
}

/// Which rows the predict boundary of a model admits.
proof fn lemma_predictable(model: FittedAddiVortes, x: &Data)
    requires
        x@.well_formed(),
        model.scaler@.levels.len() <= usize::MAX,
    ensures
        input_failure(model, x@) is None <==> predictable(model, x@),
{
    let n = model.scaler@.levels.len();
    let metrics = metrics_in_force(model.config.metrics, n);
    crate::engine::data::lemma_predict_admits(x@, n as usize, metrics);
    if model.config.metrics is None {
        assert(angles_lie_on_the_circle(x@, metrics));
    }
}

/// A model predicts for exactly the rows that it can predict for, and gives quantiles,
/// intervals and scores for them exactly where the probabilities lie strictly between
/// zero and one and the response has one finite value for each row, all of them labels
/// where the family is one of labels.
pub proof fn requests_are_granted_exactly_when_sound(
    model: FittedAddiVortes,
    x: &Data,
    probs: &[Binary64],
    level: Binary64,
    y: &[Binary64],
    r: Seq<Result<()>>,
)
    requires
        x@.well_formed(),
        model.scaler@.levels.len() <= usize::MAX,
        r.len() == 4,
        call_ensures(FittedAddiVortes::check_input, (&model, x), r[0]),
        call_ensures(FittedAddiVortes::check_quantiles, (&model, x, probs), r[1]),
        call_ensures(FittedAddiVortes::check_interval, (&model, x, level), r[2]),
        call_ensures(FittedAddiVortes::check_scoring, (&model, x, y), r[3]),
    ensures
        r[0] is Ok <==> predictable(model, x@),
        r[1] is Ok <==> predictable(model, x@) && probs@.len() > 0 && forall|i: int|
            0 <= i < probs@.len() ==> zero().below(#[trigger] probs@[i]) && probs@[i].below(one()),
        r[2] is Ok <==> predictable(model, x@) && zero().below(level) && level.below(one()),
        r[3] is Ok <==> {
            &&& predictable(model, x@)
            &&& y@.len() == x@.n_rows
            &&& forall|i: int| 0 <= i < y@.len() ==> (#[trigger] y@[i]).finite()
            &&& model.config.family is BinaryProbit ==> forall|i: int|
                0 <= i < y@.len() ==> (#[trigger] y@[i]).same(zero()) || y@[i].same(one())
        },
{
    lemma_predictable(model, x);
    let bad = |i: int| !probs@[i].in_open_unit();
    lemma_first_holds(probs@.len(), bad);
    if first(probs@.len(), bad) is Some {
        let i = first(probs@.len(), bad)->0;
        assert(bad(i));
        assert(!(zero().below(probs@[i]) && probs@[i].below(one())));
    } else {
        assert forall|i: int| 0 <= i < probs@.len() implies zero().below(#[trigger] probs@[i])
            && probs@[i].below(one()) by {
            assert(!bad(i));
        }
    }
    let unfit = |i: int| !y@[i].finite();
    lemma_first_holds(y@.len(), unfit);
    if first(y@.len(), unfit) is Some {
        let i = first(y@.len(), unfit)->0;
        assert(unfit(i));
        assert(!y@[i].finite());
    } else {
        assert forall|i: int| 0 <= i < y@.len() implies (#[trigger] y@[i]).finite() by {
            assert(!unfit(i));
        }
    }
    let other = |i: int| !is_label(y@[i]);
    lemma_first_holds(y@.len(), other);
    if first(y@.len(), other) is Some {
        let i = first(y@.len(), other)->0;
        assert(other(i));
        assert(!(y@[i].same(zero()) || y@[i].same(one())));
    } else {
        assert forall|i: int| 0 <= i < y@.len() implies (#[trigger] y@[i]).same(zero())
            || y@[i].same(one()) by {
            assert(!other(i));
        }
    }
}

/// A fitted model holds the draws and the parts that it was packaged from.
pub proof fn packaging_keeps_the_parts(
    parts: FittedParts,
    sigma_sqs: Vec<Binary64>,
    draws: Vec<Vec<Tessellation>>,
    r: Result<FittedAddiVortes>,
)
    requires
        call_ensures(FittedAddiVortes::from_parts, (parts, sigma_sqs, draws), r),
    ensures
        r is Ok <==> draws@.len() > 0 && sigma_sqs@.len() == draws@.len(),
        r matches Ok(model) ==> {
            &&& model.posterior@.draws == draws@
            &&& model.posterior@.sigma_sqs == sigma_sqs@
            &&& model.scaler == parts.scaler
            &&& model.config == parts.config
            &&& model.custom_components == parts.custom_components
            &&& model.warnings == parts.warnings
        },
{
}

/// A model is saved exactly where nothing of it is a component that the caller supplied;
/// what is saved are its settings, its posterior, its scaler, its warnings and its
/// in-sample error, under the current format.
pub proof fn saved_exactly_without_components(
    model: FittedAddiVortes,
    r: core::result::Result<SavedModel, Message>,
)
    requires
        call_ensures(FittedAddiVortes::into_saved, (model,), r),
    ensures
        r is Ok <==> {
            let c = model.config;
            &&& !model.custom_components
            &&& c.move_set is None && c.coords is None && c.assigner is None
            &&& c.membership is None && c.inclusion is None && c.cell_model is None
            &&& c.basis is None && c.response_model is None && c.scale_model is None
            &&& c.count_priors is None && c.cell_prior_sd is None
        },
        r matches Ok(saved) ==> {
            let c = model.config;
            &&& saved.format == 2
            &&& saved.seed == c.seed && saved.m == c.m && saved.burn_in == c.burn_in
            &&& saved.n_draws == c.n_draws && saved.thinning == c.thinning
            &&& saved.nu == c.nu && saved.q == c.q && saved.k == c.k
            &&& saved.sigma_c == c.sigma_c && saved.omega == c.omega
            &&& saved.lambda_c == c.lambda_c && saved.metrics == c.metrics
            &&& saved.family == c.family
            &&& saved.posterior == model.posterior && saved.scaler == model.scaler
            &&& saved.warnings == model.warnings
            &&& saved.in_sample_rmse == model.in_sample_rmse
        },
{
}

/// Every dimension that the draws split on is one of the encoded columns.
pub open spec fn splits_on_encoded_columns(draws: Seq<Vec<Tessellation>>, p_enc: nat) -> bool {
    forall|d: int, t: int, i: int|
        0 <= d < draws.len() && 0 <= t < draws[d]@.len() && 0 <= i < draws[d]@[t]@.dims.len()
            ==> #[trigger] draws[d]@[t]@.dims[i] < p_enc
}

/// The dimension scan of a saved posterior.
proof fn lemma_outside(draws: Seq<Vec<Tessellation>>, p_enc: nat)
    ensures
        outside_draw(draws, p_enc) is None <==> splits_on_encoded_columns(draws, p_enc),
{
    let bad_draw = |d: int| outside_tessellation(draws[d]@, p_enc) is Some;
    lemma_first_holds(draws.len(), bad_draw);
    assert forall|d: int| 0 <= d < draws.len() implies (#[trigger] bad_draw(d) <==> exists|
        t: int,
        i: int,
    |
        0 <= t < draws[d]@.len() && 0 <= i < draws[d]@[t]@.dims.len()
            && #[trigger] draws[d]@[t]@.dims[i] >= p_enc) by {
        let draw = draws[d]@;
        let bad_tessellation = |t: int| outside_dim(draw[t], p_enc) is Some;
        lemma_first_holds(draw.len(), bad_tessellation);
        assert forall|t: int| 0 <= t < draw.len() implies (#[trigger] bad_tessellation(t)
            <==> exists|i: int|
            0 <= i < draw[t]@.dims.len() && #[trigger] draw[t]@.dims[i] >= p_enc) by {
            let bad_dim = |i: int| draw[t]@.dims[i] >= p_enc;
            lemma_first_holds(draw[t]@.dims.len(), bad_dim);
            if first(draw[t]@.dims.len(), bad_dim) is Some {
                let i = first(draw[t]@.dims.len(), bad_dim)->0;
                assert(bad_dim(i));
                assert(draw[t]@.dims[i] >= p_enc);
            } else {
                assert forall|i: int| 0 <= i < draw[t]@.dims.len() implies !(
                #[trigger] draw[t]@.dims[i] >= p_enc) by {
                    assert(!bad_dim(i));
                }
            }
        }
        if first(draw.len(), bad_tessellation) is Some {
            let t = first(draw.len(), bad_tessellation)->0;
            assert(bad_tessellation(t));
            let i = choose|i: int|
                0 <= i < draw[t]@.dims.len() && #[trigger] draw[t]@.dims[i] >= p_enc;
            assert(draws[d]@[t]@.dims[i] >= p_enc);
        } else {
            assert forall|t: int, i: int|
                0 <= t < draws[d]@.len() && 0 <= i < draws[d]@[t]@.dims.len() implies !(
            #[trigger] draws[d]@[t]@.dims[i] >= p_enc) by {
                assert(!bad_tessellation(t));
            }
        }
    }
    if first(draws.len(), bad_draw) is Some {
        let d = first(draws.len(), bad_draw)->0;
        assert(bad_draw(d));
    } else {
        assert forall|d: int, t: int, i: int|
            0 <= d < draws.len() && 0 <= t < draws[d]@.len() && 0 <= i
                < draws[d]@[t]@.dims.len() implies #[trigger] draws[d]@[t]@.dims[i] < p_enc by {
            assert(!bad_draw(d));
        }
    }
}

/// The metrics of the raw columns are those that the scaler encodes: as listed, or all
/// Euclidean.
pub open spec fn lists_the_encoded_metrics(metrics: Option<Vec<Metric>>, encoded: Seq<Metric>) -> bool {
    match metrics {
        Some(list) => list@ == encoded,
        None => forall|c: int|
            0 <= c < encoded.len() ==> #[trigger] encoded[c] == Metric::Euclidean,
    }
}

/// The settings of a saved model, as a configuration without components.
pub open spec fn holds_settings(saved: SavedModel, c: AddiVortesConfig) -> bool {
    &&& c.seed == saved.seed && c.m == saved.m && c.burn_in == saved.burn_in
    &&& c.n_draws == saved.n_draws && c.thinning == saved.thinning
    &&& c.nu == saved.nu && c.q == saved.q && c.k == saved.k
    &&& c.sigma_c == saved.sigma_c && c.omega == saved.omega && c.lambda_c == saved.lambda_c
    &&& c.metrics == saved.metrics && c.family == saved.family
    &&& c.move_set is None && c.coords is None && c.assigner is None && c.membership is None
    &&& c.inclusion is None && c.cell_model is None && c.basis is None
    &&& c.response_model is None && c.scale_model is None && c.count_priors is None
    &&& c.cell_prior_sd is None
}

/// A saved model is loaded exactly where it is whole: a known format, a finite in-sample
/// error that is not below zero, degrees of freedom above zero, no split on a column that
/// the scaler does not encode, as many draws and tessellations as its settings say, the
/// metrics that its scaler encodes, and settings that a fit can run with. The model holds
/// what was saved.
pub proof fn loaded_exactly_when_whole(
    saved: SavedModel,
    encoded: Vec<Metric>,
    c: AddiVortesConfig,
    r: core::result::Result<FittedAddiVortes, SavedModelError>,
)
    requires
        call_ensures(rebuild, (saved,), r),
        call_ensures(FittedScaler::raw_metrics, (&saved.scaler,), encoded),
        holds_settings(saved, c),
    ensures
        r is Ok <==> {
            &&& saved.format == 1 || saved.format == 2
            &&& saved.in_sample_rmse.finite() && zero().at_most(saved.in_sample_rmse)
            &&& saved.family matches ResponseFamily::RobustT { df } ==> df.finite() && zero().below(
                df,
            )
            &&& splits_on_encoded_columns(saved.posterior@.draws, saved.scaler@.metrics.len())
            &&& saved.posterior@.draws[0]@.len() == saved.m
            &&& saved.posterior@.draws.len() == saved.n_draws
            &&& lists_the_encoded_metrics(saved.metrics, encoded@)
            &&& accepted_settings(c)
        },
        r matches Ok(model) ==> {
            &&& model.posterior == saved.posterior
            &&& model.scaler == saved.scaler
            &&& model.config == c
            &&& !model.custom_components
            &&& model.warnings == saved.warnings
            &&& model.in_sample_rmse == saved.in_sample_rmse
        },
{
    lemma_outside(saved.posterior@.draws, saved.scaler@.metrics.len());
    assert(saved_config(saved) == c);
    lemma_accepted_settings(c);
    let e = saved.scaler@;
    assert(encoded@ == e.raw_metrics());
    if saved.metrics is None {
        assert forall|k: int| 0 <= k < e.levels.len() implies encoded@[k] == #[trigger] e.raw_metric(
            k,
        ) by {}
        if metrics_agree(saved.metrics, e) {
            assert forall|k: int| 0 <= k < encoded@.len() implies #[trigger] encoded@[k]
                == Metric::Euclidean by {
                assert(e.raw_metric(k) == Metric::Euclidean);
            }
        }
        if lists_the_encoded_metrics(saved.metrics, encoded@) {
            assert forall|k: int| 0 <= k < e.levels.len() implies #[trigger] e.raw_metric(k)
                == Metric::Euclidean by {
                assert(encoded@[k] == Metric::Euclidean);
            }
        }
    }
}

/// Saving and loading undo one another: a model that was saved and can be loaded is the
/// model that was saved.
pub proof fn saving_then_loading_gives_the_model_back(
    model: FittedAddiVortes,
    saved: SavedModel,
    back: FittedAddiVortes,
)
    requires
        call_ensures(FittedAddiVortes::into_saved, (model,), Ok(saved)),
        call_ensures(rebuild, (saved,), Ok(back)),
    ensures
        back == model,
{
    assert(saved_config(saved) == model.config);
}

/// An encoding is read back as it was put in.
pub proof fn encoding_reads_back(
    levels: Vec<Option<Vec<Binary64>>>,
    metrics: Vec<Metric>,
    col_map: Vec<usize>,
    ranges: Vec<(Binary64, Binary64)>,
    y: (Binary64, Binary64),
    s: FittedScaler,
    counts: (usize, usize),
    read_metrics: &Vec<Metric>,
    read_map: &Vec<usize>,
    read_ranges: &Vec<(Binary64, Binary64)>,
    read_y: (Binary64, Binary64),
    col: usize,
    read_levels: &Option<Vec<Binary64>>,
)
    requires
        call_ensures(FittedScaler::new, (levels, metrics, col_map, ranges, y.0, y.1), Ok(s)),
        call_ensures(FittedScaler::n_raw_cols, (&s,), counts.0),
        call_ensures(FittedScaler::n_encoded_cols, (&s,), counts.1),
        call_ensures(FittedScaler::metrics, (&s,), read_metrics),
        call_ensures(FittedScaler::col_map, (&s,), read_map),
        call_ensures(FittedScaler::ranges, (&s,), read_ranges),
        call_ensures(FittedScaler::y_min, (&s,), read_y.0),
        call_ensures(FittedScaler::y_max, (&s,), read_y.1),
        col < levels@.len(),
        call_ensures(FittedScaler::levels, (&s, col), read_levels),
    ensures
        counts.0 == levels@.len() && counts.1 == col_map@.len(),
        read_metrics@ == metrics@ && read_map@ == col_map@ && read_ranges@ == ranges@,
        read_y == y,
        *read_levels == levels@[col as int],
{
}

/// A fitted model is read back as it was put together; its error on its own data is zero
/// until one is measured.
pub proof fn model_reads_back(
    parts: FittedParts,
    sigma_sqs: Vec<Binary64>,
    draws: Vec<Vec<Tessellation>>,
    model: FittedAddiVortes,
    posterior: &PosteriorSamples,
    scaler: &FittedScaler,
    config: &AddiVortesConfig,
    warnings: &[Warning],
    rmse: Binary64,
    taken: (PosteriorSamples, FittedScaler),
)
    requires
        call_ensures(FittedAddiVortes::from_parts, (parts, sigma_sqs, draws), Ok(model)),
        call_ensures(FittedAddiVortes::posterior, (&model,), posterior),
        call_ensures(FittedAddiVortes::scaler, (&model,), scaler),
        call_ensures(FittedAddiVortes::config, (&model,), config),
        call_ensures(FittedAddiVortes::warnings, (&model,), warnings),
        call_ensures(FittedAddiVortes::in_sample_rmse, (&model,), rmse),
        call_ensures(FittedAddiVortes::into_parts, (model,), taken),
    ensures
        posterior@.draws == draws@ && posterior@.sigma_sqs == sigma_sqs@,
        *scaler == parts.scaler && *config == parts.config && warnings@ == parts.warnings@,
        rmse.value() == 0,
        taken.0 == *posterior && taken.1 == *scaler,
{
    assert(zero().value() == 0);
}

} // verus!
