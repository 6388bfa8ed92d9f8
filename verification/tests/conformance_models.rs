use addivortes::binary64::{from_bits, Binary64};
use addivortes::conformance::cell_model::{
    cell_size, check_basis_cell_model, check_cell_model, check_variance_cell_model, first_payload,
    observe_marginals, rank_bins, variance_fixture, Comparisons, Family, Fixture, Gap,
    Marginals, RankCheck, Replication, Undone, MONTE_CARLO_DRAWS, POSTERIOR_DRAWS, REPLICATIONS,
};
use addivortes::conformance::coordinate::{
    check_coordinate_distribution, log_densities, needs_padding, sorted_samples, PANELS,
};
use addivortes::conformance::draws::{draw_values, observe_prior};
use addivortes::conformance::payloads::{
    draw_payloads, observe_payload_prior, observe_payload_replications,
};
use addivortes::conformance::replications::observe_replications;
use addivortes::conformance::{all_passed, CheckResult};
use addivortes::engine::error::{AddiVortesError, Result};
use addivortes::engine::handle::Handle;
use addivortes::extensions::{
    CellDraws, CellModel, CellStats, CoordinateDistribution, PayloadDraws,
};
use addivortes::message::{Message, Style};
use rand_chacha::ChaCha8Rng;
use rand_core::SeedableRng;
use std::f64::consts::PI;

fn num(x: f64) -> Binary64 {
    from_bits(x.to_bits())
}

fn nums(xs: &[f64]) -> Vec<Binary64> {
    xs.iter().map(|&x| num(x)).collect()
}

fn val(x: Binary64) -> f64 {
    f64::from_bits(x.bits)
}

fn vals(xs: &[Binary64]) -> Vec<f64> {
    xs.iter().map(|&x| val(x)).collect()
}

fn rng(seed: u8) -> ChaCha8Rng {
    ChaCha8Rng::from_seed([seed; 32])
}

fn normal(rng: &mut ChaCha8Rng) -> f64 {
    rand_distr::Distribution::sample(&rand_distr::StandardNormal, rng)
}

/// The text of a message, its numbers in the styles that they ask for.
fn shown(message: &Message) -> String {
    let figures: Vec<String> = message
        .figures()
        .iter()
        .map(|figure| {
            let value = f64::from_bits(figure.value.bits);
            match figure.style {
                Style::Plain => format!("{}", value),
                Style::Exponent => format!("{:e}", value),
                Style::Scientific { digits, signed: true } => format!("{:+.*e}", digits, value),
                Style::Scientific { digits, signed: false } => format!("{:.*e}", digits, value),
                Style::Fixed { digits } => format!("{:.*}", digits, value),
            }
        })
        .collect();
    message.render(&figures)
}

fn found<'a>(results: &'a [CheckResult], name: &str) -> &'a CheckResult {
    results
        .iter()
        .find(|r| r.name == name)
        .unwrap_or_else(|| panic!("no result named {}", name))
}

/// The difference of two marginals, on the scale of the second one.
fn gap(a: &Result<Binary64>, b: &Result<Binary64>, tolerance: f64) -> Gap {
    match (a, b) {
        (Ok(a), Ok(b)) => Gap {
            difference: num((val(*a) - val(*b)).abs()),
            bound: num(tolerance * val(*b).abs().max(1.0)),
        },
        _ => Gap { difference: num(f64::NAN), bound: num(f64::NAN) },
    }
}

fn merge_gap(merged: Binary64, in_order: Binary64) -> Gap {
    gap(&Ok(merged), &Ok(in_order), 1e-9)
}

fn undo_gap(m: &Marginals) -> Gap {
    match &m.undone {
        Some(answers) => gap(&answers.undone, &answers.first, 1e-6),
        None => Gap { difference: num(f64::NAN), bound: num(f64::NAN) },
    }
}

fn log_mean_exp(terms: &[f64]) -> f64 {
    let max = terms.iter().copied().fold(f64::NEG_INFINITY, f64::max);
    let sum: f64 = terms.iter().map(|t| libm::exp(t - max)).sum();
    max + libm::log(sum / terms.len() as f64)
}

fn chi_squared(bins: &[usize]) -> f64 {
    let expected = REPLICATIONS as f64 / bins.len() as f64;
    bins.iter().map(|&c| (c as f64 - expected) * (c as f64 - expected) / expected).sum()
}

/// The numbers of the verdicts on the marginals of a model with several values per
/// cell.
fn payload_comparisons<M: PayloadDraws<ChaCha8Rng>>(
    model: &M,
    q: usize,
    m: &Marginals,
    n: usize,
    sigma_sq: f64,
    log_lik: &dyn Fn(&[f64], &[usize]) -> f64,
    rng: ChaCha8Rng,
) -> (Comparisons, ChaCha8Rng) {
    let (sample, rng) = observe_payload_prior(model, num(sigma_sq), q, rng, MONTE_CARLO_DRAWS);
    let sample = sample.unwrap();
    let log_bayes = |payloads: &[Vec<Binary64>], indices: &[usize]| -> f64 {
        let terms: Vec<f64> = payloads.iter().map(|p| log_lik(&vals(p), indices)).collect();
        log_mean_exp(&terms)
    };
    let all: Vec<usize> = (0..n).collect();
    let half = n / 2;
    let estimate = log_bayes(&sample.first, &all[..half])
        + log_bayes(&sample.second, &all[half..])
        - log_bayes(&sample.whole, &all);
    let claimed = match (&m.two, &m.one) {
        (Ok(two), Ok(one)) => val(*two) - val(*one),
        _ => f64::NAN,
    };
    let comparisons = Comparisons {
        order: gap(&m.reversed, &m.forward, 1e-9),
        undo: undo_gap(m),
        claimed: num(claimed),
        estimate: Some(num(estimate)),
        error: num((estimate - claimed).abs()),
    };
    (comparisons, rng)
}

/// The ranks of prior draws among posterior draws of a model with several values per
/// cell; `functional` is what is ranked.
fn payload_ranks<M: PayloadDraws<ChaCha8Rng>>(
    model: &M,
    q: usize,
    sigma_sq: f64,
    record: &dyn Fn(&[f64], &mut ChaCha8Rng) -> M::Stats,
    functional: &dyn Fn(&[f64]) -> f64,
    rng: ChaCha8Rng,
) -> RankCheck {
    let generate = |star: Vec<Binary64>, rng: ChaCha8Rng| {
        let mut rng = rng;
        let stats = record(&vals(&star), &mut rng);
        (stats, rng)
    };
    let probe = |payload: &Vec<Binary64>| num(functional(&vals(payload)));
    let (replications, _) = observe_payload_replications(
        model,
        num(sigma_sq),
        q,
        &generate,
        &probe,
        REPLICATIONS,
        POSTERIOR_DRAWS,
        rng,
    );
    let replications = replications.unwrap();
    assert_eq!(replications.len(), REPLICATIONS);
    let bins = rank_bins(&replications, POSTERIOR_DRAWS).unwrap();
    RankCheck { replications, n_draws: POSTERIOR_DRAWS, chi_sq: num(chi_squared(&bins)) }
}

/// The numbers of the verdicts on the marginals of a model with one value per cell.
fn value_comparisons<M: CellDraws<ChaCha8Rng>>(
    model: &M,
    m: &Marginals,
    n: usize,
    sigma_sq: f64,
    log_lik: &dyn Fn(f64, &[usize]) -> f64,
    rng: ChaCha8Rng,
) -> (Comparisons, ChaCha8Rng) {
    let (sample, rng) = observe_prior(model, m, num(sigma_sq), rng, MONTE_CARLO_DRAWS);
    let log_bayes = |draws: &[Binary64], indices: &[usize]| -> f64 {
        let terms: Vec<f64> = draws.iter().map(|d| log_lik(val(*d), indices)).collect();
        log_mean_exp(&terms)
    };
    let all: Vec<usize> = (0..n).collect();
    let half = n / 2;
    let estimate = sample.map(|s| {
        log_bayes(&s.first, &all[..half]) + log_bayes(&s.second, &all[half..])
            - log_bayes(&s.whole, &all)
    });
    let claimed = match (&m.two, &m.one) {
        (Ok(two), Ok(one)) => val(*two) - val(*one),
        _ => f64::NAN,
    };
    let comparisons = Comparisons {
        order: gap(&m.reversed, &m.forward, 1e-9),
        undo: undo_gap(m),
        claimed: num(claimed),
        estimate: estimate.map(num),
        error: num((estimate.unwrap_or(f64::NAN) - claimed).abs()),
    };
    (comparisons, rng)
}

/// The ranks of prior draws among posterior draws of a model with one value per cell.
fn value_ranks<M: CellDraws<ChaCha8Rng>>(
    model: &M,
    sigma_sq: f64,
    record: &dyn Fn(f64, &mut ChaCha8Rng) -> M::Stats,
    rng: ChaCha8Rng,
) -> RankCheck {
    let generate = |star: Binary64, rng: ChaCha8Rng| {
        let mut rng = rng;
        let stats = record(val(star), &mut rng);
        (stats, rng)
    };
    let (replications, _) = observe_replications(
        model,
        num(sigma_sq),
        &generate,
        REPLICATIONS,
        POSTERIOR_DRAWS,
        rng,
    );
    assert_eq!(replications.len(), REPLICATIONS);
    let bins = rank_bins(&replications, POSTERIOR_DRAWS).unwrap();
    RankCheck { replications, n_draws: POSTERIOR_DRAWS, chi_sq: num(chi_squared(&bins)) }
}

/// Check a model whose cells hold a mean.
fn mean_results<M: CellDraws<ChaCha8Rng>>(
    model: &M,
    sigma_sq: f64,
    observations: &[f64],
    weights: &[f64],
    rng: ChaCha8Rng,
) -> Vec<CheckResult> {
    let fixture =
        Fixture { rows: None, observations: nums(observations), weights: nums(weights) };
    let n = observations.len();
    let m = observe_marginals(model, &fixture, num(sigma_sq), Family::Mean, &merge_gap);
    let log_lik = |mu: f64, indices: &[usize]| -> f64 {
        indices
            .iter()
            .map(|&i| {
                let residual = observations[i] - mu;
                0.5 * libm::log(weights[i] / (2.0 * PI * sigma_sq))
                    - weights[i] * residual * residual / (2.0 * sigma_sq)
            })
            .sum()
    };
    let (c, rng) = value_comparisons(model, &m, n, sigma_sq, &log_lik, rng);
    let record = |star: f64, rng: &mut ChaCha8Rng| {
        let mut stats = M::Stats::default();
        for &weight in &weights[..cell_size(n)] {
            let value = star + (sigma_sq / weight).sqrt() * normal(rng);
            stats.record(num(value), num(weight));
        }
        stats
    };
    let r = value_ranks(model, sigma_sq, &record, rng);
    check_cell_model(&m, &c, &r)
}

/// Check a model whose cells hold a variance.
fn variance_results<M: CellDraws<ChaCha8Rng>>(
    model: &M,
    sq_observations: &[f64],
    rng: ChaCha8Rng,
) -> Vec<CheckResult> {
    let fixture = variance_fixture(nums(sq_observations));
    let n = sq_observations.len();
    let m = observe_marginals(model, &fixture, num(1.0), Family::Variance, &merge_gap);
    let log_lik = |s_sq: f64, indices: &[usize]| -> f64 {
        indices
            .iter()
            .map(|&i| -0.5 * libm::log(2.0 * PI * s_sq) - sq_observations[i] / (2.0 * s_sq))
            .sum()
    };
    let (c, rng) = value_comparisons(model, &m, n, 1.0, &log_lik, rng);
    let record = |star: f64, rng: &mut ChaCha8Rng| {
        let mut stats = M::Stats::default();
        for _ in 0..cell_size(n) {
            let e = star.sqrt() * normal(rng);
            stats.record(num(e * e), num(1.0));
        }
        stats
    };
    let r = value_ranks(model, 1.0, &record, rng);
    check_variance_cell_model(&m, &c, &r)
}

fn dot(a: &[f64], b: &[f64]) -> f64 {
    a.iter().zip(b).map(|(x, y)| x * y).sum()
}

/// Check a model whose cells hold the coefficients of a basis.
fn basis_results<M: PayloadDraws<ChaCha8Rng>>(
    model: &M,
    q: usize,
    rows: &[Vec<f64>],
    observations: &[f64],
    weights: &[f64],
    sigma_sq: f64,
    rng: ChaCha8Rng,
) -> Vec<CheckResult> {
    let basis: Vec<Vec<Binary64>> = rows.iter().map(|row| nums(row)).collect();
    let fixture = Fixture {
        rows: Some(rows.iter().map(|row| nums(row)).collect()),
        observations: nums(observations),
        weights: nums(weights),
    };
    let n = observations.len();
    let m = observe_marginals(model, &fixture, num(sigma_sq), Family::Basis, &merge_gap);
    let log_lik = |payload: &[f64], indices: &[usize]| -> f64 {
        indices
            .iter()
            .map(|&i| {
                let residual = observations[i] - dot(&rows[i], payload);
                0.5 * libm::log(weights[i] / (2.0 * PI * sigma_sq))
                    - weights[i] * residual * residual / (2.0 * sigma_sq)
            })
            .sum()
    };
    let (c, rng) = payload_comparisons(model, q, &m, n, sigma_sq, &log_lik, rng);
    let record = |star: &[f64], rng: &mut ChaCha8Rng| {
        let mut stats = M::Stats::default();
        for i in 0..cell_size(n) {
            let value = dot(&rows[i], star) + (sigma_sq / weights[i]).sqrt() * normal(rng);
            stats.record_basis(&basis[i], num(value), num(weights[i]));
        }
        stats
    };
    let probe = |payload: &[f64]| dot(&rows[0], payload);
    let r = payload_ranks(model, q, sigma_sq, &record, &probe, rng);
    check_basis_cell_model(true, q, &basis, &m, &c, &r)
}

// ---- cells that hold a mean ----

#[derive(Default, Clone)]
struct GaussianStats {
    count: f64,
    sum: f64,
}

impl CellStats for GaussianStats {
    fn record(&mut self, value: Binary64, weight: Binary64) {
        self.count += val(weight);
        self.sum += val(weight) * val(value);
    }

    fn record_basis(&mut self, _row: &[Binary64], value: Binary64, weight: Binary64) {
        self.record(value, weight);
    }

    fn merge(&mut self, other: &Self) {
        self.count += other.count;
        self.sum += other.sum;
    }

    fn remove(&mut self, other: &Self) {
        self.count -= other.count;
        self.sum -= other.sum;
    }
}

fn gaussian_terms(stats: &GaussianStats, sigma_mu_sq: f64, sigma_sq: f64) -> f64 {
    let denominator = stats.count * sigma_mu_sq + sigma_sq;
    0.5 * libm::log(sigma_sq / denominator)
        + sigma_mu_sq * stats.sum * stats.sum / (2.0 * sigma_sq * denominator)
}

fn gaussian_draw(
    stats: &GaussianStats,
    sigma_mu_sq: f64,
    sigma_sq: f64,
    rng: &mut ChaCha8Rng,
) -> f64 {
    let denominator = stats.count * sigma_mu_sq + sigma_sq;
    sigma_mu_sq * stats.sum / denominator
        + (sigma_sq * sigma_mu_sq / denominator).sqrt() * normal(rng)
}

struct GaussianModel {
    sigma_mu_sq: f64,
}

impl CellModel for GaussianModel {
    type Stats = GaussianStats;

    fn log_marginal_terms(&self, stats: &[GaussianStats], sigma_sq: Binary64) -> Result<Binary64> {
        Ok(num(
            stats.iter().map(|s| gaussian_terms(s, self.sigma_mu_sq, val(sigma_sq))).sum::<f64>(),
        ))
    }
}

impl CellDraws<ChaCha8Rng> for GaussianModel {
    fn draw_cell_values(
        &self,
        stats: &[GaussianStats],
        sigma_sq: Binary64,
        rng: &mut ChaCha8Rng,
    ) -> Result<Vec<Binary64>> {
        let sigma_sq = val(sigma_sq);
        let values: Vec<f64> =
            stats.iter().map(|s| gaussian_draw(s, self.sigma_mu_sq, sigma_sq, rng)).collect();
        Ok(nums(&values))
    }
}

fn cell_fixture() -> ([f64; 6], [f64; 6]) {
    ([0.31, -0.12, 0.07, 0.22, -0.44, 0.18], [1.0, 1.0, 1.0, 1.0, 1.0, 1.0])
}

#[test]
fn gaussian_cell_model_passes_conjugacy_checks() {
    let (observations, weights) = cell_fixture();
    let model = GaussianModel { sigma_mu_sq: 0.02 };
    let results = mean_results(&model, 0.3, &observations, &weights, rng(21));
    for result in &results {
        assert!(result.passed, "{}: {}", result.name, shown(&result.detail));
    }
    assert_eq!(results.len(), 4);
}

#[test]
fn weighted_gaussian_cell_model_passes_conjugacy_checks() {
    let observations = [0.31, -0.12, 0.07, 0.22, -0.44, 0.18];
    let weights = [0.5, 2.0, 1.0, 1.5, 0.8, 1.2];
    let model = GaussianModel { sigma_mu_sq: 0.02 };
    let results = mean_results(&model, 0.3, &observations, &weights, rng(22));
    assert!(all_passed(&results));
}

/// A statistic whose merge counts twice.
#[derive(Default)]
struct DoubleCountingStats {
    inner: GaussianStats,
}

impl CellStats for DoubleCountingStats {
    fn record(&mut self, value: Binary64, weight: Binary64) {
        self.inner.record(value, weight);
    }

    fn record_basis(&mut self, _row: &[Binary64], value: Binary64, weight: Binary64) {
        self.inner.record(value, weight);
    }

    fn merge(&mut self, other: &Self) {
        self.inner.merge(&other.inner);
        self.inner.merge(&other.inner); // wrong: double-counts
    }

    fn remove(&mut self, other: &Self) {
        self.inner.remove(&other.inner);
    }
}

struct DoubleCountingModel;

impl CellModel for DoubleCountingModel {
    type Stats = DoubleCountingStats;

    fn log_marginal_terms(
        &self,
        stats: &[DoubleCountingStats],
        sigma_sq: Binary64,
    ) -> Result<Binary64> {
        Ok(num(stats.iter().map(|s| gaussian_terms(&s.inner, 0.02, val(sigma_sq))).sum::<f64>()))
    }
}

impl CellDraws<ChaCha8Rng> for DoubleCountingModel {
    fn draw_cell_values(
        &self,
        stats: &[DoubleCountingStats],
        sigma_sq: Binary64,
        rng: &mut ChaCha8Rng,
    ) -> Result<Vec<Binary64>> {
        let sigma_sq = val(sigma_sq);
        let values: Vec<f64> =
            stats.iter().map(|s| gaussian_draw(&s.inner, 0.02, sigma_sq, rng)).collect();
        Ok(nums(&values))
    }
}

#[test]
fn double_counting_merge_fails_sufficiency() {
    let (observations, weights) = cell_fixture();
    let results = mean_results(&DoubleCountingModel, 0.3, &observations, &weights, rng(23));
    let merge = found(&results, "stats_merge_consistency");
    assert!(!merge.passed);
    assert!(shown(&merge.detail).contains("add path"), "{}", shown(&merge.detail));
}

/// A marginal without its normalising term.
struct DroppedTermModel;

impl CellModel for DroppedTermModel {
    type Stats = GaussianStats;

    fn log_marginal_terms(&self, stats: &[GaussianStats], sigma_sq: Binary64) -> Result<Binary64> {
        // wrong: only the exponent term.
        let (sigma_mu_sq, sigma_sq) = (0.5, val(sigma_sq));
        let mut total = 0.0;
        for cell in stats {
            let denominator = cell.count * sigma_mu_sq + sigma_sq;
            total += sigma_mu_sq * cell.sum * cell.sum / (2.0 * sigma_sq * denominator);
        }
        Ok(num(total))
    }
}

impl CellDraws<ChaCha8Rng> for DroppedTermModel {
    fn draw_cell_values(
        &self,
        stats: &[GaussianStats],
        sigma_sq: Binary64,
        rng: &mut ChaCha8Rng,
    ) -> Result<Vec<Binary64>> {
        let sigma_sq = val(sigma_sq);
        let values: Vec<f64> =
            stats.iter().map(|s| gaussian_draw(s, 0.5, sigma_sq, rng)).collect();
        Ok(nums(&values))
    }
}

#[test]
fn dropped_normalising_term_fails_bayes_factor() {
    let (observations, weights) = cell_fixture();
    let results = mean_results(&DroppedTermModel, 0.3, &observations, &weights, rng(24));
    let bayes = found(&results, "marginal_bayes_factor");
    assert!(!bayes.passed);
    assert!(shown(&bayes.detail).contains("disagrees"), "{}", shown(&bayes.detail));
}

/// Posterior draws with a quarter of their spread once data is in the cell.
struct OverconfidentModel;

impl CellModel for OverconfidentModel {
    type Stats = GaussianStats;

    fn log_marginal_terms(&self, stats: &[GaussianStats], sigma_sq: Binary64) -> Result<Binary64> {
        GaussianModel { sigma_mu_sq: 0.02 }.log_marginal_terms(stats, sigma_sq)
    }
}

impl CellDraws<ChaCha8Rng> for OverconfidentModel {
    fn draw_cell_values(
        &self,
        stats: &[GaussianStats],
        sigma_sq: Binary64,
        rng: &mut ChaCha8Rng,
    ) -> Result<Vec<Binary64>> {
        let sigma_sq = val(sigma_sq);
        let values: Vec<f64> =
            stats
                .iter()
                .map(|cell| {
                    let value = gaussian_draw(cell, 0.02, sigma_sq, rng);
                    if cell.count > 0.0 {
                        let mean = 0.02 * cell.sum / (cell.count * 0.02 + sigma_sq);
                        mean + (value - mean) * 0.25
                    } else {
                        value
                    }
                })
                .collect();
        Ok(nums(&values))
    }
}

#[test]
fn wrong_posterior_variance_fails_cell_sbc() {
    let (observations, weights) = cell_fixture();
    let results = mean_results(&OverconfidentModel, 0.3, &observations, &weights, rng(25));
    let sbc = found(&results, "cell_value_sbc");
    assert!(!sbc.passed);
    assert!(shown(&sbc.detail).contains("NOT uniform"), "{}", shown(&sbc.detail));
}

/// A statistic that depends on the order of its observations.
#[derive(Default)]
struct OrderedStats {
    last: f64,
}

impl CellStats for OrderedStats {
    fn record(&mut self, value: Binary64, _weight: Binary64) {
        self.last = val(value);
    }

    fn record_basis(&mut self, _row: &[Binary64], value: Binary64, weight: Binary64) {
        self.record(value, weight);
    }

    fn merge(&mut self, other: &Self) {
        self.last = other.last;
    }

    fn remove(&mut self, _other: &Self) {}
}

/// Answers with the last observation, or fails.
struct LastModel {
    fails: bool,
}

impl CellModel for LastModel {
    type Stats = OrderedStats;

    fn log_marginal_terms(&self, stats: &[OrderedStats], _sigma_sq: Binary64) -> Result<Binary64> {
        if self.fails {
            return Err(AddiVortesError::Extension { source: Handle { id: 1 } });
        }
        Ok(num(stats.iter().map(|s| s.last).sum::<f64>()))
    }
}

fn number_free_comparisons(m: &Marginals) -> Comparisons {
    Comparisons {
        order: gap(&m.reversed, &m.forward, 1e-9),
        undo: undo_gap(m),
        claimed: num(0.0),
        estimate: None,
        error: num(f64::NAN),
    }
}

#[test]
fn an_order_dependent_statistic_and_failures_are_told_apart() {
    let (observations, weights) = cell_fixture();
    let fixture =
        Fixture { rows: None, observations: nums(&observations), weights: nums(&weights) };
    let failed = Replication {
        star: Err(AddiVortesError::Extension { source: Handle { id: 1 } }),
        draws: Vec::new(),
    };
    let ranks = RankCheck {
        replications: vec![failed],
        n_draws: POSTERIOR_DRAWS,
        chi_sq: num(f64::NAN),
    };

    let m = observe_marginals(&LastModel { fails: false }, &fixture, num(0.3), Family::Mean, &merge_gap);
    let results = check_cell_model(&m, &number_free_comparisons(&m), &ranks);
    assert!(!found(&results, "stats_order_invariance").passed);
    assert!(shown(&found(&results, "stats_merge_consistency").detail).contains("does not undo"));
    assert_eq!(
        shown(&found(&results, "marginal_bayes_factor").detail),
        "draw_cell_values failed while sampling the prior"
    );
    assert_eq!(
        shown(&found(&results, "cell_value_sbc").detail),
        "prior draw failed: error from a user extension"
    );

    let m = observe_marginals(&LastModel { fails: true }, &fixture, num(0.3), Family::Mean, &merge_gap);
    let results = check_cell_model(&m, &number_free_comparisons(&m), &ranks);
    assert_eq!(
        shown(&found(&results, "stats_order_invariance").detail),
        "log_marginal_terms failed: error from a user extension"
    );
    assert_eq!(
        shown(&found(&results, "marginal_bayes_factor").detail),
        "log_marginal_terms failed on the fixture"
    );
}

/// Fails at its third draw.
struct FailingDraws {
    calls: std::cell::Cell<usize>,
}

impl CellModel for FailingDraws {
    type Stats = GaussianStats;

    fn log_marginal_terms(&self, _stats: &[GaussianStats], _sigma_sq: Binary64) -> Result<Binary64> {
        Ok(num(0.0))
    }
}

impl CellDraws<ChaCha8Rng> for FailingDraws {
    fn draw_cell_values(
        &self,
        stats: &[GaussianStats],
        _sigma_sq: Binary64,
        _rng: &mut ChaCha8Rng,
    ) -> Result<Vec<Binary64>> {
        self.calls.set(self.calls.get() + 1);
        if self.calls.get() == 3 {
            return Err(AddiVortesError::Extension { source: Handle { id: 1 } });
        }
        Ok(nums(&vec![self.calls.get() as f64; stats.len()]))
    }
}

#[test]
fn draws_end_at_the_first_failure() {
    let model = FailingDraws { calls: std::cell::Cell::new(0) };
    let (draws, _) = draw_values(&model, &[GaussianStats::default()], num(1.0), rng(1), 10);
    assert_eq!(draws.len(), 3);
    assert_eq!(draws[1].as_ref().unwrap(), &num(2.0));
    assert!(draws[2].is_err());
    let model = FailingDraws { calls: std::cell::Cell::new(0) };
    let (observations, weights) = cell_fixture();
    let fixture =
        Fixture { rows: None, observations: nums(&observations), weights: nums(&weights) };
    let m = observe_marginals(&model, &fixture, num(1.0), Family::Mean, &merge_gap);
    // Two draws for the first half, and the next one fails.
    assert!(observe_prior(&model, &m, num(1.0), rng(1), 2).0.is_none());
    assert_eq!(model.calls.get(), 3);
    let sample = observe_prior(&model, &m, num(1.0), rng(1), 2).0.unwrap();
    assert_eq!(sample.first, nums(&[4.0, 5.0]));
    assert_eq!(sample.whole, nums(&[8.0, 9.0]));
}

#[test]
fn data_sets_end_at_the_first_failed_draw() {
    // Each data set takes one draw from the prior and three from the posterior.
    let generate = |star: Binary64, rng: ChaCha8Rng| {
        let mut stats = GaussianStats::default();
        stats.record(star, num(1.0));
        (stats, rng)
    };
    let model = FailingDraws { calls: std::cell::Cell::new(3) };
    let (made, _) = observe_replications(&model, num(1.0), &generate, 2, 3, rng(1));
    assert_eq!(made.len(), 2);
    assert_eq!(made[0].star.as_ref().unwrap(), &num(4.0));
    assert_eq!(made[1].draws.len(), 3);
    assert_eq!(made[1].draws[2].as_ref().unwrap(), &num(11.0));
    let model = FailingDraws { calls: std::cell::Cell::new(0) };
    let (made, _) = observe_replications(&model, num(1.0), &generate, 2, 3, rng(1));
    assert_eq!(made.len(), 1);
    assert_eq!(made[0].draws.len(), 2);
    assert!(made[0].draws[1].is_err());
    let model = FailingDraws { calls: std::cell::Cell::new(2) };
    let (made, _) = observe_replications(&model, num(1.0), &generate, 2, 3, rng(1));
    assert_eq!(made.len(), 1);
    assert!(made[0].star.is_err() && made[0].draws.is_empty());
}

// ---- cells that hold a variance ----

#[derive(Default)]
struct InvChiSqStats {
    count: f64,
    sum_sq: f64,
}

impl CellStats for InvChiSqStats {
    fn record(&mut self, value: Binary64, _weight: Binary64) {
        self.count += 1.0;
        self.sum_sq += val(value);
    }

    fn record_basis(&mut self, _row: &[Binary64], value: Binary64, weight: Binary64) {
        self.record(value, weight);
    }

    fn merge(&mut self, other: &Self) {
        self.count += other.count;
        self.sum_sq += other.sum_sq;
    }

    fn remove(&mut self, other: &Self) {
        self.count -= other.count;
        self.sum_sq -= other.sum_sq;
    }
}

struct InvChiSqModel {
    nu: f64,
    lambda: f64,
    dropped: bool,
}

impl InvChiSqModel {
    fn prior_term(&self) -> f64 {
        0.5 * self.nu * libm::log(0.5 * self.nu * self.lambda) - libm::lgamma(0.5 * self.nu)
    }
}

impl CellModel for InvChiSqModel {
    type Stats = InvChiSqStats;

    fn log_marginal_terms(&self, stats: &[InvChiSqStats], _sigma_sq: Binary64) -> Result<Binary64> {
        let mut total = 0.0;
        for cell in stats {
            let shape = 0.5 * (self.nu + cell.count);
            total += self.prior_term() + libm::lgamma(shape)
                - shape * libm::log(0.5 * (self.nu * self.lambda + cell.sum_sq));
            if self.dropped {
                total -= self.prior_term();
            }
        }
        Ok(num(total))
    }
}

impl CellDraws<ChaCha8Rng> for InvChiSqModel {
    fn draw_cell_values(
        &self,
        stats: &[InvChiSqStats],
        _sigma_sq: Binary64,
        rng: &mut ChaCha8Rng,
    ) -> Result<Vec<Binary64>> {
        let values: Vec<f64> =
            stats
                .iter()
                .map(|cell| {
                    let law = rand_distr::ChiSquared::new(self.nu + cell.count).unwrap();
                    let chi: f64 = rand_distr::Distribution::sample(&law, rng);
                    (self.nu * self.lambda + cell.sum_sq) / chi
                })
                .collect();
        Ok(nums(&values))
    }
}

/// Squared scale-free residuals.
fn squared_residuals() -> [f64; 6] {
    [0.31, 0.12, 0.07, 0.52, 0.44, 0.18]
}

#[test]
fn inv_chi_sq_cell_model_passes_variance_conjugacy_checks() {
    let model = InvChiSqModel { nu: 8.0, lambda: 0.5, dropped: false };
    let results = variance_results(&model, &squared_residuals(), rng(41));
    for result in &results {
        assert!(result.passed, "{}: {}", result.name, shown(&result.detail));
    }
}

#[test]
fn dropped_variance_prior_term_fails_bayes_factor() {
    let model = InvChiSqModel { nu: 8.0, lambda: 0.5, dropped: true };
    let results = variance_results(&model, &squared_residuals(), rng(42));
    assert!(!found(&results, "marginal_bayes_factor").passed);
}

// ---- cells that hold coefficients ----

/// The precision block and the weighted sums of two coefficients.
#[derive(Default)]
struct BlockStats {
    a: [f64; 3],
    b: [f64; 2],
}

impl CellStats for BlockStats {
    fn record(&mut self, _value: Binary64, _weight: Binary64) {}

    fn record_basis(&mut self, row: &[Binary64], value: Binary64, weight: Binary64) {
        let (z0, z1, r, w) = (val(row[0]), val(row[1]), val(value), val(weight));
        self.a[0] += w * z0 * z0;
        self.a[1] += w * z0 * z1;
        self.a[2] += w * z1 * z1;
        self.b[0] += w * z0 * r;
        self.b[1] += w * z1 * r;
    }

    fn merge(&mut self, other: &Self) {
        for i in 0..3 {
            self.a[i] += other.a[i];
        }
        for i in 0..2 {
            self.b[i] += other.b[i];
        }
    }

    fn remove(&mut self, other: &Self) {
        for i in 0..3 {
            self.a[i] -= other.a[i];
        }
        for i in 0..2 {
            self.b[i] -= other.b[i];
        }
    }
}

struct LinearGaussianModel {
    sigma_beta_sq: f64,
}

impl LinearGaussianModel {
    /// The posterior precision (lower triangle) and the posterior mean.
    fn posterior(&self, s: &BlockStats, sigma_sq: f64) -> ([f64; 3], [f64; 2]) {
        let p = [
            s.a[0] / sigma_sq + 1.0 / self.sigma_beta_sq,
            s.a[1] / sigma_sq,
            s.a[2] / sigma_sq + 1.0 / self.sigma_beta_sq,
        ];
        let det = p[0] * p[2] - p[1] * p[1];
        let (b0, b1) = (s.b[0] / sigma_sq, s.b[1] / sigma_sq);
        (p, [(p[2] * b0 - p[1] * b1) / det, (p[0] * b1 - p[1] * b0) / det])
    }
}

impl CellModel for LinearGaussianModel {
    type Stats = BlockStats;

    fn log_marginal_terms(&self, stats: &[BlockStats], sigma_sq: Binary64) -> Result<Binary64> {
        let sigma_sq = val(sigma_sq);
        let mut total = 0.0;
        for s in stats {
            let (p, mean) = self.posterior(s, sigma_sq);
            let det = p[0] * p[2] - p[1] * p[1];
            total += -0.5 * libm::log(det) - libm::log(self.sigma_beta_sq)
                + 0.5 * (s.b[0] * mean[0] + s.b[1] * mean[1]) / sigma_sq;
        }
        Ok(num(total))
    }
}

impl PayloadDraws<ChaCha8Rng> for LinearGaussianModel {
    fn draw_cell_payload(
        &self,
        stats: &[BlockStats],
        sigma_sq: Binary64,
        rng: &mut ChaCha8Rng,
    ) -> Result<Vec<Binary64>> {
        let sigma_sq = val(sigma_sq);
        let mut payload = Vec::new();
        for s in stats {
            let (p, mean) = self.posterior(s, sigma_sq);
            let l00 = p[0].sqrt();
            let l10 = p[1] / l00;
            let l11 = (p[2] - l10 * l10).sqrt();
            let (z0, z1) = (normal(rng), normal(rng));
            let d1 = z1 / l11;
            let d0 = (z0 - l10 * d1) / l00;
            payload.push(mean[0] + d0);
            payload.push(mean[1] + d1);
        }
        Ok(nums(&payload))
    }
}

#[test]
fn linear_gaussian_model_passes_basis_conjugacy_checks() {
    let rows = vec![
        vec![1.0, 0.2],
        vec![1.0, -0.4],
        vec![1.0, 0.1],
        vec![1.0, 0.5],
        vec![1.0, -0.3],
        vec![1.0, 0.35],
    ];
    let observations = [0.12, -0.05, 0.31, 0.07, -0.22, 0.18];
    let weights = [1.0, 0.5, 2.0, 1.5, 1.0, 0.8];
    let model = LinearGaussianModel { sigma_beta_sq: 0.05 };
    let results = basis_results(&model, 2, &rows, &observations, &weights, 0.3, rng(51));
    for result in &results {
        assert!(result.passed, "{}: {}", result.name, shown(&result.detail));
    }
}

#[test]
fn a_caller_written_basis_payload_can_be_checked() {
    let rows = vec![
        vec![1.0, -0.4],
        vec![1.0, 0.1],
        vec![1.0, 0.3],
        vec![1.0, -0.2],
        vec![1.0, 0.45],
        vec![1.0, -0.35],
    ];
    let observations = [0.21, -0.05, 0.14, -0.11, 0.30, -0.22];
    let weights = [1.0; 6];
    let model = LinearGaussianModel { sigma_beta_sq: 0.5 };
    let results = basis_results(&model, 2, &rows, &observations, &weights, 0.09, rng(11));
    assert!(all_passed(&results));
    assert_eq!(results.len(), 5);
}

#[test]
fn a_wrong_payload_declaration_is_reported_alone() {
    let rows = vec![nums(&[1.0, 0.2]), nums(&[1.0])];
    let nothing = || Err(AddiVortesError::Extension { source: Handle { id: 1 } });
    let m = Marginals {
        forward: nothing(),
        reversed: nothing(),
        merged: nothing(),
        sequential: None,
        merge: None,
        undone: None,
        two: nothing(),
        one: nothing(),
    };
    let ranks =
        RankCheck { replications: Vec::new(), n_draws: POSTERIOR_DRAWS, chi_sq: num(0.0) };
    let results =
        check_basis_cell_model(false, 2, &rows, &m, &number_free_comparisons(&m), &ranks);
    assert_eq!(results.len(), 1);
    assert!(shown(&results[0].detail).contains("`cell_basis()` is false"));
    let results =
        check_basis_cell_model(true, 2, &rows, &m, &number_free_comparisons(&m), &ranks);
    assert_eq!(results.len(), 1);
    assert!(shown(&results[0].detail).contains("basis row 1 has length 1"));
}

#[test]
fn a_short_payload_is_refused() {
    let reason = first_payload(Ok(nums(&[1.0])), 2).unwrap_err();
    assert_eq!(
        shown(&reason),
        "draw_cell_payload returned 1 values for a 1-cell statistic, expected q = 2"
    );
    let first = first_payload(Ok(nums(&[1.0, 2.0, 3.0])), 2).unwrap();
    assert_eq!(first, nums(&[1.0, 2.0]));
}

// ---- coordinate distributions ----

/// A law that is given by a sampler and a log-density.
struct Law<'a> {
    sample: &'a dyn Fn(&mut ChaCha8Rng) -> f64,
    log_density: &'a dyn Fn(f64) -> f64,
}

impl CoordinateDistribution<ChaCha8Rng> for Law<'_> {
    fn sample(&self, rng: &mut ChaCha8Rng) -> Binary64 {
        num((self.sample)(rng))
    }

    fn log_density(&self, value: Binary64) -> Binary64 {
        num((self.log_density)(val(value)))
    }
}

/// The check of a law by its draws and its log-density.
fn law_results(
    sample: &dyn Fn(&mut ChaCha8Rng) -> f64,
    log_density: &dyn Fn(f64) -> f64,
    n_samples: usize,
    rng: &mut ChaCha8Rng,
) -> Vec<CheckResult> {
    let law = Law { sample, log_density };
    let (samples, _) = sorted_samples(&law, rng.clone(), n_samples);
    let samples: Vec<f64> = samples.iter().map(|&x| val(x)).collect();
    let (lo, hi) = (samples[0], samples[n_samples - 1]);
    let pad = if needs_padding(num(hi - lo)) { 1e-6 } else { 0.0 };
    let (lo, hi) = (lo - pad, hi + pad);
    let h = (hi - lo) / PANELS as f64;
    let points: Vec<f64> = (0..=PANELS).map(|i| lo + h * i as f64).collect();
    let densities = log_densities(&law, &nums(&points));
    let mut cumulative = vec![0.0_f64; PANELS + 1];
    let mut previous = libm::exp(val(densities[0]));
    for i in 1..=PANELS {
        let density = libm::exp(val(densities[i]));
        cumulative[i] = cumulative[i - 1] + 0.5 * (previous + density) * h;
        previous = density;
    }
    let total = cumulative[PANELS];
    let cdf = |x: f64| -> f64 {
        let position = ((x - lo) / h).clamp(0.0, PANELS as f64);
        let index = (position as usize).min(PANELS - 1);
        let fraction = position - index as f64;
        (cumulative[index] + fraction * (cumulative[index + 1] - cumulative[index])) / total
    };
    let mut gaps = Vec::new();
    for (i, &x) in samples.iter().enumerate() {
        let theoretical = cdf(x);
        gaps.push(num(((i + 1) as f64 / n_samples as f64 - theoretical).abs()));
        gaps.push(num((theoretical - i as f64 / n_samples as f64).abs()));
    }
    let threshold = 1.5 * 1.63 / (n_samples as f64).sqrt();
    check_coordinate_distribution(num(total), &gaps, num(threshold), n_samples)
}

fn normal_log_density(x: f64, sigma: f64) -> f64 {
    -0.5 * libm::log(2.0 * PI * sigma * sigma) - x * x / (2.0 * sigma * sigma)
}

fn wrapped_log_density(x: f64, sigma: f64) -> f64 {
    let density: f64 =
        (-30..=30).map(|k| libm::exp(normal_log_density(x + 2.0 * PI * k as f64, sigma))).sum();
    libm::log(density)
}

fn wrap(x: f64) -> f64 {
    x - 2.0 * PI * ((x + PI) / (2.0 * PI)).floor()
}

#[test]
fn the_shipped_coordinate_laws_pass_their_own_check_at_every_scale() {
    for sigma in [0.5, 1.0, 2.0, 3.0, 5.0] {
        for seed in 1..=4u8 {
            let results = law_results(
                &|rng| wrap(sigma * normal(rng)),
                &|x| wrapped_log_density(x, sigma),
                4000,
                &mut rng(seed),
            );
            assert!(all_passed(&results), "{}", shown(&results[0].detail));
            let results = law_results(
                &|rng| sigma * normal(rng),
                &|x| normal_log_density(x, sigma),
                4000,
                &mut rng(seed),
            );
            assert!(all_passed(&results), "{}", shown(&results[0].detail));
        }
    }
}

#[test]
fn mismatched_density_fails_ks() {
    let results = law_results(
        &|rng| 2.0 * normal(rng),
        &|x| normal_log_density(x, 0.5),
        2000,
        &mut rng(6),
    );
    assert!(!all_passed(&results));
    assert!(shown(&results[0].detail).contains("disagree"));
}

#[test]
fn the_unpadded_window_still_catches_a_scale_error() {
    let results =
        law_results(&|rng| normal(rng), &|x| normal_log_density(x, 1.2), 4000, &mut rng(3));
    assert!(!all_passed(&results), "a 20% scale mismatch must still be caught");
}

#[test]
fn a_density_without_mass_is_refused() {
    let results = law_results(&|rng| normal(rng), &|_| f64::NEG_INFINITY, 10, &mut rng(3));
    assert_eq!(results.len(), 1);
    assert_eq!(results[0].name, "density_integrates");
    assert!(!results[0].passed);
}

#[test]
fn only_a_point_mass_is_padded() {
    assert!(needs_padding(num(0.0)));
    assert!(needs_padding(num(9e-10)));
    assert!(!needs_padding(num(1e-9)));
    assert!(!needs_padding(num(1.0)));
}

#[test]
fn samples_come_sorted_and_leave_the_randomness_that_is_left() {
    let law = Law { sample: &|rng| normal(rng), log_density: &|x| -x };
    let (samples, left) = sorted_samples(&law, rng(7), 5);
    let mut source = rng(7);
    let mut drawn: Vec<f64> = (0..5).map(|_| normal(&mut source)).collect();
    drawn.sort_by(f64::total_cmp);
    assert_eq!(samples, nums(&drawn));
    assert!(left == source);
    assert_eq!(log_densities(&law, &nums(&[2.0, -1.5])), nums(&[-2.0, 1.5]));
}

/// Hands out a payload that is too short from the second draw on.
struct ShortPayloads {
    calls: std::cell::Cell<usize>,
}

impl CellModel for ShortPayloads {
    type Stats = GaussianStats;

    fn log_marginal_terms(&self, _stats: &[GaussianStats], _sigma_sq: Binary64) -> Result<Binary64> {
        Ok(num(0.0))
    }
}

impl PayloadDraws<ChaCha8Rng> for ShortPayloads {
    fn draw_cell_payload(
        &self,
        _stats: &[GaussianStats],
        _sigma_sq: Binary64,
        _rng: &mut ChaCha8Rng,
    ) -> Result<Vec<Binary64>> {
        self.calls.set(self.calls.get() + 1);
        Ok(nums(&vec![1.0; 4 - self.calls.get()]))
    }
}

#[test]
fn payload_draws_end_at_the_first_short_one() {
    let model = ShortPayloads { calls: std::cell::Cell::new(0) };
    let (payloads, _) =
        draw_payloads(&model, &[GaussianStats::default()], num(1.0), 3, rng(1), 10);
    assert_eq!(
        shown(&payloads.unwrap_err()),
        "draw_cell_payload returned 2 values for a 1-cell statistic, expected q = 3"
    );
    assert_eq!(model.calls.get(), 2);
}

/// A model that counts its draws in the source of randomness and fails at one of them.
struct CountedPayloads {
    fails_at: u64,
}

impl CellModel for CountedPayloads {
    type Stats = GaussianStats;

    fn log_marginal_terms(&self, _stats: &[GaussianStats], _sigma_sq: Binary64) -> Result<Binary64> {
        Ok(num(0.0))
    }
}

impl PayloadDraws<u64> for CountedPayloads {
    fn draw_cell_payload(
        &self,
        stats: &[GaussianStats],
        _sigma_sq: Binary64,
        rng: &mut u64,
    ) -> Result<Vec<Binary64>> {
        *rng += 1;
        if *rng == self.fails_at {
            return Err(AddiVortesError::Extension { source: Handle { id: 1 } });
        }
        Ok(nums(&[*rng as f64, stats[0].sum, 9.0]))
    }
}

#[test]
fn prior_payloads_come_in_three_runs() {
    let model = CountedPayloads { fails_at: 0 };
    let (sample, left) = observe_payload_prior(&model, num(1.0), 2, 0, 2);
    let sample = sample.unwrap();
    assert_eq!(sample.first, vec![nums(&[1.0, 0.0]), nums(&[2.0, 0.0])]);
    assert_eq!(sample.second, vec![nums(&[3.0, 0.0]), nums(&[4.0, 0.0])]);
    assert_eq!(sample.whole, vec![nums(&[5.0, 0.0]), nums(&[6.0, 0.0])]);
    assert_eq!(left, 6);
    let model = CountedPayloads { fails_at: 4 };
    let (sample, left) = observe_payload_prior(&model, num(1.0), 2, 0, 2);
    assert!(shown(&sample.unwrap_err()).starts_with("draw_cell_payload failed: "));
    assert_eq!(left, 4);
}

#[test]
fn payload_data_sets_come_one_after_the_other() {
    let generate = |star: Vec<Binary64>, source: u64| {
        (GaussianStats { count: 1.0, sum: 10.0 * val(star[0]) }, source + 100)
    };
    let probe = |payload: &Vec<Binary64>| num(val(payload[0]) + val(payload[1]));
    let model = CountedPayloads { fails_at: 0 };
    let (reps, left) =
        observe_payload_replications(&model, num(1.0), 2, &generate, &probe, 2, 2, 0);
    let reps = reps.unwrap();
    assert_eq!(reps.len(), 2);
    assert_eq!(reps[0].star.as_ref().unwrap(), &num(1.0));
    let draws: Vec<f64> = reps[0].draws.iter().map(|d| val(*d.as_ref().unwrap())).collect();
    assert_eq!(draws, vec![112.0, 113.0]);
    assert_eq!(reps[1].star.as_ref().unwrap(), &num(104.0));
    let draws: Vec<f64> = reps[1].draws.iter().map(|d| val(*d.as_ref().unwrap())).collect();
    assert_eq!(draws, vec![1245.0, 1246.0]);
    assert_eq!(left, 206);
    let model = CountedPayloads { fails_at: 205 };
    let (reps, left) =
        observe_payload_replications(&model, num(1.0), 2, &generate, &probe, 2, 2, 0);
    assert!(shown(&reps.unwrap_err()).starts_with("draw_cell_payload failed: "));
    assert_eq!(left, 205);
}

#[test]
fn undoing_a_merge_is_not_asked_for_where_the_merge_is_wrong() {
    let m = Marginals {
        forward: Ok(num(1.0)),
        reversed: Ok(num(1.0)),
        merged: Ok(num(2.0)),
        sequential: None,
        merge: Some(Gap { difference: num(1.0), bound: num(1e-9) }),
        undone: None,
        two: Ok(num(1.0)),
        one: Ok(num(1.0)),
    };
    let close = Gap { difference: num(0.0), bound: num(1e-9) };
    let c = Comparisons {
        order: close,
        undo: Gap { difference: num(f64::NAN), bound: num(f64::NAN) },
        claimed: num(0.0),
        estimate: Some(num(0.0)),
        error: num(0.0),
    };
    let ranks =
        RankCheck { replications: Vec::new(), n_draws: POSTERIOR_DRAWS, chi_sq: num(0.0) };
    let results =
        check_basis_cell_model(true, 1, &vec![nums(&[1.0]); 4], &m, &c, &ranks);
    assert!(found(&results, "stats_order_invariance").passed);
    assert!(!found(&results, "stats_merge_consistency").passed);
    assert_eq!(
        shown(&found(&results, "stats_merge_consistency").detail),
        "merging two partial accumulations gives 2.000000e0 but sequential accumulation gives \
         1.000000e0: the add path of the block statistic is wrong"
    );
}

/// A count whose merge is wrong, so that removing would leave less than nothing.
#[derive(Default)]
struct FragileStats {
    count: usize,
}

impl CellStats for FragileStats {
    fn record(&mut self, _value: Binary64, _weight: Binary64) {
        self.count += 1;
    }

    fn record_basis(&mut self, _row: &[Binary64], value: Binary64, weight: Binary64) {
        self.record(value, weight);
    }

    fn merge(&mut self, _other: &Self) {
        self.count = 0;
    }

    fn remove(&mut self, other: &Self) {
        self.count = self.count.checked_sub(other.count).expect("a count to take from");
    }
}

/// Answers with the number of observations, and counts its answers.
struct CountModel {
    asked: std::cell::Cell<usize>,
}

impl CellModel for CountModel {
    type Stats = FragileStats;

    fn log_marginal_terms(&self, stats: &[FragileStats], _sigma_sq: Binary64) -> Result<Binary64> {
        self.asked.set(self.asked.get() + 1);
        Ok(num(stats.iter().map(|s| s.count as f64).sum()))
    }
}

/// A wrong merge is not undone: the model is asked for six marginals, with a basis for
/// five.
#[test]
fn a_wrong_merge_is_not_undone() {
    for (family, asked) in [(Family::Mean, 6), (Family::Basis, 5)] {
        let model = CountModel { asked: std::cell::Cell::new(0) };
        let fixture =
            Fixture { rows: None, observations: nums(&[0.0; 4]), weights: nums(&[1.0; 4]) };
        let m = observe_marginals(&model, &fixture, num(1.0), family, &merge_gap);
        assert!(m.undone.is_none());
        assert_eq!(m.merged.as_ref().unwrap(), &num(0.0));
        assert_eq!(m.sequential.is_none(), family == Family::Basis);
        assert_eq!(model.asked.get(), asked);
    }
}

/// A right merge that removing does not undo.
#[test]
fn a_right_merge_is_undone() {
    let m = Marginals {
        forward: Ok(num(1.0)),
        reversed: Ok(num(1.0)),
        merged: Ok(num(1.0)),
        sequential: Some(Ok(num(1.0))),
        merge: Some(Gap { difference: num(0.0), bound: num(1e-9) }),
        undone: Some(Undone { undone: Ok(num(3.0)), first: Ok(num(2.0)) }),
        two: Ok(num(1.0)),
        one: Ok(num(1.0)),
    };
    let ranks =
        RankCheck { replications: Vec::new(), n_draws: POSTERIOR_DRAWS, chi_sq: num(0.0) };
    let results = check_cell_model(&m, &number_free_comparisons(&m), &ranks);
    assert!(shown(&found(&results, "stats_merge_consistency").detail).contains("does not undo"));
}
