use std::sync::atomic::{AtomicU32, AtomicU64, Ordering};
use std::sync::Arc;

use addivortes::binary64::{from_bits, Binary64};
use addivortes::conformance::assigner::check_assigner;
use addivortes::conformance::basis::check_cell_basis;
use addivortes::conformance::count_priors::{
    check_count_priors, check_count_priors_against_density, Difference,
};
use addivortes::conformance::distance::check_distance;
use addivortes::conformance::inclusion::check_inclusion_model;
use addivortes::conformance::membership::{
    check_membership_kernel, observe_membership, MembershipNumbers,
};
use addivortes::conformance::moves::{
    check_move_set, observe_move, validate_delta, MoveProposal, MoveTrial,
};
use addivortes::conformance::response::check_response_model;
use addivortes::conformance::scale::{
    check_scale_model, check_scale_model_learns_from_data, observe_learning,
};
use addivortes::conformance::{all_passed, bit_digest, report, CheckResult};
use addivortes::engine::data::Data;
use addivortes::engine::error::{AddiVortesError, Result};
use addivortes::engine::tessellation::Tessellation;
use addivortes::extensions::{
    AssignmentCache, AssignmentDelta, CellAssigner, CellBasis, CountPriors, InclusionModel,
    MembershipKernel, ModelCtx, PairwiseDistance, Proposal, ProposalMove, ResponseModel, ScaleModel,
};
use addivortes::message::{Message, Style};
use rand_chacha::ChaCha8Rng;
use rand_core::SeedableRng;

fn num(x: f64) -> Binary64 {
    from_bits(x.to_bits())
}

fn nums(xs: &[f64]) -> Vec<Binary64> {
    xs.iter().map(|&x| num(x)).collect()
}

fn val(x: Binary64) -> f64 {
    f64::from_bits(x.bits)
}

fn rng(seed: u8) -> ChaCha8Rng {
    ChaCha8Rng::from_seed([seed; 32])
}

/// The text of a message, its numbers in the styles that they ask for.
fn shown(message: &Message) -> String {
    let figures: Vec<String> = message
        .figures()
        .iter()
        .map(|figure| {
            let value = f64::from_bits(figure.value.bits);
            match figure.style {
                Style::Plain => format!("{}", value),
                Style::Exponent => format!("{:e}", value),
                Style::Scientific { digits, signed: true } => format!("{:+.*e}", digits, value),
                Style::Scientific { digits, signed: false } => format!("{:.*e}", digits, value),
                Style::Fixed { digits } => format!("{:.*}", digits, value),
            }
        })
        .collect();
    message.render(&figures)
}

fn found<'a>(results: &'a [CheckResult], name: &str) -> &'a CheckResult {
    results
        .iter()
        .find(|r| r.name == name)
        .unwrap_or_else(|| panic!("no result named {}", name))
}

fn matrix(rows: &[&[f64]]) -> Data {
    let rows: Vec<Vec<Binary64>> = rows.iter().map(|row| nums(row)).collect();
    Data::from_rows(&rows).unwrap()
}

fn cells(centres: &[f64], dims: &[usize]) -> Tessellation {
    let n = centres.len() / dims.len();
    Tessellation::new(nums(centres), dims.to_vec(), nums(&vec![0.0; n])).unwrap()
}

// ---- moves ----

/// The check of one move that is its own reverse, with equal selection probabilities.
fn move_results<M: ProposalMove<ChaCha8Rng>>(
    name: &str,
    kernel: &M,
    state: &Tessellation,
    p: usize,
    seed: u8,
) -> Vec<CheckResult> {
    let (seen, _) = observe_move(kernel, kernel, state, &ctx(p), rng(seed));
    let proposal = seen.proposal.map(|made| {
        let (forward, backward) = seen.ratios.unwrap_or((num(0.0), num(0.0)));
        MoveProposal {
            declared: made.delta,
            proposed: made.tessellation,
            reverse: name.into(),
            forward,
            backward,
            residual: num((val(forward) + val(backward)).abs()),
            selection_residual: num(0.0),
        }
    });
    let trial = MoveTrial {
        name: name.into(),
        valid_first: seen.valid_first,
        valid_second: seen.valid_second,
        proposal,
    };
    check_move_set(state, p, &vec![trial])
}

/// The state with its first coordinate drawn anew.
fn relocated(t: &Tessellation, rng: &mut ChaCha8Rng) -> Tessellation {
    let mut centres = t.centres().clone();
    centres[0] = num(0.8 * normal(rng));
    Tessellation::new(centres, t.dims().clone(), t.mus().clone()).unwrap()
}

/// Relocates the first centre, with a structure ratio that does not cancel.
struct WrongRatio;

impl ProposalMove<ChaCha8Rng> for WrongRatio {
    fn is_valid(&self, _state: &Tessellation, _ctx: &ModelCtx) -> bool {
        true
    }

    fn propose(&self, state: &Tessellation, _ctx: &ModelCtx, rng: &mut ChaCha8Rng) -> Proposal {
        Proposal::new(relocated(state, rng))
    }

    fn log_structure_ratio(&self, _: &Tessellation, _: &Tessellation, _: &ModelCtx) -> Binary64 {
        num(0.7)
    }
}

/// Relocates the first centre, with a structure ratio that is not a number.
struct NanRatio;

impl ProposalMove<ChaCha8Rng> for NanRatio {
    fn is_valid(&self, _state: &Tessellation, _ctx: &ModelCtx) -> bool {
        true
    }

    fn propose(&self, state: &Tessellation, _ctx: &ModelCtx, rng: &mut ChaCha8Rng) -> Proposal {
        Proposal::new(relocated(state, rng))
    }

    fn log_structure_ratio(&self, _: &Tessellation, _: &Tessellation, _: &ModelCtx) -> Binary64 {
        num(f64::NAN)
    }
}

/// Moves centre 1 but declares that centre 0 moved. Everything else about the move is
/// consistent.
struct LyingDelta;

impl ProposalMove<ChaCha8Rng> for LyingDelta {
    fn is_valid(&self, state: &Tessellation, _ctx: &ModelCtx) -> bool {
        state.n_cells() >= 2
    }

    fn propose(&self, t: &Tessellation, _ctx: &ModelCtx, _rng: &mut ChaCha8Rng) -> Proposal {
        let d = t.dims().len();
        let mut centres = t.centres().clone();
        centres[d] = num(val(centres[d]) + 0.25);
        Proposal::with_delta(
            Tessellation::new(centres, t.dims().clone(), t.mus().clone()).unwrap(),
            AssignmentDelta::CentreMoved { index: 0 },
        )
    }

    fn log_structure_ratio(&self, _: &Tessellation, _: &Tessellation, _: &ModelCtx) -> Binary64 {
        num(0.0)
    }
}

#[test]
fn a_lying_delta_claim_fails_and_nothing_else_sees_it() {
    let state = cells(&[0.1, 0.5], &[0]);
    let results = move_results("LyingDelta", &LyingDelta, &state, 2, 5);
    let claim = found(&results, "delta_claim_exact");
    assert!(!claim.passed, "{}", shown(&claim.detail));
    assert!(results.iter().filter(|r| r.name != "delta_claim_exact").all(|r| r.passed));
}

#[test]
fn a_nan_structure_ratio_fails_detailed_balance() {
    let state = cells(&[0.1, 0.5], &[0]);
    let results = move_results("NanRatio", &NanRatio, &state, 2, 5);
    assert!(
        !found(&results, "detailed_balance_structure").passed,
        "a NaN structure ratio must fail, not pass through the comparison"
    );
}

#[test]
fn wrong_structure_ratio_fails_detailed_balance() {
    let state = cells(&[0.1, 0.5], &[0]);
    let results = move_results("WrongRatio", &WrongRatio, &state, 2, 5);
    let balance = found(&results, "detailed_balance_structure");
    assert!(!balance.passed);
    assert!(shown(&balance.detail).contains("do not cancel"));
}

#[test]
fn a_move_that_is_not_valid_consumes_no_randomness() {
    let state = cells(&[0.1], &[0]);
    let (seen, left) = observe_move(&LyingDelta, &LyingDelta, &state, &ctx(2), rng(9));
    assert!(!seen.valid_first && !seen.valid_second);
    assert!(seen.proposal.is_none() && seen.ratios.is_none());
    assert!(left == rng(9));
    let (seen, left) = observe_move(&WrongRatio, &NanRatio, &state, &ctx(2), rng(9));
    let made = seen.proposal.unwrap();
    let mut source = rng(9);
    assert_eq!(made.tessellation.centres()[0], num(0.8 * normal(&mut source)));
    assert!(left == source);
    let (forward, backward) = seen.ratios.unwrap();
    assert_eq!(forward, num(0.7));
    assert!(val(backward).is_nan());
}

/// Proposes a dimension that is no covariate.
struct StraySwap;

impl ProposalMove<ChaCha8Rng> for StraySwap {
    fn is_valid(&self, _state: &Tessellation, _ctx: &ModelCtx) -> bool {
        true
    }

    fn propose(&self, t: &Tessellation, ctx: &ModelCtx, _rng: &mut ChaCha8Rng) -> Proposal {
        Proposal::new(
            Tessellation::new(t.centres().clone(), vec![ctx.p], t.mus().clone()).unwrap(),
        )
    }

    fn log_structure_ratio(&self, _: &Tessellation, _: &Tessellation, _: &ModelCtx) -> Binary64 {
        panic!("no ratio is asked for")
    }
}

#[test]
fn an_impure_validity_and_an_invalid_move_are_reported_alone() {
    let state = cells(&[0.1, 0.5], &[0]);
    let trial = |first, second| MoveTrial {
        name: "Coin".into(),
        valid_first: first,
        valid_second: second,
        proposal: None,
    };
    let results = check_move_set(&state, 2, &vec![trial(true, false), trial(false, false)]);
    assert_eq!(results.len(), 2);
    assert_eq!(results[0].name, "is_valid_pure");
    assert!(!results[0].passed);
    assert_eq!(results[1].name, "move_skipped");
    assert!(results[1].passed);
}

#[test]
fn a_covariate_out_of_range_ends_the_checks_of_a_move() {
    let state = cells(&[0.1, 0.5], &[0]);
    let results = move_results("Swap", &StraySwap, &state, 2, 5);
    let contract = found(&results, "proposal_contract");
    assert!(!contract.passed);
    assert_eq!(shown(&contract.detail), "move `Swap` proposed covariate 2 but p = 2");
    assert!(results.iter().all(|r| r.name != "detailed_balance_structure"));
}

#[test]
fn every_kind_of_delta_claim_is_held_against_the_change() {
    let old = cells(&[0.1, 0.5, 0.9], &[0]);
    let added = cells(&[0.1, 0.5, 0.9, 0.3], &[0]);
    let removed = cells(&[0.1, 0.9], &[0]);
    let moved = cells(&[0.1, 0.6, 0.9], &[0]);
    assert!(validate_delta(&old, &added, AssignmentDelta::CentreAdded).is_ok());
    assert!(validate_delta(&old, &moved, AssignmentDelta::CentreAdded).is_err());
    assert!(validate_delta(&old, &removed, AssignmentDelta::CentreRemoved { index: 1 }).is_ok());
    assert!(validate_delta(&old, &removed, AssignmentDelta::CentreRemoved { index: 0 }).is_err());
    assert!(validate_delta(&old, &moved, AssignmentDelta::CentreMoved { index: 1 }).is_ok());
    assert!(validate_delta(&old, &moved, AssignmentDelta::CentreMoved { index: 2 }).is_err());
    assert!(validate_delta(&old, &moved, AssignmentDelta::FullRecompute).is_ok());
}

// ---- distances and assigners ----

fn active_sum(x_row: &[Binary64], centre: &[Binary64], dims: &[usize]) -> f64 {
    dims.iter().map(|&k| (val(x_row[k]) - val(centre[k])).abs()).sum()
}

/// Squared Euclidean distance, with the fast path.
struct Euclidean;

impl PairwiseDistance for Euclidean {
    fn distance(&self, x_row: &[Binary64], centre: &[Binary64], dims: &[usize]) -> Binary64 {
        let mut sum = 0.0;
        for &k in dims {
            let diff = val(x_row[k]) - val(centre[k]);
            sum += diff * diff;
        }
        num(sum)
    }

    fn all_euclidean(&self) -> bool {
        true
    }
}

/// The sums of squared active differences, observation by observation.
fn squared(x: &Data, t: &Tessellation) -> Vec<Binary64> {
    let d = t.dims().len();
    let mut sums = Vec::new();
    for row in 0..x.n_rows() {
        for cell in 0..t.n_cells() {
            let mut sum = 0.0;
            for (di, &dim) in t.dims().iter().enumerate() {
                let diff = val(x.row(row)[dim]) - val(t.centres()[cell * d + di]);
                sum += diff * diff;
            }
            sums.push(num(sum));
        }
    }
    sums
}

fn distance_results<D: PairwiseDistance>(metric: &D, x: &Data, t: &Tessellation) -> Vec<CheckResult> {
    check_distance(metric, x, t, &squared(x, t))
}

/// The nearest cell of every observation, the first of equal ones.
fn nearest<D: PairwiseDistance>(metric: &D, x: &Data, t: &Tessellation) -> (Vec<usize>, Vec<Binary64>) {
    let d = t.dims().len();
    let mut assignment = Vec::new();
    let mut keys = Vec::new();
    for row in 0..x.n_rows() {
        let mut best = (0, f64::INFINITY);
        for cell in 0..t.n_cells() {
            let mut centre = x.row(row).to_vec();
            for (di, &dim) in t.dims().iter().enumerate() {
                centre[dim] = t.centres()[cell * d + di];
            }
            let key = val(metric.distance(x.row(row), &centre, t.dims()));
            if key < best.1 {
                best = (cell, key);
            }
        }
        assignment.push(best.0);
        keys.push(num(best.1));
    }
    (assignment, keys)
}

/// A distance as an assigner that rescans every time.
struct Rescan<D>(D);

impl<D: PairwiseDistance> CellAssigner for Rescan<D> {
    fn assign_cells(&self, x: &Data, t: &Tessellation) -> Result<Vec<usize>> {
        Ok(nearest(&self.0, x, t).0)
    }

    fn reassign(
        &self,
        x: &Data,
        new: &Tessellation,
        _delta: AssignmentDelta,
        _previous: &AssignmentCache,
    ) -> Result<AssignmentCache> {
        let (assignment, keys) = nearest(&self.0, x, new);
        Ok(AssignmentCache::new(assignment, keys))
    }
}

fn assigner_results<A: CellAssigner>(assigner: &A, x: &Data, t: &Tessellation) -> Vec<CheckResult> {
    let d = t.dims().len();
    let added: Vec<Binary64> = t.centres()[..d].iter().map(|c| num(val(*c) + 0.31)).collect();
    let moved: Vec<Binary64> = t.centres().iter().map(|c| num(val(*c) + 0.17)).collect();
    check_assigner(assigner, x, t, &added, &moved)
}

#[test]
fn a_correct_assigner_and_its_distance_pass() {
    let x = matrix(&[&[0.1, 0.5], &[0.9, 0.2], &[0.4, 0.8]]);
    let t = cells(&[0.2, 0.8], &[0]);
    let results = assigner_results(&Rescan(Euclidean), &x, &t);
    assert!(all_passed(&results));
    // One added, two moved, two removed.
    assert_eq!(
        shown(&results[1].detail),
        "5 delta variants match a full recompute bit for bit"
    );
    assert!(all_passed(&distance_results(&Euclidean, &x, &t)));
}

/// Manhattan wrongly claiming the all-Euclidean fast path.
struct FalseClaimManhattan;

impl PairwiseDistance for FalseClaimManhattan {
    fn distance(&self, x_row: &[Binary64], centre: &[Binary64], dims: &[usize]) -> Binary64 {
        num(active_sum(x_row, centre, dims))
    }

    fn all_euclidean(&self) -> bool {
        true // wrong: the key is not the squared-difference sum
    }
}

#[test]
fn false_all_euclidean_claim_fails() {
    let x = matrix(&[&[0.1], &[0.9], &[0.4]]);
    let t = cells(&[0.2, 0.8], &[0]);
    let results = distance_results(&FalseClaimManhattan, &x, &t);
    let claim = found(&results, "all_euclidean_claim");
    assert!(!claim.passed);
    assert!(shown(&claim.detail).contains("SILENTLY"), "{}", shown(&claim.detail));
}

/// An inverted key: nearest becomes farthest.
struct InvertedKey;

impl PairwiseDistance for InvertedKey {
    fn distance(&self, x_row: &[Binary64], centre: &[Binary64], dims: &[usize]) -> Binary64 {
        num(-active_sum(x_row, centre, dims))
    }

    fn all_euclidean(&self) -> bool {
        false
    }
}

#[test]
fn inverted_key_fails_self_minimality() {
    let x = matrix(&[&[0.1], &[0.9]]);
    let t = cells(&[0.2, 0.8], &[0]);
    // Determinism alone would pass this broken metric,
    assert!(all_passed(&assigner_results(&Rescan(InvertedKey), &x, &t)));
    // the correctness check does not.
    let results = distance_results(&InvertedKey, &x, &t);
    let minimal = found(&results, "self_key_minimal");
    assert!(!minimal.passed);
    assert!(shown(&minimal.detail).contains("self-key"), "{}", shown(&minimal.detail));
}

/// A batch assigner whose incremental path ignores a moved centre.
struct StaleReassign;

impl CellAssigner for StaleReassign {
    fn assign_cells(&self, x: &Data, t: &Tessellation) -> Result<Vec<usize>> {
        Ok(nearest(&Euclidean, x, t).0)
    }

    fn reassign(
        &self,
        x: &Data,
        new: &Tessellation,
        delta: AssignmentDelta,
        previous: &AssignmentCache,
    ) -> Result<AssignmentCache> {
        match delta {
            // wrong: pretends a moved centre changes nothing.
            AssignmentDelta::CentreMoved { .. } => Ok(AssignmentCache::new(
                previous.assignment.clone(),
                previous.best_keys.clone(),
            )),
            _ => Ok(AssignmentCache::new(self.assign_cells(x, new)?, Vec::new())),
        }
    }
}

#[test]
fn stale_reassign_fails_consistency() {
    // Each centre is shifted by 0.17: centre 0 (0.0 to 0.17) captures the observation
    // at 0.15 from centre 1 (0.2) on a fresh recompute; the stale cache keeps the old
    // winner.
    let x = matrix(&[&[0.15]]);
    let t = cells(&[0.0, 0.2], &[0]);
    let results = assigner_results(&StaleReassign, &x, &t);
    let consistency = found(&results, "reassign_consistent");
    assert!(!consistency.passed);
    assert!(
        shown(&consistency.detail).contains("CentreMoved"),
        "{}",
        shown(&consistency.detail)
    );
}

/// A cache that never invalidates, whatever the change.
struct NeverInvalidates;

impl CellAssigner for NeverInvalidates {
    fn assign_cells(&self, x: &Data, t: &Tessellation) -> Result<Vec<usize>> {
        Ok(nearest(&Euclidean, x, t).0)
    }

    fn reassign(
        &self,
        _x: &Data,
        _new: &Tessellation,
        _delta: AssignmentDelta,
        previous: &AssignmentCache,
    ) -> Result<AssignmentCache> {
        Ok(AssignmentCache::new(previous.assignment.clone(), previous.best_keys.clone()))
    }
}

#[test]
fn a_cache_that_never_invalidates_fails_against_assign_cells() {
    // The honest assignment of 0.15 against centres 0.0 and 0.2 is cell 1; the cache
    // echoes the cold cache's cell 0.
    let x = matrix(&[&[0.15]]);
    let t = cells(&[0.0, 0.2], &[0]);
    let results = assigner_results(&NeverInvalidates, &x, &t);
    let consistency = found(&results, "reassign_consistent");
    assert!(!consistency.passed, "{}", shown(&consistency.detail));
    assert!(
        shown(&consistency.detail).contains("assign_cells"),
        "the failure must name the independent reference: {}",
        shown(&consistency.detail)
    );
}

#[test]
fn key_digest_is_stable_and_reported() {
    let x = matrix(&[&[0.1, 0.5], &[0.9, 0.2]]);
    let t = cells(&[0.2, 0.8], &[0]);
    let digest = |results: &[CheckResult]| shown(&found(results, "key_digest").detail);
    let a = digest(&distance_results(&Euclidean, &x, &t));
    let b = digest(&distance_results(&Euclidean, &x, &t));
    assert_eq!(a, b); // same fixture, same digest
    assert!(a.contains("digest of 4 keys"), "{a}");
}

/// A metric that changes on every call.
struct FlickeringMetric {
    calls: AtomicU64,
}

impl PairwiseDistance for FlickeringMetric {
    fn distance(&self, x_row: &[Binary64], centre: &[Binary64], dims: &[usize]) -> Binary64 {
        let call = self.calls.fetch_add(1, Ordering::Relaxed);
        let d = active_sum(x_row, centre, dims);
        num(if call % 3 == 0 { -d } else { d }) // sign flips: the nearest flips
    }

    fn all_euclidean(&self) -> bool {
        false
    }
}

#[test]
fn nondeterministic_assigner_fails() {
    let x = matrix(&[&[0.1], &[0.9], &[0.4], &[0.6]]);
    let t = cells(&[0.2, 0.8], &[0]);
    let flickering = Rescan(FlickeringMetric { calls: AtomicU64::new(0) });
    let results = assigner_results(&flickering, &x, &t);
    assert!(!all_passed(&results));
    assert!(shown(&results[0].detail).contains("different assignments"));
}

/// The digest of a single positive zero and of one, by the byte-wise rule.
#[test]
fn digests_follow_the_byte_rule() {
    let by_hand = |values: &[f64]| {
        let mut digest = 0xcbf2_9ce4_8422_2325_u64;
        for value in values {
            for byte in value.to_bits().to_le_bytes() {
                digest ^= u64::from(byte);
                digest = digest.wrapping_mul(0x100_0000_01b3);
            }
        }
        digest
    };
    for values in [vec![], vec![0.0], vec![1.0, -2.5, f64::INFINITY]] {
        assert_eq!(bit_digest(&nums(&values)), by_hand(&values));
    }
    assert_eq!(bit_digest(&[]), 0xcbf2_9ce4_8422_2325);
}

#[test]
fn a_report_names_every_result() {
    let results = vec![
        CheckResult::pass("first", Message::of("fine")),
        CheckResult::fail("second", Message::of("broken")),
    ];
    let (lines, passed) = report(&results);
    assert!(!passed);
    assert!(lines.iter().any(|line| shown(line).contains("second")));
    assert!(!all_passed(&results));
    assert!(all_passed(&results[..1]));
    assert!(all_passed(&[]));
}

// ---- inclusion ----

/// How often each covariate was used.
struct Usage {
    counts: Vec<u64>,
}

/// Fixed weights, whatever the usage.
struct FixedInclusion {
    weights: Vec<Binary64>,
}

impl InclusionModel<Usage, ChaCha8Rng> for FixedInclusion {
    type Error = ();

    fn weights(&self) -> &[Binary64] {
        &self.weights
    }

    fn update(&mut self, _usage: &Usage, _rng: &mut ChaCha8Rng) -> std::result::Result<(), ()> {
        Ok(())
    }
}

#[test]
fn uniform_inclusion_passes() {
    let usage = Usage { counts: vec![0; 4] };
    let make = || FixedInclusion { weights: nums(&[1.0; 4]) };
    let results = check_inclusion_model(make, 4, &usage, &mut rng(4), &mut rng(4));
    assert!(all_passed(&results));
}

/// An update that pulls entropy from shared state outside the generator.
struct LeakyInclusion {
    weights: Vec<Binary64>,
    counter: Arc<AtomicU64>,
}

impl InclusionModel<Usage, ChaCha8Rng> for LeakyInclusion {
    type Error = ();

    fn weights(&self) -> &[Binary64] {
        &self.weights
    }

    fn update(&mut self, _usage: &Usage, _rng: &mut ChaCha8Rng) -> std::result::Result<(), ()> {
        let next = self.counter.fetch_add(1, Ordering::Relaxed) + 1;
        self.weights[0] = num(1.0 + next as f64);
        Ok(())
    }
}

#[test]
fn nondeterministic_inclusion_update_fails() {
    let counter = Arc::new(AtomicU64::new(0));
    let make = || LeakyInclusion { weights: nums(&[1.0, 1.0]), counter: Arc::clone(&counter) };
    let usage = Usage { counts: vec![0; 2] };
    let results = check_inclusion_model(make, 2, &usage, &mut rng(7), &mut rng(7));
    let update = found(&results, "update_deterministic");
    assert!(!update.passed);
    assert!(shown(&update.detail).contains("outside the RNG"));
}

/// Valid weights at construction, destroyed by their own update.
struct SelfDestructingInclusion {
    weights: Vec<Binary64>,
}

impl InclusionModel<Usage, ChaCha8Rng> for SelfDestructingInclusion {
    type Error = ();

    fn weights(&self) -> &[Binary64] {
        &self.weights
    }

    fn update(&mut self, usage: &Usage, _rng: &mut ChaCha8Rng) -> std::result::Result<(), ()> {
        let total: f64 = usage.counts.iter().map(|c| *c as f64).sum();
        for weight in &mut self.weights {
            *weight = num(val(*weight) / total); // not finite at total zero
        }
        Ok(())
    }
}

#[test]
fn an_update_that_destroys_its_weights_fails_after_update() {
    let make = || SelfDestructingInclusion { weights: nums(&[1.0, 1.0]) };
    let usage = Usage { counts: vec![0; 2] }; // the first sweep
    let results = check_inclusion_model(make, 2, &usage, &mut rng(7), &mut rng(7));
    let after = found(&results, "weights_valid_after_update");
    assert!(!after.passed, "{}", shown(&after.detail));
    assert!(results
        .iter()
        .filter(|r| r.name != "weights_valid_after_update")
        .all(|r| r.passed));
}

/// Wrong-length and invalid weights fail their checks.
#[test]
fn invalid_weights_fail() {
    let usage = Usage { counts: vec![0; 3] };
    let make = || FixedInclusion { weights: nums(&[1.0, -2.0]) };
    let results = check_inclusion_model(make, 3, &usage, &mut rng(8), &mut rng(8));
    assert!(!found(&results, "weights_length").passed);
    assert!(!found(&results, "weights_valid").passed);
}

/// An update that fails.
struct FailingInclusion;

impl InclusionModel<Usage, ChaCha8Rng> for FailingInclusion {
    type Error = ();

    fn weights(&self) -> &[Binary64] {
        &[]
    }

    fn update(&mut self, _usage: &Usage, _rng: &mut ChaCha8Rng) -> std::result::Result<(), ()> {
        Err(())
    }
}

#[test]
fn a_failing_inclusion_update_is_reported() {
    let usage = Usage { counts: vec![] };
    let results =
        check_inclusion_model(|| FailingInclusion, 0, &usage, &mut rng(1), &mut rng(1));
    assert_eq!(
        shown(&found(&results, "update_runs").detail),
        "update failed: error from a user extension"
    );
}

// ---- scale ----

/// What a scale model reads.
struct ScaleCtx {
    y: Vec<f64>,
    fit: Vec<f64>,
}

fn scale_ctx(y: &[f64], fit: &[f64]) -> ScaleCtx {
    ScaleCtx { y: y.to_vec(), fit: fit.to_vec() }
}

fn scale_fixture() -> ([f64; 6], [f64; 6]) {
    ([0.31, -0.12, 0.07, 0.22, -0.44, 0.18], [0.1, -0.1, 0.0, 0.2, -0.3, 0.1])
}

fn normal(rng: &mut ChaCha8Rng) -> f64 {
    rand_distr::Distribution::sample(&rand_distr::StandardNormal, rng)
}

/// The scaled inverse chi-squared draw of one variance.
struct GlobalSigma {
    sigma_sq: f64,
}

impl ScaleModel<ScaleCtx, ChaCha8Rng> for GlobalSigma {
    type Error = ();

    fn update(&mut self, ctx: &ScaleCtx, rng: &mut ChaCha8Rng) -> std::result::Result<(), ()> {
        let rss: f64 = ctx.y.iter().zip(&ctx.fit).map(|(y, f)| (y - f) * (y - f)).sum();
        let df = 6.0 + ctx.y.len() as f64;
        let chi: f64 =
            rand_distr::Distribution::sample(&rand_distr::ChiSquared::new(df).unwrap(), rng);
        self.sigma_sq = (6.0 * 0.02 + rss) / chi;
        Ok(())
    }

    fn sigma_sq(&self) -> Binary64 {
        num(self.sigma_sq)
    }

    fn precisions(&self) -> Option<&[Binary64]> {
        None
    }
}

/// A variance held at one.
struct PinnedSigma;

impl ScaleModel<ScaleCtx, ChaCha8Rng> for PinnedSigma {
    type Error = ();

    fn update(&mut self, _ctx: &ScaleCtx, _rng: &mut ChaCha8Rng) -> std::result::Result<(), ()> {
        Ok(())
    }

    fn sigma_sq(&self) -> Binary64 {
        num(1.0)
    }

    fn precisions(&self) -> Option<&[Binary64]> {
        None
    }
}

/// Whether a model learns from the data, with every number that the check rests on.
fn learning<S: ScaleModel<ScaleCtx, ChaCha8Rng>, F: Fn() -> S>(
    make: F,
    y: &[f64],
    fit: &[f64],
    seed: u64,
) -> Vec<CheckResult> {
    let loud: Vec<f64> = y.iter().zip(fit).map(|(y, f)| f + 4.0 * (y - f)).collect();
    let shifted_y: Vec<f64> = y.iter().map(|v| v + 0.75).collect();
    let shifted_fit: Vec<f64> = fit.iter().map(|v| v + 0.75).collect();
    let probes = observe_learning(
        make,
        seed,
        &nums(fit),
        &scale_ctx(y, fit),
        &scale_ctx(&loud, fit),
        &scale_ctx(&shifted_y, &shifted_fit),
    );
    let (difference, bound) = match (probes.base_again, probes.shifted) {
        (Some(base), Some(shifted)) => {
            ((val(base) - val(shifted)).abs(), 1e-9 * val(base).abs().max(1.0))
        }
        _ => (0.0, 0.0),
    };
    check_scale_model_learns_from_data(&nums(fit), &probes, num(difference), num(bound))
}

#[test]
fn global_sigma_and_pinned_sigma_pass_scale_checks() {
    let (y, fit) = scale_fixture();
    let ctx = scale_ctx(&y, &fit);
    let global = || GlobalSigma { sigma_sq: 0.02 };
    assert!(all_passed(&check_scale_model(global, &ctx, 6, &mut rng(31), &mut rng(31))));
    assert!(all_passed(&check_scale_model(|| PinnedSigma, &ctx, 6, &mut rng(32), &mut rng(32))));
}

#[test]
fn the_shelf_scale_model_learns_from_the_data() {
    let (y, fit) = scale_fixture();
    assert!(all_passed(&learning(|| GlobalSigma { sigma_sq: 0.02 }, &y, &fit, 31)));
}

#[test]
fn a_pinned_scale_passes_the_mandatory_checks_and_would_fail_the_opt_in_probe() {
    let (y, fit) = scale_fixture();
    let ctx = scale_ctx(&y, &fit);
    assert!(all_passed(&check_scale_model(|| PinnedSigma, &ctx, 6, &mut rng(32), &mut rng(32))));
    assert!(!all_passed(&learning(|| PinnedSigma, &y, &fit, 32)));
}

/// A correct precision-weighted model.
struct WeightedProfileSigma {
    precisions: Vec<Binary64>,
    sigma_sq: f64,
}

impl ScaleModel<ScaleCtx, ChaCha8Rng> for WeightedProfileSigma {
    type Error = ();

    fn update(&mut self, ctx: &ScaleCtx, rng: &mut ChaCha8Rng) -> std::result::Result<(), ()> {
        let rss: f64 = ctx
            .y
            .iter()
            .zip(&ctx.fit)
            .zip(&self.precisions)
            .map(|((y, f), w)| val(*w) * (y - f) * (y - f))
            .sum();
        let n = ctx.y.len() as f64;
        self.sigma_sq = (6.0 * 0.02 + rss) / (6.0 + n + normal(rng).abs());
        Ok(())
    }

    fn sigma_sq(&self) -> Binary64 {
        num(self.sigma_sq)
    }

    fn precisions(&self) -> Option<&[Binary64]> {
        Some(&self.precisions)
    }
}

#[test]
fn a_correct_model_is_not_red_flagged_by_floating_point_shift_noise() {
    let (y, fit) = scale_fixture();
    let make = || WeightedProfileSigma {
        precisions: nums(&[1.0, 1.0, 0.5, 0.5, 2.0, 2.0]),
        sigma_sq: 0.02,
    };
    assert!(all_passed(&learning(make, &y, &fit, 35)));
}

/// Ignores the data and returns a draw from the prior.
struct PriorOnlySigma {
    sigma_sq: f64,
}

impl ScaleModel<ScaleCtx, ChaCha8Rng> for PriorOnlySigma {
    type Error = ();

    fn update(&mut self, _ctx: &ScaleCtx, rng: &mut ChaCha8Rng) -> std::result::Result<(), ()> {
        let z = normal(rng);
        self.sigma_sq = 0.02 * 6.0 / (z * z + 1.0);
        Ok(())
    }

    fn sigma_sq(&self) -> Binary64 {
        num(self.sigma_sq)
    }

    fn precisions(&self) -> Option<&[Binary64]> {
        None
    }
}

#[test]
fn a_scale_model_that_ignores_the_data_fails_only_the_opt_in_probe() {
    let (y, fit) = scale_fixture();
    let ctx = scale_ctx(&y, &fit);
    let make = || PriorOnlySigma { sigma_sq: 0.02 };
    // Every mandatory check passes it.
    assert!(all_passed(&check_scale_model(make, &ctx, 6, &mut rng(33), &mut rng(33))));
    let results = learning(make, &y, &fit, 33);
    let responds = found(&results, "sigma_sq_responds_to_residuals");
    assert!(!responds.passed, "{}", shown(&responds.detail));
}

/// Scores the raw response instead of the residual.
struct ForgotToSubtractTheFit {
    sigma_sq: f64,
}

impl ScaleModel<ScaleCtx, ChaCha8Rng> for ForgotToSubtractTheFit {
    type Error = ();

    fn update(&mut self, ctx: &ScaleCtx, rng: &mut ChaCha8Rng) -> std::result::Result<(), ()> {
        let n = ctx.y.len() as f64;
        let rss: f64 = ctx.y.iter().map(|y| y * y).sum(); // the mistake
        self.sigma_sq = (6.0 * 0.02 + rss) / (6.0 + n + normal(rng).abs());
        Ok(())
    }

    fn sigma_sq(&self) -> Binary64 {
        num(self.sigma_sq)
    }

    fn precisions(&self) -> Option<&[Binary64]> {
        None
    }
}

#[test]
fn scoring_the_raw_response_fails_only_the_shift_probe() {
    let (y, fit) = scale_fixture();
    let results = learning(|| ForgotToSubtractTheFit { sigma_sq: 0.02 }, &y, &fit, 34);
    let shift = found(&results, "sigma_sq_uses_residuals");
    assert!(!shift.passed, "{}", shown(&shift.detail));
    assert!(found(&results, "sigma_sq_responds_to_residuals").passed);
}

#[test]
fn a_fixture_that_hides_the_residuals_is_refused() {
    let (y, _) = scale_fixture();
    let results = learning(|| GlobalSigma { sigma_sq: 0.02 }, &y, &[0.0; 6], 1);
    assert_eq!(results.len(), 1);
    assert!(!results[0].passed);
    assert_eq!(results[0].name, "sigma_sq_uses_residuals");
}

/// The draws of a seed are those of its generator, run after run, and differ between
/// seeds.
#[test]
fn a_seed_fixes_the_randomness_of_a_probe() {
    let (y, fit) = scale_fixture();
    let ctx = scale_ctx(&y, &fit);
    let probes =
        |seed| {
            let make = || PriorOnlySigma { sigma_sq: 0.02 };
            observe_learning(make, seed, &nums(&[1.0]), &ctx, &ctx, &ctx)
        };
    let first = probes(7);
    assert_eq!(first.base, first.loud);
    assert_eq!(first.base, first.shifted);
    assert_ne!(first.base, probes(8).base);
    let z = normal(&mut ChaCha8Rng::seed_from_u64(7));
    assert_eq!(first.base, Some(num(0.02 * 6.0 / (z * z + 1.0))));
}

/// An update drawing entropy outside the generator it is handed.
struct LeakyScale {
    counter: Arc<AtomicU64>,
    sigma_sq: f64,
}

impl ScaleModel<ScaleCtx, ChaCha8Rng> for LeakyScale {
    type Error = ();

    fn update(&mut self, _ctx: &ScaleCtx, _rng: &mut ChaCha8Rng) -> std::result::Result<(), ()> {
        let next = self.counter.fetch_add(1, Ordering::Relaxed) + 1;
        self.sigma_sq = 1.0 + next as f64;
        Ok(())
    }

    fn sigma_sq(&self) -> Binary64 {
        num(self.sigma_sq)
    }

    fn precisions(&self) -> Option<&[Binary64]> {
        None
    }
}

#[test]
fn nondeterministic_scale_update_fails() {
    let counter = Arc::new(AtomicU64::new(0));
    let make = || LeakyScale { counter: Arc::clone(&counter), sigma_sq: 1.0 };
    let ctx = scale_ctx(&[0.2, -0.1, 0.3, 0.0], &[0.1, 0.0, 0.1, 0.0]);
    let results = check_scale_model(make, &ctx, 4, &mut rng(33), &mut rng(33));
    let update = found(&results, "update_deterministic");
    assert!(!update.passed);
    assert!(shown(&update.detail).contains("outside the RNG"));
}

/// Malformed precisions.
struct BadPrecisions(Vec<Binary64>);

impl ScaleModel<ScaleCtx, ChaCha8Rng> for BadPrecisions {
    type Error = ();

    fn update(&mut self, _ctx: &ScaleCtx, _rng: &mut ChaCha8Rng) -> std::result::Result<(), ()> {
        Ok(())
    }

    fn sigma_sq(&self) -> Binary64 {
        num(1.0)
    }

    fn precisions(&self) -> Option<&[Binary64]> {
        Some(&self.0)
    }
}

#[test]
fn malformed_scale_precisions_fail() {
    let ctx = scale_ctx(&[0.2, -0.1, 0.3, 0.0], &[0.1, 0.0, 0.1, 0.0]);
    for bad in [vec![1.0; 3], vec![1.0, -2.0, 1.0, 1.0]] {
        let make = || BadPrecisions(nums(&bad));
        let results = check_scale_model(make, &ctx, 4, &mut rng(34), &mut rng(34));
        assert!(!found(&results, "precisions_valid").passed);
    }
}

// ---- response ----

/// The scale-mixture step of Student-t errors.
struct RobustTStep {
    df: f64,
}

impl ResponseModel<ChaCha8Rng> for RobustTStep {
    type Error = ();

    fn augment(
        &mut self,
        y: &[Binary64],
        fit: &[Binary64],
        sigma_sq: Binary64,
        rng: &mut ChaCha8Rng,
        working: &mut [Binary64],
        weights: &mut [Binary64],
    ) -> std::result::Result<(), ()> {
        for i in 0..y.len() {
            let residual = val(y[i]) - val(fit[i]);
            let rate = 0.5 * (self.df + residual * residual / val(sigma_sq));
            let gamma = rand_distr::Gamma::new(0.5 * (self.df + 1.0), 1.0 / rate).unwrap();
            working[i] = y[i];
            weights[i] = num(rand_distr::Distribution::sample(&gamma, &mut *rng));
        }
        Ok(())
    }
}

/// The latent Gaussian of a binary response, by rejection.
struct AlbertChibProbit;

impl ResponseModel<ChaCha8Rng> for AlbertChibProbit {
    type Error = ();

    fn augment(
        &mut self,
        y: &[Binary64],
        fit: &[Binary64],
        _sigma_sq: Binary64,
        rng: &mut ChaCha8Rng,
        working: &mut [Binary64],
        weights: &mut [Binary64],
    ) -> std::result::Result<(), ()> {
        for i in 0..y.len() {
            let latent = loop {
                let z = val(fit[i]) + normal(rng);
                if (z > 0.0) == (val(y[i]) == 1.0) {
                    break z;
                }
            };
            working[i] = num(latent);
            weights[i] = num(1.0);
        }
        Ok(())
    }
}

#[test]
fn albert_chib_probit_passes_response_model_checks() {
    let y = nums(&[1.0, 0.0, 1.0, 1.0, 0.0, 0.0]);
    let fit = nums(&[0.4, -0.3, 0.9, 0.1, -0.8, 0.2]);
    let results = check_response_model(
        || AlbertChibProbit,
        &y,
        &fit,
        num(1.0),
        &mut rng(11),
        &mut rng(11),
    );
    assert!(all_passed(&results));
}

#[test]
fn robust_t_step_reports_its_non_unit_weights() {
    let y = nums(&[0.4, -0.2, 0.5, 0.1, -0.3, 0.25]);
    let fit = nums(&[0.1, -0.1, 0.2, 0.05, -0.2, 0.1]);
    let results = check_response_model(
        || RobustTStep { df: 5.0 },
        &y,
        &fit,
        num(0.04),
        &mut rng(12),
        &mut rng(12),
    );
    assert!(all_passed(&results));
    let weights = found(&results, "weights_valid");
    assert!(
        shown(&weights.detail).contains("NOT all 1"),
        "the pairing rule must be reported: {}",
        shown(&weights.detail)
    );
}

/// A step that leaves an observation untouched.
struct PartialAugment;

impl ResponseModel<ChaCha8Rng> for PartialAugment {
    type Error = ();

    fn augment(
        &mut self,
        _y: &[Binary64],
        fit: &[Binary64],
        _sigma_sq: Binary64,
        _rng: &mut ChaCha8Rng,
        working: &mut [Binary64],
        weights: &mut [Binary64],
    ) -> std::result::Result<(), ()> {
        for i in 1..working.len() {
            working[i] = fit[i];
            weights[i] = num(1.0);
        }
        Ok(())
    }
}

#[test]
fn partially_written_working_response_fails() {
    let y = nums(&[1.0, 0.0, 1.0, 0.0]);
    let fit = nums(&[0.2, -0.2, 0.3, -0.1]);
    let results =
        check_response_model(|| PartialAugment, &y, &fit, num(1.0), &mut rng(13), &mut rng(13));
    assert!(!found(&results, "working_finite").passed);
}

/// An augmentation that pulls entropy from shared state.
struct LeakyStep {
    counter: Arc<AtomicU64>,
}

impl ResponseModel<ChaCha8Rng> for LeakyStep {
    type Error = ();

    fn augment(
        &mut self,
        _y: &[Binary64],
        fit: &[Binary64],
        _sigma_sq: Binary64,
        _rng: &mut ChaCha8Rng,
        working: &mut [Binary64],
        weights: &mut [Binary64],
    ) -> std::result::Result<(), ()> {
        let next = self.counter.fetch_add(1, Ordering::Relaxed) + 1;
        for i in 0..working.len() {
            working[i] = num(val(fit[i]) + next as f64);
            weights[i] = num(1.0);
        }
        Ok(())
    }
}

#[test]
fn response_model_drawing_off_the_handed_rng_fails() {
    let y = nums(&[1.0, 0.0, 1.0, 0.0]);
    let fit = nums(&[0.2, -0.2, 0.3, -0.1]);
    let counter = Arc::new(AtomicU64::new(0));
    let results = check_response_model(
        || LeakyStep { counter: Arc::clone(&counter) },
        &y,
        &fit,
        num(1.0),
        &mut rng(14),
        &mut rng(14),
    );
    assert!(!found(&results, "augment_deterministic").passed);
}

// ---- membership ----

/// Squared-distance keys from one observation to four cells.
fn membership_keys() -> Vec<f64> {
    vec![0.02, 0.35, 1.10, 0.60]
}

fn membership_results<K: MembershipKernel>(kernel: &K, keys: &[f64]) -> Vec<CheckResult> {
    let distant: Vec<f64> = keys.iter().map(|key| key + 1.0e3).collect();
    let record = observe_membership(kernel, &nums(keys), &nums(&distant));
    let sum = |weights: &[Binary64]| weights.iter().map(|w| val(*w)).sum::<f64>();
    let (mass, distant_mass) = (sum(&record.weights), sum(&record.distant));
    let reversed_mass = sum(&record.reversed);
    let base: Vec<f64> = record.weights.iter().map(|w| val(*w) / mass).collect();
    let reversed: Vec<f64> = record.reversed.iter().map(|w| val(*w) / reversed_mass).collect();
    let k = keys.len();
    let gaps: Vec<f64> =
        reversed.iter().enumerate().map(|(i, w)| (w - base[k - 1 - i]).abs()).collect();
    let numbers = MembershipNumbers {
        mass: num(mass),
        distant_mass: num(distant_mass),
        reversed_mass: num(reversed_mass),
        base: nums(&base),
        reversed: nums(&reversed),
        gaps: nums(&gaps),
    };
    check_membership_kernel(&nums(keys), &record, &numbers)
}

/// A kernel given by what it writes for a row.
struct Kernel<F: Fn(&[f64]) -> Vec<f64>>(F);

impl<F: Fn(&[f64]) -> Vec<f64>> MembershipKernel for Kernel<F> {
    fn weights(&self, keys: &[Binary64], weights: &mut [Binary64]) {
        let keys: Vec<f64> = keys.iter().map(|k| val(*k)).collect();
        for (weight, value) in weights.iter_mut().zip((self.0)(&keys)) {
            *weight = num(value);
        }
    }
}

fn best(keys: &[f64]) -> f64 {
    keys.iter().copied().fold(f64::INFINITY, f64::min)
}

const TAU: f64 = 0.25;

#[test]
fn softmax_kernel_passes_membership_checks() {
    let kernel = Kernel(|keys: &[f64]| {
        keys.iter().map(|key| libm::exp(-(key - best(keys)) / TAU)).collect()
    });
    assert!(all_passed(&membership_results(&kernel, &membership_keys())));
}

#[test]
fn non_exponential_kernel_passes_membership_checks() {
    let kernel = Kernel(|keys: &[f64]| keys.iter().map(|key| 1.0 / (1.0 + key / 0.1)).collect());
    assert!(all_passed(&membership_results(&kernel, &membership_keys())));
}

#[test]
fn a_position_biased_kernel_fails_only_the_equivariance_check() {
    let kernel = Kernel(|keys: &[f64]| {
        keys.iter()
            .enumerate()
            .map(|(i, key)| libm::exp(-(key - best(keys)) / TAU) * (1.0 + 0.1 * i as f64))
            .collect()
    });
    let results = membership_results(&kernel, &membership_keys());
    let equivariance = found(&results, "weights_permutation_equivariant");
    assert!(!equivariance.passed, "{}", shown(&equivariance.detail));
    assert!(results
        .iter()
        .filter(|r| r.name != "weights_permutation_equivariant")
        .all(|r| r.passed));
}

#[test]
fn a_constant_row_offset_is_not_an_equivariance_violation() {
    let kernel = Kernel(|keys: &[f64]| {
        keys.iter().map(|key| libm::exp(-(key - keys[0]) / TAU)).collect()
    });
    assert!(all_passed(&membership_results(&kernel, &membership_keys())));
}

#[test]
fn a_sign_flipped_kernel_fails_only_the_monotonicity_check() {
    let kernel = Kernel(|keys: &[f64]| {
        keys.iter().map(|key| libm::exp((key - best(keys)) / TAU)).collect()
    });
    let results = membership_results(&kernel, &membership_keys());
    assert!(!found(&results, "weights_weakly_monotone").passed);
    for result in results.iter().filter(|r| r.name != "weights_weakly_monotone") {
        assert!(result.passed, "{}: {}", result.name, shown(&result.detail));
    }
}

#[test]
fn unshifted_softmax_underflows_a_distant_row() {
    let kernel =
        Kernel(|keys: &[f64]| keys.iter().map(|key| libm::exp(-key / TAU)).collect());
    let results = membership_results(&kernel, &membership_keys());
    assert!(!found(&results, "distant_row_keeps_mass").passed);
    assert!(found(&results, "row_has_mass").passed);
    assert!(found(&results, "weights_finite_nonneg").passed);
}

#[test]
fn zero_mass_membership_row_fails() {
    let kernel = Kernel(|keys: &[f64]| vec![0.0; keys.len()]);
    assert!(!found(&membership_results(&kernel, &membership_keys()), "row_has_mass").passed);
}

#[test]
fn a_single_cell_has_nothing_to_relabel() {
    let kernel = Kernel(|keys: &[f64]| vec![1.0; keys.len()]);
    let results = membership_results(&kernel, &[0.5]);
    assert!(all_passed(&results));
    assert!(results.iter().all(|r| r.name != "weights_permutation_equivariant"));
}

// ---- count priors ----

fn ctx(p: usize) -> ModelCtx {
    ModelCtx {
        sigma_sq: num(1.0),
        omega: num(1.5),
        lambda_c: num(10.0),
        sigma_mu_sq: num(0.01),
        p,
        weights: nums(&vec![1.0; p]),
    }
}

/// Shifted Poisson on cells, shifted Binomial on dimensions.
struct ShiftedPoissonBinomial;

impl CountPriors for ShiftedPoissonBinomial {
    fn log_cell_count_ratio(&self, b: usize, ctx: &ModelCtx) -> Binary64 {
        num(libm::log(val(ctx.lambda_c)) - libm::log((b - 1) as f64))
    }

    fn log_dim_count_ratio(&self, d: usize, ctx: &ModelCtx) -> Binary64 {
        let theta = val(ctx.omega) / ctx.p as f64;
        num(libm::log((ctx.p - d + 1) as f64) - libm::log((d - 1) as f64) + libm::log(theta)
            - libm::log(1.0 - theta))
    }
}

#[test]
fn shifted_poisson_binomial_passes_count_prior_checks() {
    let results = check_count_priors(&ShiftedPoissonBinomial, &ctx(4), 12);
    assert!(all_passed(&results));
}

/// A prior returning a non-finite ratio at one count.
struct NonFiniteAtFour;

impl CountPriors for NonFiniteAtFour {
    fn log_cell_count_ratio(&self, b: usize, _ctx: &ModelCtx) -> Binary64 {
        num(if b == 4 { f64::NEG_INFINITY } else { -0.5 })
    }

    fn log_dim_count_ratio(&self, _d: usize, _ctx: &ModelCtx) -> Binary64 {
        num(-0.5)
    }
}

#[test]
fn non_finite_count_ratio_fails() {
    let results = check_count_priors(&NonFiniteAtFour, &ctx(4), 12);
    let finite = found(&results, "cell_ratios_finite");
    assert!(!finite.passed);
    assert!(
        shown(&finite.detail).contains("log_cell_count_ratio(4)"),
        "the failing count must be named: {}",
        shown(&finite.detail)
    );
}

/// A prior with interior state.
struct DriftingPrior {
    calls: AtomicU32,
}

impl CountPriors for DriftingPrior {
    fn log_cell_count_ratio(&self, _b: usize, _ctx: &ModelCtx) -> Binary64 {
        let next = self.calls.fetch_add(1, Ordering::Relaxed) + 1;
        num(-0.5 + f64::from(next) * 1.0e-3)
    }

    fn log_dim_count_ratio(&self, _d: usize, _ctx: &ModelCtx) -> Binary64 {
        num(-0.5)
    }
}

#[test]
fn stateful_count_prior_fails_purity() {
    let prior = DriftingPrior { calls: AtomicU32::new(0) };
    let results = check_count_priors(&prior, &ctx(4), 12);
    assert!(!found(&results, "ratios_deterministic").passed);
}

#[test]
fn a_single_covariate_leaves_no_dimension_ratio() {
    let results = check_count_priors(&ShiftedPoissonBinomial, &ctx(1), 3);
    assert!(all_passed(&results));
    assert_eq!(
        shown(&found(&results, "dim_ratios_finite").detail),
        "p = 1 leaves no adjacent dimension counts to price (nothing to verify)"
    );
}

fn log_cell_pmf(b: usize, ctx: &ModelCtx) -> f64 {
    let ln_factorial: f64 = (1..b).map(|k| libm::log(k as f64)).sum();
    (b - 1) as f64 * libm::log(val(ctx.lambda_c)) - ln_factorial
}

fn log_dim_pmf(d: usize, ctx: &ModelCtx) -> f64 {
    let p = ctx.p;
    let theta = val(ctx.omega) / p as f64;
    let ln_choose: f64 = (1..d).map(|k| libm::log((p - k) as f64)).sum::<f64>()
        - (1..d).map(|k| libm::log(k as f64)).sum::<f64>();
    ln_choose + (d - 1) as f64 * libm::log(theta) + (p - d) as f64 * libm::log(1.0 - theta)
}

fn differ(upper: Binary64, lower: Binary64, actual: Binary64) -> Difference {
    let expected = val(upper) - val(lower);
    let signed = val(actual) - expected;
    Difference { expected: num(expected), signed: num(signed), error: num(signed.abs()) }
}

fn density_results<P: CountPriors>(priors: &P, ctx: &ModelCtx, max_cells: usize) -> Vec<CheckResult> {
    check_count_priors_against_density(
        priors,
        ctx,
        &|b: usize| num(log_cell_pmf(b, ctx)),
        &|d: usize| num(log_dim_pmf(d, ctx)),
        max_cells,
        &differ,
    )
}

#[test]
fn the_shelf_prior_agrees_with_its_own_density() {
    assert!(all_passed(&density_results(&ShiftedPoissonBinomial, &ctx(4), 12)));
}

/// The ratio taken the wrong way round.
struct InvertedCellRatio;

impl CountPriors for InvertedCellRatio {
    fn log_cell_count_ratio(&self, b: usize, ctx: &ModelCtx) -> Binary64 {
        num(-(libm::log(val(ctx.lambda_c)) - libm::log((b - 1) as f64)))
    }

    fn log_dim_count_ratio(&self, d: usize, ctx: &ModelCtx) -> Binary64 {
        ShiftedPoissonBinomial.log_dim_count_ratio(d, ctx)
    }
}

#[test]
fn an_inverted_ratio_is_invisible_without_the_density_and_caught_with_it() {
    let ctx = ctx(4);
    assert!(all_passed(&check_count_priors(&InvertedCellRatio, &ctx, 12)));
    let results = density_results(&InvertedCellRatio, &ctx, 12);
    assert!(!found(&results, "cell_ratio_matches_density").passed);
    assert!(found(&results, "dim_ratio_matches_density").passed);
}

/// A spurious factor that thins the cell-count prior.
struct ThinnedCellPrior;

impl CountPriors for ThinnedCellPrior {
    fn log_cell_count_ratio(&self, b: usize, ctx: &ModelCtx) -> Binary64 {
        num(libm::log(val(ctx.lambda_c)) - libm::log((b - 1) as f64) - libm::log(b as f64))
    }

    fn log_dim_count_ratio(&self, d: usize, ctx: &ModelCtx) -> Binary64 {
        ShiftedPoissonBinomial.log_dim_count_ratio(d, ctx)
    }
}

#[test]
fn the_published_thinning_bug_fails_against_the_density() {
    let results = density_results(&ThinnedCellPrior, &ctx(4), 12);
    let cell = found(&results, "cell_ratio_matches_density");
    assert!(!cell.passed, "{}", shown(&cell.detail));
}

// ---- cell bases ----

fn design_rows() -> Vec<Vec<f64>> {
    vec![
        vec![0.10, -0.25, 0.40, 0.05],
        vec![-0.30, 0.15, -0.20, 0.45],
        vec![0.35, 0.05, 0.10, -0.15],
    ]
}

fn basis_results<B: CellBasis>(basis: &B, rows: &[Vec<f64>]) -> Vec<CheckResult> {
    let moved = |delta: f64| -> Vec<Vec<Binary64>> {
        rows.iter().map(|row| row.iter().map(|x| num(x + delta)).collect()).collect()
    };
    let x_rows: Vec<Vec<Binary64>> = rows.iter().map(|row| nums(row)).collect();
    check_cell_basis(basis, &x_rows, &moved(0.37), &moved(-0.61))
}

/// An intercept and the named columns.
struct LinearBasis {
    columns: Vec<usize>,
}

impl CellBasis for LinearBasis {
    fn q(&self) -> usize {
        1 + self.columns.len()
    }

    fn row(&self, x_row: &[Binary64], out: &mut [Binary64]) {
        out[0] = num(1.0);
        for (i, &column) in self.columns.iter().enumerate() {
            out[i + 1] = x_row[column];
        }
    }

    fn max_column(&self) -> Option<usize> {
        self.columns.iter().copied().max()
    }
}

#[test]
fn the_shelf_basis_passes_its_own_check() {
    assert!(all_passed(&basis_results(&LinearBasis { columns: vec![0, 2] }, &design_rows())));
}

#[test]
fn a_pure_intercept_basis_passes_with_no_declared_column() {
    assert!(all_passed(&basis_results(&LinearBasis { columns: vec![] }, &design_rows())));
}

/// Reads column 3 but declares column 1.
struct UnderDeclaredBasis;

impl CellBasis for UnderDeclaredBasis {
    fn q(&self) -> usize {
        2
    }

    fn row(&self, x_row: &[Binary64], out: &mut [Binary64]) {
        out[0] = num(1.0);
        out[1] = x_row[3];
    }

    fn max_column(&self) -> Option<usize> {
        Some(1)
    }
}

#[test]
fn an_under_declared_max_column_fails_and_nothing_else_sees_it() {
    let results = basis_results(&UnderDeclaredBasis, &design_rows());
    let claim = found(&results, "max_column_claim_exact");
    assert!(!claim.passed, "{}", shown(&claim.detail));
    assert!(shown(&claim.detail).contains('3'), "{}", shown(&claim.detail));
    assert!(results.iter().filter(|r| r.name != "max_column_claim_exact").all(|r| r.passed));
}

/// Leaves an entry of the output buffer unwritten.
struct PartiallyWritingBasis;

impl CellBasis for PartiallyWritingBasis {
    fn q(&self) -> usize {
        3
    }

    fn row(&self, x_row: &[Binary64], out: &mut [Binary64]) {
        out[0] = num(1.0);
        out[1] = x_row[0];
    }

    fn max_column(&self) -> Option<usize> {
        Some(0)
    }
}

#[test]
fn a_partially_written_row_fails() {
    let results = basis_results(&PartiallyWritingBasis, &design_rows());
    assert!(!found(&results, "basis_width").passed);
}

/// Every pair of keys is held against its weights, also where keys are tied.
#[test]
fn an_inversion_behind_tied_keys_is_seen() {
    let kernel = Kernel(|_keys: &[f64]| vec![0.1, 0.9, 0.5]);
    let results = membership_results(&kernel, &[1.0, 1.0, 2.0]);
    let monotone = found(&results, "weights_weakly_monotone");
    assert!(!monotone.passed, "{}", shown(&monotone.detail));
    let kernel = Kernel(|_keys: &[f64]| vec![0.9, 0.5, 0.1]);
    let results = membership_results(&kernel, &[1.0, 1.0, 2.0]);
    assert!(found(&results, "weights_weakly_monotone").passed);
}

/// A prior whose cell ratio is no number.
struct NoCellRatio;

impl CountPriors for NoCellRatio {
    fn log_cell_count_ratio(&self, _b: usize, _ctx: &ModelCtx) -> Binary64 {
        num(f64::NAN)
    }

    fn log_dim_count_ratio(&self, _d: usize, _ctx: &ModelCtx) -> Binary64 {
        num(0.0)
    }
}

#[test]
fn a_ratio_that_is_no_number_matches_no_density() {
    let flat = |_: usize| num(0.0);
    let results =
        check_count_priors_against_density(&NoCellRatio, &ctx(4), &flat, &flat, 3, &differ);
    assert!(!found(&results, "cell_ratio_matches_density").passed);
    assert!(found(&results, "dim_ratio_matches_density").passed);
}

/// A component of every kind whose update moves its source of randomness by a step.
struct Stepping {
    level: Vec<Binary64>,
}

fn stepping() -> Stepping {
    Stepping { level: nums(&[0.5, 0.5]) }
}

impl InclusionModel<(), u64> for Stepping {
    type Error = ();

    fn weights(&self) -> &[Binary64] {
        &self.level
    }

    fn update(&mut self, _usage: &(), rng: &mut u64) -> std::result::Result<(), ()> {
        *rng += 3;
        Ok(())
    }
}

impl ScaleModel<(), u64> for Stepping {
    type Error = ();

    fn update(&mut self, _ctx: &(), rng: &mut u64) -> std::result::Result<(), ()> {
        *rng += 5;
        Ok(())
    }

    fn sigma_sq(&self) -> Binary64 {
        self.level[0]
    }

    fn precisions(&self) -> Option<&[Binary64]> {
        None
    }
}

impl ResponseModel<u64> for Stepping {
    type Error = ();

    fn augment(
        &mut self,
        y: &[Binary64],
        _fit: &[Binary64],
        _sigma_sq: Binary64,
        rng: &mut u64,
        working: &mut [Binary64],
        weights: &mut [Binary64],
    ) -> std::result::Result<(), ()> {
        *rng += 7;
        working.copy_from_slice(y);
        for weight in weights.iter_mut() {
            *weight = num(1.0);
        }
        Ok(())
    }
}

/// Each of the two generators is left where one update leaves it.
#[test]
fn a_check_leaves_its_generators_after_one_update_each() {
    let (mut a, mut b) = (10, 10);
    let results = check_inclusion_model(stepping, 2, &(), &mut a, &mut b);
    assert!(all_passed(&results));
    assert_eq!((a, b), (13, 13));
    let results = check_scale_model(stepping, &(), 2, &mut a, &mut b);
    assert!(all_passed(&results));
    assert_eq!((a, b), (18, 18));
    let y = nums(&[1.0, 2.0]);
    let results = check_response_model(stepping, &y, &y, num(1.0), &mut a, &mut b);
    assert!(all_passed(&results));
    assert_eq!((a, b), (25, 25));
}

#[test]
fn a_copied_result_is_equal() {
    let results = membership_results(&Kernel(|keys: &[f64]| vec![1.0; keys.len()]), &[0.5]);
    assert_eq!(results.clone(), results);
    assert_ne!(results[0], results[1]);
}

/// A prior that only answers below a count, and counts its answers.
struct BoundedPrior {
    calls: AtomicU32,
}

impl CountPriors for BoundedPrior {
    fn log_cell_count_ratio(&self, b: usize, _ctx: &ModelCtx) -> Binary64 {
        assert!(b < 4, "asked beyond the density");
        self.calls.fetch_add(1, Ordering::Relaxed);
        num(0.0)
    }

    fn log_dim_count_ratio(&self, _d: usize, _ctx: &ModelCtx) -> Binary64 {
        num(0.0)
    }
}

/// A density that is not finite ends the comparison before the hook is asked.
#[test]
fn a_hook_is_not_asked_beyond_its_density() {
    let prior = BoundedPrior { calls: AtomicU32::new(0) };
    let ending = |b: usize| num(if b < 4 { 0.0 } else { f64::NEG_INFINITY });
    let flat = |_: usize| num(0.0);
    let results =
        check_count_priors_against_density(&prior, &ctx(4), &ending, &flat, 9, &differ);
    let cell = found(&results, "cell_ratio_matches_density");
    assert!(!cell.passed);
    assert!(shown(&cell.detail).contains("at count 4"), "{}", shown(&cell.detail));
    assert!(found(&results, "dim_ratio_matches_density").passed);
    assert_eq!(prior.calls.load(Ordering::Relaxed), 2);
}

/// The report of a disagreement asks once more: a drifting hook shows its last answer.
#[test]
fn a_disagreement_is_reported_as_it_is_asked_again() {
    let prior = DriftingPrior { calls: AtomicU32::new(0) };
    let flat = |_: usize| num(0.0);
    let results =
        check_count_priors_against_density(&prior, &ctx(1), &flat, &flat, 3, &differ);
    let cell = found(&results, "cell_ratio_matches_density");
    assert!(!cell.passed);
    assert!(
        shown(&cell.detail).starts_with("log_cell_count_ratio(2) returns -0.497000000 but"),
        "{}",
        shown(&cell.detail)
    );
    assert_eq!(prior.calls.load(Ordering::Relaxed), 3);
}

/// A metric that answers a number of times, then panics; it is told what to answer.
struct CountedMetric<F: Fn(usize) -> f64> {
    calls: AtomicU32,
    limit: u32,
    answer: F,
}

impl<F: Fn(usize) -> f64> PairwiseDistance for CountedMetric<F> {
    fn distance(&self, _a: &[Binary64], _b: &[Binary64], _dims: &[usize]) -> Binary64 {
        let call = self.calls.fetch_add(1, Ordering::Relaxed);
        assert!(call < self.limit, "asked too often");
        num((self.answer)(call as usize))
    }

    fn all_euclidean(&self) -> bool {
        false
    }
}

/// A metric is asked no more once a verdict ends its check.
#[test]
fn a_metric_is_asked_no_further_than_its_verdict() {
    let x = matrix(&[&[0.0], &[1.0]]);
    let t = cells(&[0.0, 1.0], &[0]);
    let squared = squared(&x, &t);
    let metric = CountedMetric {
        calls: AtomicU32::new(0),
        limit: 4,
        answer: |call: usize| if call == 1 { f64::NAN } else { 0.0 },
    };
    let results = check_distance(&metric, &x, &t, &squared);
    assert_eq!(results.len(), 1);
    assert_eq!(
        shown(&found(&results, "keys_finite").detail),
        "the key for observation 0, centre 1 is not finite"
    );
    let metric = CountedMetric {
        calls: AtomicU32::new(0),
        limit: 8,
        answer: |call: usize| if call == 7 { 1.0 } else { 0.0 },
    };
    let results = check_distance(&metric, &x, &t, &squared);
    assert_eq!(results.len(), 1);
    assert!(!found(&results, "distance_deterministic").passed);
    let metric = CountedMetric {
        calls: AtomicU32::new(0),
        limit: 9,
        answer: |call: usize| if call == 8 { 1.0 } else { 0.0 },
    };
    let results = check_distance(&metric, &x, &t, &squared);
    assert_eq!(results.len(), 4);
    assert!(shown(&found(&results, "self_key_minimal").detail).starts_with("centre 0 scores"));
}

/// An assigner that fails once and panics after that.
struct FailingOnce {
    calls: AtomicU32,
}

impl CellAssigner for FailingOnce {
    fn assign_cells(&self, _x: &Data, _t: &Tessellation) -> Result<Vec<usize>> {
        assert_eq!(self.calls.fetch_add(1, Ordering::Relaxed), 0, "asked again");
        Err(AddiVortesError::DegenerateResponse {})
    }

    fn reassign(
        &self,
        _x: &Data,
        _t: &Tessellation,
        _delta: AssignmentDelta,
        _previous: &AssignmentCache,
    ) -> Result<AssignmentCache> {
        panic!("asked for a reassignment");
    }
}

#[test]
fn a_failed_assigner_is_not_asked_again() {
    let x = matrix(&[&[0.0], &[1.0]]);
    let t = cells(&[0.0, 1.0], &[0]);
    let results = assigner_results(&FailingOnce { calls: AtomicU32::new(0) }, &x, &t);
    assert_eq!(results.len(), 1);
    assert_eq!(
        shown(&found(&results, "assigner_runs").detail),
        "first call failed: response is constant (zero variance)"
    );
}

/// Where the fit hides the residuals, no model is made.
#[test]
fn hidden_residuals_ask_for_no_model() {
    let make = || -> PriorOnlySigma { panic!("asked for a model") };
    let probes = observe_learning(
        make,
        7,
        &nums(&[0.0, -0.0]),
        &scale_ctx(&[1.0, 2.0], &[0.0, 0.0]),
        &scale_ctx(&[1.0, 2.0], &[0.0, 0.0]),
        &scale_ctx(&[1.0, 2.0], &[0.0, 0.0]),
    );
    assert!(probes.base.is_none() && probes.loud.is_none());
}

/// Results are compared as they read, once their figures are shown.
#[test]
fn results_read_alike_as_they_are_shown() {
    let result = |detail: Message| CheckResult { name: "n".to_string(), passed: true, detail };
    let typed = result(Message::of("out by 0.5"));
    let carried = result(Message::of("out by ").number(num(0.5), Style::Plain));
    assert_ne!(typed, carried);
    let form = |form: &str| vec![form.to_string()];
    assert!(typed.reads_like(&vec![], &carried, &form("0.5")));
    assert!(!typed.reads_like(&vec![], &carried, &form("5e-1")));
}
