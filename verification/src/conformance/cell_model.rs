//! Checks of conjugate cell models: a sufficient statistic, a marginal that agrees
//! with the model's own draws, and calibrated draws.
//!
//! The statistics and marginals are gathered here. The Monte-Carlo Bayes factor, the
//! calibration draws and the differences between marginals are numbers that come in
//! from outside; every verdict on them is decided here.

use crate::binary64::{from_bits, one, Binary64};
use crate::conformance::texts::{
    bayes_match_message, bayes_match_text, bayes_mismatch_basis_message,
    bayes_mismatch_basis_text, bayes_mismatch_mean_message, bayes_mismatch_mean_text,
    bayes_mismatch_variance_message, bayes_mismatch_variance_text, block_merge_wrong_message,
    block_merge_wrong_text, block_order_dependent_message, block_order_dependent_text,
    block_remove_wrong_message, block_remove_wrong_text, coefficient_ranks_skewed_message,
    coefficient_ranks_skewed_text, coefficient_ranks_uniform_message,
    coefficient_ranks_uniform_text, fixture_marginal_failed_message,
    fixture_marginal_failed_text, marginal_failed_message, marginal_failed_text,
    merge_consistent_message, merge_consistent_text, merge_wrong_message, merge_wrong_text,
    not_a_basis_payload_message, not_a_basis_payload_text, order_dependent_message,
    order_dependent_text, order_invariant_message, order_invariant_text, payload_declared_message,
    payload_declared_text, payload_width_mismatch_message, payload_width_mismatch_text,
    posterior_rank_failed_message, posterior_rank_failed_text, prior_draw_failed_message,
    prior_draw_failed_text, prior_rank_failed_message, prior_rank_failed_text,
    ranks_skewed_mean_message, ranks_skewed_mean_text, ranks_skewed_variance_message,
    ranks_skewed_variance_text, ranks_uniform_message, ranks_uniform_text, remove_wrong_message,
    remove_wrong_text,
};
use crate::conformance::{
    all_pass, extend, fails, lemma_both_pass, lemma_results_pass, only, passes, quadruple, same,
    verdicts, CheckResult, Verdict,
};
use crate::engine::error::Result;
use crate::extensions::{CellModel, CellStats};
use crate::message::{text, Message, Text};
use crate::search::{first, lemma_first_holds, lemma_first_is, lemma_first_none};
use vstd::prelude::*;

verus! {

/// A fixture: observations with their weights, and a basis row each where the model
/// holds coefficients.
#[derive(Debug)]
pub struct Fixture {
    /// The basis row of each observation.
    pub rows: Option<Vec<Vec<Binary64>>>,
    /// The observations.
    pub observations: Vec<Binary64>,
    /// The weight of each observation.
    pub weights: Vec<Binary64>,
}

impl Fixture {
    /// Four observations or more, with one weight and one row each.
    pub open spec fn fits(self) -> bool {
        &&& self.observations@.len() >= 4
        &&& self.weights@.len() == self.observations@.len()
        &&& self.rows matches Some(rows) ==> rows@.len() == self.observations@.len()
    }
}

/// A fixture of squared scale-free residuals, which all have weight one.
pub fn variance_fixture(sq_observations: Vec<Binary64>) -> (r: Fixture)
    ensures
        r.rows is None,
        r.observations == sq_observations,
        r.weights@ == Seq::new(sq_observations@.len(), |i: int| one()),
{
    let mut weights: Vec<Binary64> = Vec::new();
    for i in 0..sq_observations.len()
        invariant
            weights@.len() == i,
            forall|j: int| 0 <= j < i ==> weights@[j] == one(),
    {
        weights.push(one());
    }
    assert(weights@ =~= Seq::new(sq_observations@.len(), |i: int| one()));
    Fixture { rows: None, observations: sq_observations, weights }
}

/// A statistic after one more observation.
pub fn after_record<S: CellStats>(before: S, value: Binary64, weight: Binary64) -> (after: S)
    ensures
        exists|stats: &mut S|
            same(*stats, before) && same(*final(stats), after)
                && #[trigger] call_ensures(S::record, (stats, value, weight), ()),
{
    let mut stats = before;
    stats.record(value, weight);
    stats
}

/// A statistic after one more observation with its basis row.
pub fn after_record_basis<S: CellStats>(
    before: S,
    row: &[Binary64],
    value: Binary64,
    weight: Binary64,
) -> (after: S)
    ensures
        exists|stats: &mut S|
            same(*stats, before) && same(*final(stats), after)
                && #[trigger] call_ensures(S::record_basis, (stats, row, value, weight), ()),
{
    let mut stats = before;
    stats.record_basis(row, value, weight);
    stats
}

/// A statistic after it has seen what another one has seen.
pub fn after_merge<S: CellStats>(before: S, other: &S) -> (after: S)
    ensures
        exists|stats: &mut S|
            same(*stats, before) && same(*final(stats), after)
                && #[trigger] call_ensures(S::merge, (stats, other), ()),
{
    let mut stats = before;
    stats.merge(other);
    stats
}

/// A statistic after it has forgotten what another one has seen.
pub fn after_remove<S: CellStats>(before: S, other: &S) -> (after: S)
    ensures
        exists|stats: &mut S|
            same(*stats, before) && same(*final(stats), after)
                && #[trigger] call_ensures(S::remove, (stats, other), ()),
{
    let mut stats = before;
    stats.remove(other);
    stats
}

/// `after` is the statistic `before` after observation `i`.
pub open spec fn recorded<S: CellStats>(f: Fixture, i: int, before: S, after: S) -> bool {
    match f.rows {
        None => call_ensures(
            after_record::<S>,
            (before, f.observations@[i], f.weights@[i]),
            after,
        ),
        Some(rows) => exists|row: &[Binary64]|
            row@ == rows@[i]@ && #[trigger] call_ensures(
                after_record_basis::<S>,
                (before, row, f.observations@[i], f.weights@[i]),
                after,
            ),
    }
}

/// `stats` has seen the observations in this order, and nothing else.
pub open spec fn accumulated<S: CellStats>(f: Fixture, order: Seq<int>, stats: S) -> bool
    decreases order.len(),
{
    if order.len() == 0 {
        call_ensures(S::default, (), stats)
    } else {
        exists|before: S|
            accumulated(f, order.drop_last(), before) && #[trigger] recorded(
                f,
                order.last(),
                before,
                stats,
            )
    }
}

/// The numbers from `start` up to `end`.
pub open spec fn ascending(start: int, end: int) -> Seq<int> {
    Seq::new((end - start) as nat, |i: int| start + i)
}

/// The numbers below `n`, the largest one first.
pub open spec fn descending(n: int) -> Seq<int> {
    Seq::new(n as nat, |i: int| n - 1 - i)
}

/// One more observation extends the order.
proof fn lemma_accumulate<S: CellStats>(f: Fixture, order: Seq<int>, i: int, before: S, after: S)
    requires
        accumulated(f, order, before),
        recorded(f, i, before, after),
    ensures
        accumulated(f, order.push(i), after),
{
    assert(order.push(i).drop_last() =~= order);
    assert(recorded(f, order.push(i).last(), before, after));
}

/// One more observation.
fn record_one<S: CellStats>(f: &Fixture, i: usize, before: S) -> (r: S)
    requires
        f.fits(),
        i < f.observations@.len(),
    ensures
        recorded(*f, i as int, before, r),
{
    match &f.rows {
        None => after_record(before, f.observations[i], f.weights[i]),
        Some(rows) => after_record_basis(
            before,
            rows[i].as_slice(),
            f.observations[i],
            f.weights[i],
        ),
    }
}

/// Accumulate the observations from `start` up to `end`, in order.
fn accumulate<S: CellStats>(f: &Fixture, start: usize, end: usize) -> (r: S)
    requires
        f.fits(),
        start <= end <= f.observations@.len(),
    ensures
        accumulated(*f, ascending(start as int, end as int), r),
{
    let mut stats: S = S::default();
    assert(ascending(start as int, start as int) =~= Seq::<int>::empty());
    for i in start..end
        invariant
            f.fits(),
            end <= f.observations@.len(),
            accumulated(*f, ascending(start as int, i as int), stats),
    {
        let ghost before = stats;
        stats = record_one(f, i, stats);
        proof {
            let order = ascending(start as int, i as int);
            lemma_accumulate(*f, order, i as int, before, stats);
            assert(order.push(i as int) =~= ascending(start as int, i + 1));
        }
    }
    stats
}

/// Accumulate all observations, the last one first.
fn accumulate_reversed<S: CellStats>(f: &Fixture) -> (r: S)
    requires
        f.fits(),
    ensures
        accumulated(*f, descending(f.observations@.len() as int), r),
{
    let n: usize = f.observations.len();
    let mut stats: S = S::default();
    assert(descending(n as int).take(0) =~= Seq::<int>::empty());
    for i in 0..n
        invariant
            f.fits(),
            n == f.observations@.len(),
            accumulated(*f, descending(n as int).take(i as int), stats),
    {
        let ghost before = stats;
        stats = record_one(f, n - 1 - i, stats);
        proof {
            let order = descending(n as int).take(i as int);
            lemma_accumulate(*f, order, n - 1 - i, before, stats);
            assert(order.push(n - 1 - i) =~= descending(n as int).take(i + 1));
        }
    }
    assert(descending(n as int).take(n as int) =~= descending(n as int));
    stats
}

/// `r` is what the model answers for the marginal of the cells.
pub open spec fn marginal_of<M: CellModel>(
    model: &M,
    cells: Seq<M::Stats>,
    sigma_sq: Binary64,
    r: Result<Binary64>,
) -> bool {
    exists|stats: &[M::Stats]|
        stats@ == cells && #[trigger] call_ensures(
            M::log_marginal_terms,
            (model, stats, sigma_sq),
            r,
        )
}

/// Ask for the marginal of one cell.
fn ask_one<M: CellModel>(model: &M, cell: M::Stats, sigma_sq: Binary64) -> (r: (
    Result<Binary64>,
    M::Stats,
))
    ensures
        marginal_of(model, seq![cell], sigma_sq, r.0),
        r.1 == cell,
{
    let mut cells: Vec<M::Stats> = Vec::new();
    cells.push(cell);
    assert(cells@ =~= seq![cell]);
    let stats = cells.as_slice();
    let answer = model.log_marginal_terms(stats, sigma_sq);
    assert(call_ensures(M::log_marginal_terms, (model, stats, sigma_sq), answer));
    let cell = cells.remove(0);
    (answer, cell)
}

/// Ask for the marginal of two cells.
fn ask_two<M: CellModel>(model: &M, a: M::Stats, b: M::Stats, sigma_sq: Binary64) -> (r: Result<
    Binary64,
>)
    ensures
        marginal_of(model, seq![a, b], sigma_sq, r),
{
    let mut cells: Vec<M::Stats> = Vec::new();
    cells.push(a);
    cells.push(b);
    assert(cells@ =~= seq![a, b]);
    let stats = cells.as_slice();
    let answer = model.log_marginal_terms(stats, sigma_sq);
    assert(call_ensures(M::log_marginal_terms, (model, stats, sigma_sq), answer));
    answer
}

/// What a cell holds: a mean, a variance factor, or coefficients of a basis.
#[derive(Debug, Clone, Copy, PartialEq, Eq, Structural)]
pub enum Family {
    /// A mean.
    Mean,
    /// A variance factor.
    Variance,
    /// Coefficients of a basis.
    Basis,
}

/// The difference of two marginals and the largest one that rounding explains, both
/// as numbers.
#[derive(Debug, Clone, Copy)]
pub struct Gap {
    /// The absolute difference.
    pub difference: Binary64,
    /// The largest difference that rounding explains.
    pub bound: Binary64,
}

impl Gap {
    /// Does rounding explain the difference?
    pub open spec fn within(self) -> bool {
        self.difference.at_most(self.bound)
    }

    /// Does rounding explain the difference?
    pub fn is_within(&self) -> (r: bool)
        ensures
            r == self.within(),
    {
        self.difference.is_at_most(self.bound)
    }
}

/// What a model answered about undoing a merge.
#[derive(Debug)]
pub struct Undone {
    /// The merged cell without the second half.
    pub undone: Result<Binary64>,
    /// The first half on its own.
    pub first: Result<Binary64>,
}

/// What a model answered about a fixture.
#[derive(Debug)]
pub struct Marginals {
    /// One cell, all observations in order.
    pub forward: Result<Binary64>,
    /// One cell, all observations in reverse.
    pub reversed: Result<Binary64>,
    /// One cell, merged from the two halves.
    pub merged: Result<Binary64>,
    /// One cell, asked again; with a basis it is not.
    pub sequential: Option<Result<Binary64>>,
    /// Merged against the one in order, where there are both.
    pub merge: Option<Gap>,
    /// The undoing of the merge, asked for only where rounding explains that difference.
    pub undone: Option<Undone>,
    /// Two cells, one half each.
    pub two: Result<Binary64>,
    /// One cell, asked once more.
    pub one: Result<Binary64>,
}

/// The marginal that the merged halves are held against: the one that was asked for
/// again, or where none was, the one that was asked for first.
pub open spec fn baseline(m: Marginals) -> Result<Binary64> {
    match m.sequential {
        Some(answer) => answer,
        None => m.forward,
    }
}

/// Rounding explains the difference that merging makes.
pub open spec fn merges(m: Marginals) -> bool {
    m.merge matches Some(gap) && gap.within()
}

/// The statistics that the answers are about.
pub struct Accumulation<S> {
    /// All observations in order.
    pub whole: S,
    /// All observations in reverse.
    pub reversed: S,
    /// The first half.
    pub first: S,
    /// The second half.
    pub second: S,
    /// The two halves, merged.
    pub merged: S,
    /// The first half, as the first of two cells.
    pub cell_a: S,
    /// The second half, as the second of two cells.
    pub cell_b: S,
}

impl<S: CellStats> Accumulation<S> {
    /// The statistics are those of the fixture.
    pub open spec fn of(self, f: Fixture) -> bool {
        let n = f.observations@.len() as int;
        let half = n / 2;
        &&& accumulated(f, ascending(0, n), self.whole)
        &&& accumulated(f, descending(n), self.reversed)
        &&& accumulated(f, ascending(0, half), self.first)
        &&& accumulated(f, ascending(half, n), self.second)
        &&& call_ensures(after_merge::<S>, (self.first, &self.second), self.merged)
        &&& accumulated(f, ascending(0, half), self.cell_a)
        &&& accumulated(f, ascending(half, n), self.cell_b)
    }
}

/// The answers are about the merged halves without the second one, and about the first
/// half, accumulated again.
pub open spec fn undo_answered<M: CellModel>(
    model: &M,
    f: Fixture,
    merged: M::Stats,
    second: M::Stats,
    sigma_sq: Binary64,
    r: Undone,
) -> bool {
    exists|undone: M::Stats, first: M::Stats|
        {
            &&& call_ensures(after_remove::<M::Stats>, (merged, &second), undone)
            &&& accumulated(f, ascending(0, f.observations@.len() as int / 2), first)
            &&& #[trigger] marginal_of(model, seq![undone], sigma_sq, r.undone)
            &&& #[trigger] marginal_of(model, seq![first], sigma_sq, r.first)
        }
}

/// Take the second half out of the merged halves again, and ask for the marginal of what
/// is left and of the first half.
fn observe_undo<M: CellModel>(
    model: &M,
    f: &Fixture,
    merged: M::Stats,
    second: &M::Stats,
    sigma_sq: Binary64,
) -> (r: Undone)
    requires
        f.fits(),
    ensures
        undo_answered(model, *f, merged, *second, sigma_sq, r),
{
    let half: usize = f.observations.len() / 2;
    let left = after_remove(merged, second);
    let alone: M::Stats = accumulate(f, 0, half);
    let (undone, left) = ask_one(model, left, sigma_sq);
    let (first, alone) = ask_one(model, alone, sigma_sq);
    assert(marginal_of(model, seq![left], sigma_sq, undone));
    assert(marginal_of(model, seq![alone], sigma_sq, first));
    Undone { undone, first }
}

/// The marginals are what the model answers about the statistics. `gap` measures the
/// difference of the merged halves and the one in order; only where rounding explains
/// it, the merge is undone.
pub open spec fn answered<M: CellModel, G: Fn(Binary64, Binary64) -> Gap>(
    model: &M,
    f: Fixture,
    a: Accumulation<M::Stats>,
    sigma_sq: Binary64,
    family: Family,
    gap: G,
    m: Marginals,
) -> bool {
    &&& a.of(f)
    &&& marginal_of(model, seq![a.whole], sigma_sq, m.forward)
    &&& marginal_of(model, seq![a.reversed], sigma_sq, m.reversed)
    &&& marginal_of(model, seq![a.merged], sigma_sq, m.merged)
    &&& (m.sequential is None) == (family == Family::Basis)
    &&& m.sequential matches Some(answer) ==> marginal_of(model, seq![a.whole], sigma_sq, answer)
    &&& match (m.merged, baseline(m)) {
        (Ok(merged), Ok(in_order)) => m.merge is Some && call_ensures(
            gap,
            (merged, in_order),
            m.merge->0,
        ),
        _ => m.merge is None,
    }
    &&& (m.undone is Some) == merges(m)
    &&& m.undone matches Some(undone) ==> undo_answered(
        model,
        f,
        a.merged,
        a.second,
        sigma_sq,
        undone,
    )
    &&& marginal_of(model, seq![a.cell_a, a.cell_b], sigma_sq, m.two)
    &&& marginal_of(model, seq![a.whole], sigma_sq, m.one)
}

/// Gather what a model answers about a fixture: the marginals of all observations in
/// order and in reverse, of the two halves merged, where the merge is right of the
/// merged halves without the second one and of the first half, and of two cells with
/// one half each. `gap` measures the difference of the merged halves and the one in
/// order.
pub fn observe_marginals<M: CellModel, G: Fn(Binary64, Binary64) -> Gap>(
    model: &M,
    f: &Fixture,
    sigma_sq: Binary64,
    family: Family,
    gap: &G,
) -> (r: Marginals)
    requires
        f.fits(),
        forall|a: Binary64, b: Binary64| #[trigger] call_requires(*gap, (a, b)),
    ensures
        exists|a: Accumulation<M::Stats>| #[trigger]
            answered(model, *f, a, sigma_sq, family, *gap, r),
{
    let n: usize = f.observations.len();
    let half: usize = n / 2;
    let whole: M::Stats = accumulate(f, 0, n);
    let backwards: M::Stats = accumulate_reversed(f);
    let (forward, whole) = ask_one(model, whole, sigma_sq);
    let (reversed, backwards) = ask_one(model, backwards, sigma_sq);
    let first: M::Stats = accumulate(f, 0, half);
    let second: M::Stats = accumulate(f, half, n);
    let ghost first_half = first;
    let joined = after_merge(first, &second);
    let (merged, joined) = ask_one(model, joined, sigma_sq);
    let ghost merged_whole = joined;
    let (sequential, whole) = if family == Family::Basis {
        (None, whole)
    } else {
        let (answer, whole) = ask_one(model, whole, sigma_sq);
        (Some(answer), whole)
    };
    let in_order = match &sequential {
        Some(answer) => answer,
        None => &forward,
    };
    let merge = match (&merged, in_order) {
        (Ok(a), Ok(b)) => Some(gap(*a, *b)),
        _ => None,
    };
    let merges = match &merge {
        Some(gap) => gap.is_within(),
        None => false,
    };
    let undone = if merges {
        Some(observe_undo(model, f, joined, &second, sigma_sq))
    } else {
        None
    };
    let cell_a: M::Stats = accumulate(f, 0, half);
    let cell_b: M::Stats = accumulate(f, half, n);
    let ghost a = Accumulation::<M::Stats> {
        whole,
        reversed: backwards,
        first: first_half,
        second,
        merged: merged_whole,
        cell_a,
        cell_b,
    };
    let two = ask_two(model, cell_a, cell_b, sigma_sq);
    let (one, _) = ask_one(model, whole, sigma_sq);
    let r = Marginals { forward, reversed, merged, sequential, merge, undone, two, one };
    assert(answered(model, *f, a, sigma_sq, family, *gap, r));
    r
}

/// The numbers that the verdicts on the marginals rest on.
#[derive(Debug, Clone, Copy)]
pub struct Comparisons {
    /// In order against in reverse.
    pub order: Gap,
    /// The merged halves without the second one, against the first half.
    pub undo: Gap,
    /// The marginal of two cells minus that of one.
    pub claimed: Binary64,
    /// The Monte-Carlo estimate of the same, or nothing where a draw failed.
    pub estimate: Option<Binary64>,
    /// The absolute difference of estimate and claim.
    pub error: Binary64,
}

/// The largest error of the Monte-Carlo estimate: the binary64 number nearest to
/// 0.15.
#[verifier::allow_in_spec]
pub fn bayes_tolerance() -> Binary64
    returns
        from_bits(0x3fc3_3333_3333_3333),
{
    from_bits(0x3fc3_3333_3333_3333)
}

/// The largest statistic of uniform ranks: the binary64 number nearest to 43.8, the
/// 99.9% point of 19 degrees of freedom.
#[verifier::allow_in_spec]
pub fn rank_tolerance() -> Binary64
    returns
        from_bits(0x4045_e666_6666_6666),
{
    from_bits(0x4045_e666_6666_6666)
}

/// How many prior draws the Monte-Carlo estimate takes for each set of
/// observations.
pub const MONTE_CARLO_DRAWS: usize = 40_000;

/// How many data sets the ranks are taken over.
pub const REPLICATIONS: usize = 400;

/// How many posterior draws a rank is taken among.
pub const POSTERIOR_DRAWS: usize = 19;

/// How many observations a data set of the rank check has: four, or all there are.
pub fn cell_size(n: usize) -> (r: usize)
    ensures
        r == (if n < 4 {
            n
        } else {
            4
        }),
{
    if n < 4 {
        n
    } else {
        4
    }
}

/// The verdict on the order of accumulation.
pub open spec fn order_verdict(family: Family, m: Marginals, c: Comparisons) -> Verdict {
    let name = "stats_order_invariance"@;
    match (m.forward, m.reversed) {
        (Err(e), _) => fails(name, marginal_failed_text(e@.message())),
        (_, Err(e)) => fails(name, marginal_failed_text(e@.message())),
        (Ok(a), Ok(b)) => if c.order.within() {
            passes(name, order_invariant_text(a))
        } else if family == Family::Basis {
            fails(name, block_order_dependent_text(a, b))
        } else {
            fails(name, order_dependent_text(a, b))
        },
    }
}

/// There is a marginal of the merged halves without the second one, and one of the first
/// half.
pub open spec fn undoes(m: Marginals) -> bool {
    m.undone matches Some(u) && u.undone is Ok && u.first is Ok
}

/// The verdict on merging and removing.
pub open spec fn merge_verdict(family: Family, m: Marginals, c: Comparisons) -> Verdict {
    let name = "stats_merge_consistency"@;
    match (m.merged, baseline(m)) {
        (Err(e), _) => fails(name, marginal_failed_text(e@.message())),
        (_, Err(e)) => fails(name, marginal_failed_text(e@.message())),
        (Ok(a), Ok(b)) => if merges(m) {
            if undoes(m) && c.undo.within() {
                passes(name, merge_consistent_text())
            } else if family == Family::Basis {
                fails(name, block_remove_wrong_text())
            } else {
                fails(name, remove_wrong_text())
            }
        } else if family == Family::Basis {
            fails(name, block_merge_wrong_text(a, b))
        } else {
            fails(name, merge_wrong_text(a, b))
        },
    }
}

/// The verdict on the Bayes factor.
pub open spec fn bayes_verdict(family: Family, m: Marginals, c: Comparisons) -> Verdict {
    let name = "marginal_bayes_factor"@;
    if m.two is Err || m.one is Err {
        fails(name, fixture_marginal_failed_text())
    } else {
        match c.estimate {
            None => fails(name, prior_draw_failed_text()),
            Some(estimate) => if c.error.at_most(bayes_tolerance()) {
                passes(name, bayes_match_text(c.claimed, estimate))
            } else {
                fails(
                    name,
                    match family {
                        Family::Mean => bayes_mismatch_mean_text(c.claimed, estimate),
                        Family::Variance => bayes_mismatch_variance_text(c.claimed, estimate),
                        Family::Basis => bayes_mismatch_basis_text(c.claimed, estimate),
                    },
                )
            },
        }
    }
}

/// The result on the order of accumulation.
fn check_order(family: Family, m: &Marginals, c: &Comparisons) -> (r: CheckResult)
    ensures
        r@ == order_verdict(family, *m, *c),
{
    let name = "stats_order_invariance";
    match (&m.forward, &m.reversed) {
        (Err(e), _) => CheckResult::fail(name, marginal_failed_message(&e.message())),
        (_, Err(e)) => CheckResult::fail(name, marginal_failed_message(&e.message())),
        (Ok(a), Ok(b)) => {
            if c.order.is_within() {
                CheckResult::pass(name, order_invariant_message(*a))
            } else if family == Family::Basis {
                CheckResult::fail(name, block_order_dependent_message(*a, *b))
            } else {
                CheckResult::fail(name, order_dependent_message(*a, *b))
            }
        },
    }
}

/// The result on merging and removing.
fn check_merge(family: Family, m: &Marginals, c: &Comparisons) -> (r: CheckResult)
    ensures
        r@ == merge_verdict(family, *m, *c),
{
    let name = "stats_merge_consistency";
    let in_order = match &m.sequential {
        Some(answer) => answer,
        None => &m.forward,
    };
    let merges = match &m.merge {
        Some(gap) => gap.is_within(),
        None => false,
    };
    let undoes = match &m.undone {
        Some(answers) => answers.undone.is_ok() && answers.first.is_ok(),
        None => false,
    };
    match (&m.merged, in_order) {
        (Err(e), _) => CheckResult::fail(name, marginal_failed_message(&e.message())),
        (_, Err(e)) => CheckResult::fail(name, marginal_failed_message(&e.message())),
        (Ok(a), Ok(b)) => {
            if merges {
                if undoes && c.undo.is_within() {
                    CheckResult::pass(name, merge_consistent_message())
                } else if family == Family::Basis {
                    CheckResult::fail(name, block_remove_wrong_message())
                } else {
                    CheckResult::fail(name, remove_wrong_message())
                }
            } else if family == Family::Basis {
                CheckResult::fail(name, block_merge_wrong_message(*a, *b))
            } else {
                CheckResult::fail(name, merge_wrong_message(*a, *b))
            }
        },
    }
}

/// The result on the Bayes factor.
fn check_bayes(family: Family, m: &Marginals, c: &Comparisons) -> (r: CheckResult)
    ensures
        r@ == bayes_verdict(family, *m, *c),
{
    let name = "marginal_bayes_factor";
    if m.two.is_err() || m.one.is_err() {
        return CheckResult::fail(name, fixture_marginal_failed_message());
    }
    match c.estimate {
        None => CheckResult::fail(name, prior_draw_failed_message()),
        Some(estimate) => {
            if c.error.is_at_most(bayes_tolerance()) {
                CheckResult::pass(name, bayes_match_message(c.claimed, estimate))
            } else {
                CheckResult::fail(
                    name,
                    match family {
                        Family::Mean => bayes_mismatch_mean_message(c.claimed, estimate),
                        Family::Variance => bayes_mismatch_variance_message(c.claimed, estimate),
                        Family::Basis => bayes_mismatch_basis_message(c.claimed, estimate),
                    },
                )
            }
        },
    }
}

/// One data set of the rank check: the value it was drawn from, and the posterior
/// draws given the data.
#[derive(Debug)]
pub struct Replication {
    /// The prior draw.
    pub star: Result<Binary64>,
    /// The posterior draws.
    pub draws: Vec<Result<Binary64>>,
}

/// How many of the first `k` draws lie below the prior draw.
pub open spec fn draws_below(rep: Replication, k: nat) -> nat
    decreases k,
{
    if k == 0 {
        0
    } else {
        draws_below(rep, (k - 1) as nat) + if rep.star is Ok && rep.draws@[k - 1] is Ok && (
        rep.draws@[k - 1]->Ok_0).below(rep.star->Ok_0) {
            1nat
        } else {
            0nat
        }
    }
}

/// The rank of a data set.
pub open spec fn rank_of(rep: Replication) -> nat {
    draws_below(rep, rep.draws@.len())
}

/// Why a data set has no rank: its prior draw failed, or else its first failed
/// posterior draw.
pub open spec fn rank_fault(rep: Replication) -> Option<Text> {
    match rep.star {
        Err(e) => Some(prior_rank_failed_text(e@.message())),
        Ok(_) => match first(rep.draws@.len(), |i: int| rep.draws@[i] is Err) {
            Some(i) => Some(posterior_rank_failed_text((rep.draws@[i]->Err_0)@.message())),
            None => None,
        },
    }
}

/// The first data set without a rank.
pub open spec fn faulty_replication(reps: Seq<Replication>) -> Option<int> {
    first(reps.len(), |i: int| rank_fault(reps[i]) is Some)
}

/// How many of the first `k` data sets have this rank.
pub open spec fn bin_count(reps: Seq<Replication>, k: nat, rank: nat) -> nat
    decreases k,
{
    if k == 0 {
        0
    } else {
        bin_count(reps, (k - 1) as nat, rank) + if rank_of(reps[k - 1]) == rank {
            1nat
        } else {
            0nat
        }
    }
}

/// No more draws below than draws.
proof fn lemma_draws_below(rep: Replication, k: nat)
    ensures
        draws_below(rep, k) <= k,
    decreases k,
{
    if k > 0 {
        lemma_draws_below(rep, (k - 1) as nat);
    }
}

/// No more data sets in a bin than data sets.
proof fn lemma_bin_count(reps: Seq<Replication>, k: nat, rank: nat)
    ensures
        bin_count(reps, k, rank) <= k,
    decreases k,
{
    if k > 0 {
        lemma_bin_count(reps, (k - 1) as nat, rank);
    }
}

/// The rank of a data set, or why it has none.
fn rank_replication(rep: &Replication) -> (r: core::result::Result<usize, Message>)
    ensures
        match r {
            Ok(rank) => rank_fault(*rep) is None && rank == rank_of(*rep) && rank
                <= rep.draws@.len(),
            Err(reason) => rank_fault(*rep) == Some(reason@),
        },
{
    match &rep.star {
        Err(e) => Err(prior_rank_failed_message(&e.message())),
        Ok(star) => rank_draws(rep, *star),
    }
}

/// The rank of a data set whose prior draw succeeded, or why it has none.
fn rank_draws(rep: &Replication, star: Binary64) -> (r: core::result::Result<usize, Message>)
    requires
        rep.star == Ok::<Binary64, crate::engine::error::AddiVortesError>(star),
    ensures
        match r {
            Ok(rank) => rank_fault(*rep) is None && rank == rank_of(*rep) && rank
                <= rep.draws@.len(),
            Err(reason) => rank_fault(*rep) == Some(reason@),
        },
{
    let ghost bad = |i: int| rep.draws@[i] is Err;
    let mut rank: usize = 0;
    for i in 0..rep.draws.len()
        invariant
            rep.star == Ok::<Binary64, crate::engine::error::AddiVortesError>(star),
            bad == (|i: int| rep.draws@[i] is Err),
            forall|j: int| 0 <= j < i ==> !#[trigger] bad(j),
            rank == draws_below(*rep, i as nat),
            rank <= i,
    {
        match &rep.draws[i] {
            Err(e) => {
                proof {
                    assert(bad(i as int));
                    lemma_first_is(rep.draws@.len(), bad, i as int);
                }
                return Err(posterior_rank_failed_message(&e.message()));
            },
            Ok(value) => {
                if value.is_below(star) {
                    rank = rank + 1;
                }
            },
        }
        assert(!bad(i as int));
    }
    proof {
        lemma_first_none(rep.draws@.len(), bad);
    }
    Ok(rank)
}

/// The ranks of the data sets, binned, or why the first data set without a rank has
/// none.
pub fn rank_bins(reps: &Vec<Replication>, n_draws: usize) -> (r: core::result::Result<
    Vec<usize>,
    Message,
>)
    requires
        n_draws < usize::MAX,
        forall|i: int| 0 <= i < reps@.len() ==> (#[trigger] reps@[i]).draws@.len() <= n_draws,
    ensures
        match r {
            Ok(bins) => {
                &&& faulty_replication(reps@) is None
                &&& bins@.len() == n_draws + 1
                &&& forall|b: int|
                    0 <= b <= n_draws ==> #[trigger] bins@[b] == bin_count(
                        reps@,
                        reps@.len(),
                        b as nat,
                    )
            },
            Err(reason) => {
                &&& faulty_replication(reps@) is Some
                &&& rank_fault(reps@[faulty_replication(reps@)->0]) == Some(reason@)
            },
        },
{
    let mut bins: Vec<usize> = Vec::new();
    for b in 0..(n_draws + 1)
        invariant
            n_draws < usize::MAX,
            bins@.len() == b,
            forall|j: int| 0 <= j < b ==> bins@[j] == 0,
    {
        bins.push(0);
    }
    let ghost bad = |i: int| rank_fault(reps@[i]) is Some;
    for i in 0..reps.len()
        invariant
            forall|i: int| 0 <= i < reps@.len() ==> (#[trigger] reps@[i]).draws@.len() <= n_draws,
            bins@.len() == n_draws + 1,
            bad == (|i: int| rank_fault(reps@[i]) is Some),
            forall|j: int| 0 <= j < i ==> !#[trigger] bad(j),
            forall|b: int|
                0 <= b <= n_draws ==> #[trigger] bins@[b] == bin_count(
                    reps@,
                    i as nat,
                    b as nat,
                ),
    {
        match rank_replication(&reps[i]) {
            Err(reason) => {
                proof {
                    assert(bad(i as int));
                    lemma_first_is(reps@.len(), bad, i as int);
                }
                return Err(reason);
            },
            Ok(rank) => {
                proof {
                    assert(reps@[i as int].draws@.len() <= n_draws);
                    lemma_bin_count(reps@, i as nat, rank as nat);
                    assert(reps@.len() == reps.len());
                }
                let ghost before = bins@;
                let count: usize = bins[rank] + 1;
                bins.set(rank, count);
                assert forall|b: int| 0 <= b <= n_draws implies #[trigger] bins@[b] == bin_count(
                    reps@,
                    (i + 1) as nat,
                    b as nat,
                ) by {
                    assert(before[b] == bin_count(reps@, i as nat, b as nat));
                }
            },
        }
        assert(!bad(i as int));
    }
    proof {
        lemma_first_none(reps@.len(), bad);
    }
    Ok(bins)
}

/// The verdict on the ranks, given the statistic of the bins.
pub open spec fn rank_verdict(
    family: Family,
    reps: Seq<Replication>,
    n_bins: int,
    chi_sq: Binary64,
) -> Verdict {
    let name = "cell_value_sbc"@;
    match faulty_replication(reps) {
        Some(i) => fails(name, rank_fault(reps[i])->0),
        None => if chi_sq.at_most(rank_tolerance()) {
            passes(
                name,
                if family == Family::Basis {
                    coefficient_ranks_uniform_text(chi_sq, n_bins)
                } else {
                    ranks_uniform_text(chi_sq, n_bins)
                },
            )
        } else {
            fails(
                name,
                match family {
                    Family::Mean => ranks_skewed_mean_text(chi_sq, n_bins),
                    Family::Variance => ranks_skewed_variance_text(chi_sq, n_bins),
                    Family::Basis => coefficient_ranks_skewed_text(chi_sq, n_bins),
                },
            )
        },
    }
}

/// The result on the ranks, given the statistic of the bins.
fn check_ranks(family: Family, reps: &Vec<Replication>, n_draws: usize, chi_sq: Binary64) -> (r:
    CheckResult)
    requires
        n_draws < usize::MAX,
        forall|i: int| 0 <= i < reps@.len() ==> (#[trigger] reps@[i]).draws@.len() <= n_draws,
    ensures
        r@ == rank_verdict(family, reps@, n_draws + 1, chi_sq),
{
    let name = "cell_value_sbc";
    match rank_bins(reps, n_draws) {
        Err(reason) => CheckResult::fail(name, reason),
        Ok(bins) => {
            if chi_sq.is_at_most(rank_tolerance()) {
                if family == Family::Basis {
                    CheckResult::pass(name, coefficient_ranks_uniform_message(chi_sq, bins.len()))
                } else {
                    CheckResult::pass(name, ranks_uniform_message(chi_sq, bins.len()))
                }
            } else {
                CheckResult::fail(
                    name,
                    match family {
                        Family::Mean => ranks_skewed_mean_message(chi_sq, bins.len()),
                        Family::Variance => ranks_skewed_variance_message(chi_sq, bins.len()),
                        Family::Basis => coefficient_ranks_skewed_message(chi_sq, bins.len()),
                    },
                )
            }
        },
    }
}

/// The rank check of a model: the data sets, how many posterior draws each has, and
/// the statistic of the binned ranks.
#[derive(Debug)]
pub struct RankCheck {
    /// The data sets.
    pub replications: Vec<Replication>,
    /// How many posterior draws each data set has.
    pub n_draws: usize,
    /// The chi-squared statistic of the binned ranks.
    pub chi_sq: Binary64,
}

impl RankCheck {
    /// No data set has more draws than there are to be.
    pub open spec fn fits(self) -> bool {
        &&& self.n_draws < usize::MAX
        &&& forall|i: int|
            0 <= i < self.replications@.len() ==> (#[trigger] self.replications@[i]).draws@.len()
                <= self.n_draws
    }
}

/// The four verdicts on a model of the given family.
pub open spec fn model_verdicts(
    family: Family,
    m: Marginals,
    c: Comparisons,
    ranks: RankCheck,
) -> Seq<Verdict> {
    seq![
        order_verdict(family, m, c),
        merge_verdict(family, m, c),
        bayes_verdict(family, m, c),
        rank_verdict(family, ranks.replications@, ranks.n_draws + 1, ranks.chi_sq),
    ]
}

/// The four results on a model of the given family.
fn check_model(family: Family, m: &Marginals, c: &Comparisons, ranks: &RankCheck) -> (r: Vec<
    CheckResult,
>)
    requires
        ranks.fits(),
    ensures
        verdicts(r@) == model_verdicts(family, *m, *c, *ranks),
{
    quadruple(
        check_order(family, m, c),
        check_merge(family, m, c),
        check_bayes(family, m, c),
        check_ranks(family, &ranks.replications, ranks.n_draws, ranks.chi_sq),
    )
}

/// Check a model whose cells hold a mean: the statistic does not depend on the
/// order, merging equals accumulating and removing undoes it, the marginal agrees
/// with the model's own prior draws, and the posterior draws are calibrated.
pub fn check_cell_model(m: &Marginals, c: &Comparisons, ranks: &RankCheck) -> (r: Vec<
    CheckResult,
>)
    requires
        ranks.fits(),
    ensures
        verdicts(r@) == model_verdicts(Family::Mean, *m, *c, *ranks),
{
    check_model(Family::Mean, m, c, ranks)
}

/// Check a model whose cells hold a variance factor, in the same four ways.
pub fn check_variance_cell_model(m: &Marginals, c: &Comparisons, ranks: &RankCheck) -> (r: Vec<
    CheckResult,
>)
    requires
        ranks.fits(),
    ensures
        verdicts(r@) == model_verdicts(Family::Variance, *m, *c, *ranks),
{
    check_model(Family::Variance, m, c, ranks)
}

/// What is wrong with the declaration of a basis payload, where something is.
pub open spec fn declaration_fault(
    cell_basis: bool,
    q: usize,
    rows: Seq<Vec<Binary64>>,
) -> Option<Text> {
    if !cell_basis {
        Some(not_a_basis_payload_text())
    } else {
        match first(rows.len(), |i: int| rows[i]@.len() != q) {
            Some(i) => Some(payload_width_mismatch_text(q as int, i, rows[i]@.len() as int)),
            None => None,
        }
    }
}

/// The result on the declaration of a basis payload of width `q`: the model must
/// declare one, and every basis row must have its width.
pub fn check_payload_declaration(cell_basis: bool, q: usize, rows: &Vec<Vec<Binary64>>) -> (r:
    CheckResult)
    ensures
        r@ == (match declaration_fault(cell_basis, q, rows@) {
            Some(fault) => fails("declares_cell_basis"@, fault),
            None => passes("declares_cell_basis"@, payload_declared_text(q as int)),
        }),
{
    let name = "declares_cell_basis";
    if !cell_basis {
        return CheckResult::fail(name, not_a_basis_payload_message());
    }
    let ghost bad = |i: int| rows@[i]@.len() != q;
    for i in 0..rows.len()
        invariant
            cell_basis,
            name@ == "declares_cell_basis"@,
            bad == (|i: int| rows@[i]@.len() != q),
            forall|j: int| 0 <= j < i ==> !#[trigger] bad(j),
    {
        if rows[i].len() != q {
            proof {
                assert(bad(i as int));
                lemma_first_is(rows@.len(), bad, i as int);
            }
            return CheckResult::fail(
                name,
                payload_width_mismatch_message(q, i, rows[i].len()),
            );
        }
        assert(!bad(i as int));
    }
    proof {
        lemma_first_none(rows@.len(), bad);
    }
    CheckResult::pass(name, payload_declared_message(q))
}

/// Did every question that a verdict rests on and every draw succeed? Where the merged
/// halves already differ, nothing rests on undoing the merge.
pub open spec fn all_answered(m: Marginals, c: Comparisons, ranks: RankCheck) -> bool {
    &&& m.forward is Ok && m.reversed is Ok && m.merged is Ok && m.two is Ok && m.one is Ok
    &&& merges(m) ==> undoes(m)
    &&& c.estimate is Some
    &&& faulty_replication(ranks.replications@) is None
}

/// Check a model whose cells hold coefficients of a basis: the payload is declared
/// and fits the rows, and the same four ways. Only the declaration is reported where
/// it is wrong.
pub fn check_basis_cell_model(
    cell_basis: bool,
    q: usize,
    rows: &Vec<Vec<Binary64>>,
    m: &Marginals,
    c: &Comparisons,
    ranks: &RankCheck,
) -> (r: Vec<CheckResult>)
    requires
        ranks.fits(),
        declaration_fault(cell_basis, q, rows@) is None ==> all_answered(*m, *c, *ranks),
    ensures
        verdicts(r@) == (match declaration_fault(cell_basis, q, rows@) {
            Some(fault) => seq![fails("declares_cell_basis"@, fault)],
            None => seq![passes("declares_cell_basis"@, payload_declared_text(q as int))]
                + model_verdicts(Family::Basis, *m, *c, *ranks),
        }),
{
    let head = check_payload_declaration(cell_basis, q, rows);
    let declared = head.passed;
    let mut results = only(head);
    if declared {
        extend(&mut results, check_model(Family::Basis, m, c, ranks));
    }
    results
}

/// The reply is the first cell's coefficients in a drawn payload, which holds `q` values
/// for each cell, or why there are none.
pub open spec fn is_first_payload(
    payload: Result<Vec<Binary64>>,
    q: usize,
    r: core::result::Result<Vec<Binary64>, Message>,
) -> bool {
    match payload {
        Err(e) => r matches Err(m) && m@ == text("draw_cell_payload failed: "@).then_text(
            e@.message(),
        ),
        Ok(values) => if values@.len() < q {
            r matches Err(m) && m@ == text("draw_cell_payload returned "@).count(
                values@.len() as int,
            ).text(" values for a 1-cell statistic, expected q = "@).count(q as int)
        } else {
            r matches Ok(coefficients) && coefficients@ == values@.take(q as int)
        },
    }
}

/// The first cell's coefficients in a drawn payload, or why there are none.
pub fn first_payload(payload: Result<Vec<Binary64>>, q: usize) -> (r: core::result::Result<
    Vec<Binary64>,
    Message,
>)
    ensures
        is_first_payload(payload, q, r),
{
    match payload {
        Err(e) => Err(Message::of("draw_cell_payload failed: ").then_message(&e.message())),
        Ok(values) => {
            if values.len() < q {
                return Err(
                    Message::of("draw_cell_payload returned ").count(values.len()).text(
                        " values for a 1-cell statistic, expected q = ",
                    ).count(q),
                );
            }
            let mut coefficients = values;
            coefficients.truncate(q);
            Ok(coefficients)
        },
    }
}

/// Every data set lies in one bin, so the bins hold as many as there are.
pub proof fn bins_hold_every_replication(reps: Seq<Replication>, k: nat, n_draws: nat)
    requires
        k <= reps.len(),
        forall|i: int| 0 <= i < k ==> (#[trigger] reps[i]).draws@.len() <= n_draws,
    ensures
        total_count(reps, k, n_draws + 1) == k,
    decreases k,
{
    if k == 0 {
        lemma_no_counts(reps, n_draws + 1);
    } else {
        bins_hold_every_replication(reps, (k - 1) as nat, n_draws);
        assert(reps[k - 1].draws@.len() <= n_draws);
        lemma_draws_below(reps[k - 1], reps[k - 1].draws@.len());
        lemma_one_count(reps, k, n_draws + 1);
    }
}

/// The counts of the bins below `b`, summed.
pub open spec fn total_count(reps: Seq<Replication>, k: nat, b: nat) -> nat
    decreases b,
{
    if b == 0 {
        0
    } else {
        total_count(reps, k, (b - 1) as nat) + bin_count(reps, k, (b - 1) as nat)
    }
}

/// Bins of no data sets are empty.
proof fn lemma_no_counts(reps: Seq<Replication>, b: nat)
    ensures
        total_count(reps, 0, b) == 0,
    decreases b,
{
    if b > 0 {
        lemma_no_counts(reps, (b - 1) as nat);
    }
}

/// One more data set adds one to the bins up to its rank.
proof fn lemma_one_count(reps: Seq<Replication>, k: nat, b: nat)
    requires
        k > 0,
    ensures
        total_count(reps, k, b) == total_count(reps, (k - 1) as nat, b) + if rank_of(
            reps[k - 1],
        ) < b {
            1nat
        } else {
            0nat
        },
    decreases b,
{
    if b > 0 {
        lemma_one_count(reps, k, (b - 1) as nat);
    }
}

/// Every recursive count of the lower draws is the number of draws below the drawn value.
proof fn lemma_draws_below_count(rep: Replication, k: nat)
    requires
        k <= rep.draws@.len(),
    ensures
        Set::new(
            |i: int|
                0 <= i < k && rep.star is Ok && rep.draws@[i] is Ok && (
                rep.draws@[i]->Ok_0).below(rep.star->Ok_0),
        ).finite(),
        draws_below(rep, k) == Set::new(
            |i: int|
                0 <= i < k && rep.star is Ok && rep.draws@[i] is Ok && (
                rep.draws@[i]->Ok_0).below(rep.star->Ok_0),
        ).len(),
    decreases k,
{
    let lower = |j: nat|
        Set::new(
            |i: int|
                0 <= i < j && rep.star is Ok && rep.draws@[i] is Ok && (
                rep.draws@[i]->Ok_0).below(rep.star->Ok_0),
        );
    let now = lower(k);
    assert(now =~= Set::new(
        |i: int|
            0 <= i < k && rep.star is Ok && rep.draws@[i] is Ok && (rep.draws@[i]->Ok_0).below(
                rep.star->Ok_0,
            ),
    ));
    if k == 0 {
        assert(now =~= Set::empty());
    } else {
        let before = lower((k - 1) as nat);
        lemma_draws_below_count(rep, (k - 1) as nat);
        assert(before =~= Set::new(
            |i: int|
                0 <= i < (k - 1) as nat && rep.star is Ok && rep.draws@[i] is Ok && (
                rep.draws@[i]->Ok_0).below(rep.star->Ok_0),
        ));
        if rep.star is Ok && rep.draws@[k - 1] is Ok && (rep.draws@[k - 1]->Ok_0).below(
            rep.star->Ok_0,
        ) {
            assert(now =~= before.insert(k - 1));
        } else {
            assert(now =~= before);
        }
    }
}

/// The draws of a replication that lie below its drawn value.
pub open spec fn lower_draws(rep: Replication) -> Set<int> {
    Set::new(
        |i: int|
            0 <= i < rep.draws@.len() && rep.star is Ok && rep.draws@[i] is Ok && (
            rep.draws@[i]->Ok_0).below(rep.star->Ok_0),
    )
}

/// Every recursive bin is the number of replications of its rank.
proof fn lemma_bin_counts(reps: Seq<Replication>, k: nat, rank: nat)
    requires
        k <= reps.len(),
    ensures
        Set::new(|i: int| 0 <= i < k && lower_draws(reps[i]).len() == rank).finite(),
        bin_count(reps, k, rank) == Set::new(
            |i: int| 0 <= i < k && lower_draws(reps[i]).len() == rank,
        ).len(),
    decreases k,
{
    let now = Set::new(|i: int| 0 <= i < k && lower_draws(reps[i]).len() == rank);
    if k == 0 {
        assert(now =~= Set::empty());
    } else {
        let before = Set::new(
            |i: int| 0 <= i < (k - 1) as nat && lower_draws(reps[i]).len() == rank,
        );
        lemma_bin_counts(reps, (k - 1) as nat, rank);
        let rep = reps[k - 1];
        lemma_draws_below_count(rep, rep.draws@.len());
        assert(lower_draws(rep) =~= Set::new(
            |i: int|
                0 <= i < rep.draws@.len() && rep.star is Ok && rep.draws@[i] is Ok && (
                rep.draws@[i]->Ok_0).below(rep.star->Ok_0),
        ));
        if lower_draws(rep).len() == rank {
            assert(now =~= before.insert(k - 1));
        } else {
            assert(now =~= before);
        }
    }
}

/// The ranks are binned exactly when every value and every draw could be had; the bin of a
/// rank then holds as many replications as have that many draws below their value.
pub proof fn bins_count_the_ranks(
    reps: &Vec<Replication>,
    n_draws: usize,
    r: core::result::Result<Vec<usize>, Message>,
)
    requires
        call_ensures(rank_bins, (reps, n_draws), r),
    ensures
        r is Ok <==> forall|i: int|
            0 <= i < reps@.len() ==> (#[trigger] reps@[i]).star is Ok && forall|j: int|
                0 <= j < reps@[i].draws@.len() ==> #[trigger] reps@[i].draws@[j] is Ok,
        r is Ok ==> (r->Ok_0)@.len() == n_draws + 1,
        r is Ok ==> forall|b: int|
            0 <= b <= n_draws ==> #[trigger] (r->Ok_0)@[b] == Set::new(
                |i: int| 0 <= i < reps@.len() && lower_draws(reps@[i]).len() == b,
            ).len(),
{
    let bad = |i: int| rank_fault(reps@[i]) is Some;
    lemma_first_holds(reps@.len(), bad);
    assert forall|i: int| 0 <= i < reps@.len() implies (rank_fault(#[trigger] reps@[i]) is None
        <==> reps@[i].star is Ok && forall|j: int|
        0 <= j < reps@[i].draws@.len() ==> #[trigger] reps@[i].draws@[j] is Ok) by {
        lemma_rank_fault(reps@[i]);
    }
    if r is Ok {
        assert forall|i: int| 0 <= i < reps@.len() implies rank_fault(
            #[trigger] reps@[i],
        ) is None by {
            assert(!bad(i));
        }
        assert forall|b: int| 0 <= b <= n_draws implies #[trigger] (r->Ok_0)@[b] == Set::new(
            |i: int| 0 <= i < reps@.len() && lower_draws(reps@[i]).len() == b,
        ).len() by {
            lemma_bin_counts(reps@, reps@.len(), b as nat);
            assert(Set::new(|i: int| 0 <= i < reps@.len() && lower_draws(reps@[i]).len() == b)
                =~= Set::new(
                |i: int| 0 <= i < reps@.len() && lower_draws(reps@[i]).len() == b as nat,
            ));
        }
    } else {
        let i = faulty_replication(reps@)->0;
        assert(bad(i));
        assert(rank_fault(reps@[i]) is Some);
    }
}

/// A replication can be ranked exactly when its value and all its draws could be had.
pub proof fn lemma_rank_fault(rep: Replication)
    ensures
        rank_fault(rep) is None <==> rep.star is Ok && forall|j: int|
            0 <= j < rep.draws@.len() ==> #[trigger] rep.draws@[j] is Ok,
{
    let bad = |i: int| rep.draws@[i] is Err;
    lemma_first_holds(rep.draws@.len(), bad);
    if rank_fault(rep) is None {
        assert forall|j: int| 0 <= j < rep.draws@.len() implies #[trigger] rep.draws@[j] is Ok by {
            assert(!bad(j));
        }
    } else if rep.star is Ok {
        assert(bad(first(rep.draws@.len(), bad)->0));
    }
}

/// What it takes for a cell model to pass: answers everywhere, equal up to the bound in
/// either order, after a merge and after a removal, and errors within the tolerances.
pub open spec fn sound_model(m: Marginals, c: Comparisons, ranks: RankCheck) -> bool {
    &&& m.forward is Ok && m.reversed is Ok && c.order.difference.at_most(c.order.bound)
    &&& m.merged is Ok && (m.sequential is Some ==> m.sequential->0 is Ok)
    &&& m.merge is Some && (m.merge->0).difference.at_most((m.merge->0).bound)
    &&& m.undone is Some && (m.undone->0).undone is Ok && (m.undone->0).first is Ok
    &&& c.undo.difference.at_most(c.undo.bound)
    &&& m.two is Ok && m.one is Ok && c.estimate is Some
    &&& c.error.at_most(from_bits(0x3fc3_3333_3333_3333))
    &&& forall|i: int|
        0 <= i < ranks.replications@.len() ==> (#[trigger] ranks.replications@[i]).star is Ok
            && forall|j: int|
            0 <= j < ranks.replications@[i].draws@.len()
                ==> #[trigger] ranks.replications@[i].draws@[j] is Ok
    &&& ranks.chi_sq.at_most(from_bits(0x4045_e666_6666_6666))
}

/// The four verdicts on a model all pass exactly when the model is sound.
proof fn lemma_model_verdicts(family: Family, m: Marginals, c: Comparisons, ranks: RankCheck)
    ensures
        all_pass(model_verdicts(family, m, c, ranks)) <==> sound_model(m, c, ranks),
{
    let list = model_verdicts(family, m, c, ranks);
    let reps = ranks.replications@;
    let bad = |i: int| rank_fault(reps[i]) is Some;
    lemma_first_holds(reps.len(), bad);
    assert(list[0] == order_verdict(family, m, c));
    assert(list[1] == merge_verdict(family, m, c));
    assert(list[2] == bayes_verdict(family, m, c));
    assert(list[3] == rank_verdict(family, reps, ranks.n_draws + 1, ranks.chi_sq));
    assert(faulty_replication(reps) is None <==> forall|i: int|
        0 <= i < reps.len() ==> (#[trigger] reps[i]).star is Ok && forall|j: int|
            0 <= j < reps[i].draws@.len() ==> #[trigger] reps[i].draws@[j] is Ok) by {
        if faulty_replication(reps) is None {
            assert forall|i: int| 0 <= i < reps.len() implies (#[trigger] reps[i]).star is Ok
                && forall|j: int|
                0 <= j < reps[i].draws@.len() ==> #[trigger] reps[i].draws@[j] is Ok by {
                assert(!bad(i));
                lemma_rank_fault(reps[i]);
            }
        } else {
            let i = faulty_replication(reps)->0;
            assert(bad(i));
            lemma_rank_fault(reps[i]);
        }
    }
    if all_pass(list) {
        assert(list[0].passed && list[1].passed && list[2].passed && list[3].passed);
    }
}

/// A cell model for means or for variances passes every check exactly when it is sound.
pub proof fn model_passes_exactly_when_sound(
    m: &Marginals,
    c: &Comparisons,
    ranks: &RankCheck,
    r: Vec<CheckResult>,
)
    requires
        call_ensures(check_cell_model, (m, c, ranks), r) || call_ensures(
            check_variance_cell_model,
            (m, c, ranks),
            r,
        ),
    ensures
        (forall|i: int| 0 <= i < r@.len() ==> (#[trigger] r@[i]).passed) <==> sound_model(
            *m,
            *c,
            *ranks,
        ),
{
    lemma_results_pass(r@);
    lemma_model_verdicts(Family::Mean, *m, *c, *ranks);
    lemma_model_verdicts(Family::Variance, *m, *c, *ranks);
}

/// A declaration stands exactly when the payload is a cell basis and every basis row is as
/// wide as declared.
pub proof fn declaration_stands_exactly_when_rows_fit(
    cell_basis: bool,
    q: usize,
    rows: &Vec<Vec<Binary64>>,
    r: CheckResult,
)
    requires
        call_ensures(check_payload_declaration, (cell_basis, q, rows), r),
    ensures
        r.passed <==> cell_basis && forall|i: int|
            0 <= i < rows@.len() ==> (#[trigger] rows@[i])@.len() == q,
{
    let bad = |i: int| rows@[i]@.len() != q;
    lemma_first_holds(rows@.len(), bad);
    assert(r.passed == r@.passed);
    if r.passed {
        assert forall|i: int| 0 <= i < rows@.len() implies (#[trigger] rows@[i])@.len() == q by {
            assert(!bad(i));
        }
    } else if cell_basis {
        assert(bad(first(rows@.len(), bad)->0));
    }
}

/// A basis cell model passes exactly when its declaration stands and it is sound.
pub proof fn basis_model_passes_exactly_when_sound(
    cell_basis: bool,
    q: usize,
    rows: &Vec<Vec<Binary64>>,
    m: &Marginals,
    c: &Comparisons,
    ranks: &RankCheck,
    r: Vec<CheckResult>,
)
    requires
        call_ensures(check_basis_cell_model, (cell_basis, q, rows, m, c, ranks), r),
    ensures
        (forall|i: int| 0 <= i < r@.len() ==> (#[trigger] r@[i]).passed) <==> {
            &&& cell_basis
            &&& forall|i: int| 0 <= i < rows@.len() ==> (#[trigger] rows@[i])@.len() == q
            &&& sound_model(*m, *c, *ranks)
        },
{
    let bad = |i: int| rows@[i]@.len() != q;
    lemma_first_holds(rows@.len(), bad);
    lemma_results_pass(r@);
    match declaration_fault(cell_basis, q, rows@) {
        Some(fault) => {
            assert(!verdicts(r@)[0].passed);
            if cell_basis {
                assert(bad(first(rows@.len(), bad)->0));
            }
        },
        None => {
            lemma_model_verdicts(Family::Basis, *m, *c, *ranks);
            lemma_both_pass(
                seq![passes("declares_cell_basis"@, payload_declared_text(q as int))],
                model_verdicts(Family::Basis, *m, *c, *ranks),
            );
            assert forall|i: int| 0 <= i < rows@.len() implies (#[trigger] rows@[i])@.len()
                == q by {
                assert(!bad(i));
            }
        },
    }
}

/// The coefficients of a payload are its first values, and can be had exactly when it was
/// drawn and holds as many as are asked for.
pub proof fn coefficients_lead_the_payload(
    payload: Result<Vec<Binary64>>,
    q: usize,
    r: core::result::Result<Vec<Binary64>, Message>,
)
    requires
        call_ensures(first_payload, (payload, q), r),
    ensures
        r is Ok <==> payload is Ok && (payload->Ok_0)@.len() >= q,
        r is Ok ==> (r->Ok_0)@.len() == q,
        r is Ok ==> forall|i: int|
            0 <= i < q ==> #[trigger] (r->Ok_0)@[i] == (payload->Ok_0)@[i],
{
}

/// A cell holds four observations, or all of them where there are fewer.
pub proof fn cells_hold_up_to_four(n: usize, r: usize)
    requires
        call_ensures(cell_size, (n,), r),
    ensures
        r <= n && r <= 4 && (r == n || r == 4),
{
}

/// A variance fixture holds the observations it was given, each with a weight of one, and
/// no basis rows.
pub proof fn variance_observations_weigh_one(observations: Vec<Binary64>, r: Fixture, i: int)
    requires
        call_ensures(variance_fixture, (observations,), r),
        0 <= i < observations@.len(),
    ensures
        r.rows is None,
        r.observations@ == observations@ && r.weights@.len() == observations@.len(),
        r.weights@[i].bits == 0x3ff0_0000_0000_0000,
{
}

/// The marginals are read of the same observations in every way: accumulated forwards and
/// backwards, in halves that are merged, and in the halves as two cells. A merge is
/// compared where both answers could be had, and undone where it agrees.
pub proof fn marginals_read_the_fixture_every_way<
    M: CellModel,
    G: Fn(Binary64, Binary64) -> Gap,
>(
    model: &M,
    f: &Fixture,
    sigma_sq: Binary64,
    family: Family,
    gap: &G,
    r: Marginals,
    all: Seq<int>,
    back: Seq<int>,
    head: Seq<int>,
    tail: Seq<int>,
)
    requires
        f.fits(),
        call_ensures(observe_marginals::<M, G>, (model, f, sigma_sq, family, gap), r),
        all.len() == f.observations@.len() && back.len() == all.len(),
        head.len() == all.len() / 2 && head.len() + tail.len() == all.len(),
        forall|i: int| 0 <= i < all.len() ==> #[trigger] all[i] == i,
        forall|i: int| 0 <= i < back.len() ==> #[trigger] back[i] == back.len() - 1 - i,
        forall|i: int| 0 <= i < head.len() ==> #[trigger] head[i] == i,
        forall|i: int| 0 <= i < tail.len() ==> #[trigger] tail[i] == head.len() + i,
    ensures
        exists|whole: M::Stats, backwards: M::Stats, first: M::Stats, second: M::Stats|
            {
                &&& #[trigger] accumulated(*f, all, whole)
                &&& #[trigger] accumulated(*f, back, backwards)
                &&& #[trigger] accumulated(*f, head, first)
                &&& #[trigger] accumulated(*f, tail, second)
                &&& marginal_of(model, seq![whole], sigma_sq, r.forward)
                &&& marginal_of(model, seq![whole], sigma_sq, r.one)
                &&& marginal_of(model, seq![backwards], sigma_sq, r.reversed)
                &&& r.sequential matches Some(answer) ==> marginal_of(
                    model,
                    seq![whole],
                    sigma_sq,
                    answer,
                )
                &&& exists|merged: M::Stats|
                    #[trigger] call_ensures(after_merge::<M::Stats>, (first, &second), merged)
                        && marginal_of(model, seq![merged], sigma_sq, r.merged)
            },
        exists|first: M::Stats, second: M::Stats|
            {
                &&& #[trigger] accumulated(*f, head, first)
                &&& #[trigger] accumulated(*f, tail, second)
                &&& marginal_of(model, seq![first, second], sigma_sq, r.two)
            },
        r.sequential is Some <==> !(family is Basis),
        r.merge is Some <==> r.merged is Ok && (if family is Basis {
            r.forward is Ok
        } else {
            r.sequential->0 is Ok
        }),
        r.undone is Some <==> r.merge is Some && (r.merge->0).difference.at_most(
            (r.merge->0).bound,
        ),
{
    let a = choose|a: Accumulation<M::Stats>| #[trigger]
        answered(model, *f, a, sigma_sq, family, *gap, r);
    let n = f.observations@.len();
    let half = n / 2;
    assert(ascending(0, n as int) =~= all);
    assert(descending(n as int) =~= back);
    assert(ascending(0, half as int) =~= head);
    assert(ascending(half as int, n as int) =~= tail);
    assert(accumulated(*f, all, a.whole) && accumulated(*f, back, a.reversed));
    assert(accumulated(*f, head, a.first) && accumulated(*f, tail, a.second));
    assert(accumulated(*f, head, a.cell_a) && accumulated(*f, tail, a.cell_b));
    assert(call_ensures(after_merge::<M::Stats>, (a.first, &a.second), a.merged));
}

/// Statistics that were accumulated hold, last, the last observation of the order, recorded
/// with its own value and weight and, where there are basis rows, with its own row.
pub proof fn accumulation_records_each_observation<S: CellStats>(
    f: Fixture,
    order: Seq<int>,
    stats: S,
)
    requires
        accumulated(f, order, stats),
    ensures
        order.len() == 0 ==> call_ensures(S::default, (), stats),
        order.len() > 0 ==> exists|before: S|
            {
                let i = order[order.len() - 1];
                &&& #[trigger] accumulated(f, order.drop_last(), before)
                &&& f.rows is None ==> call_ensures(
                    after_record::<S>,
                    (before, f.observations@[i], f.weights@[i]),
                    stats,
                )
                &&& f.rows is Some ==> exists|row: &[Binary64]|
                    row@ == (f.rows->0)@[i]@ && #[trigger] call_ensures(
                        after_record_basis::<S>,
                        (before, row, f.observations@[i], f.weights@[i]),
                        stats,
                    )
            },
{
    if order.len() > 0 {
        let before = choose|before: S|
            accumulated(f, order.drop_last(), before) && #[trigger] recorded(
                f,
                order.last(),
                before,
                stats,
            );
        assert(accumulated(f, order.drop_last(), before));
    }
}

/// A marginal is what the model answers for exactly these cells and this variance.
pub proof fn marginals_are_the_models_answers<M: CellModel>(
    model: &M,
    cells: Seq<M::Stats>,
    sigma_sq: Binary64,
    r: Result<Binary64>,
)
    requires
        marginal_of(model, cells, sigma_sq, r),
    ensures
        exists|stats: &[M::Stats]|
            stats@ == cells && #[trigger] call_ensures(
                M::log_marginal_terms,
                (model, stats, sigma_sq),
                r,
            ),
{
}

/// Each result on a cell model bears the name of what it was checked for, and passes
/// exactly on that.
pub proof fn model_results_stand_for_themselves(
    m: &Marginals,
    c: &Comparisons,
    ranks: &RankCheck,
    r: Vec<CheckResult>,
)
    requires
        call_ensures(check_cell_model, (m, c, ranks), r) || call_ensures(
            check_variance_cell_model,
            (m, c, ranks),
            r,
        ),
    ensures
        r@.len() == 4,
        r@[0].name@ == "stats_order_invariance"@ && r@[1].name@ == "stats_merge_consistency"@,
        r@[2].name@ == "marginal_bayes_factor"@ && r@[3].name@ == "cell_value_sbc"@,
        r@[0].passed <==> m.forward is Ok && m.reversed is Ok && c.order.difference.at_most(
            c.order.bound,
        ),
        r@[2].passed <==> m.two is Ok && m.one is Ok && c.estimate is Some && c.error.at_most(
            from_bits(0x3fc3_3333_3333_3333),
        ),
        r@[1].passed ==> m.merged is Ok && m.merge is Some && (m.merge->0).difference.at_most(
            (m.merge->0).bound,
        ) && c.undo.difference.at_most(c.undo.bound),
        r@[3].passed ==> ranks.chi_sq.at_most(from_bits(0x4045_e666_6666_6666)),
{
    assert(verdicts(r@).len() == r@.len());
    let list = verdicts(r@);
    assert(list[0] == r@[0]@ && list[1] == r@[1]@ && list[2] == r@[2]@ && list[3] == r@[3]@);
}

} // verus!
