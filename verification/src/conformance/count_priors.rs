//! Checks of count priors: finite, pure ratios, and their agreement with a density.

use crate::binary64::{from_bits, not_a_number, Binary64};
use crate::conformance::texts::{
    cell_ratio_not_finite_message, cell_ratio_not_finite_text, cell_ratios_finite_message,
    cell_ratios_finite_text, density_match_message, density_match_text, density_mismatch_message,
    density_mismatch_text, density_nothing_message, density_nothing_text,
    dim_ratio_not_finite_message, dim_ratio_not_finite_text, dim_ratios_finite_message,
    dim_ratios_finite_text, no_dim_ratios_message, no_dim_ratios_text, pmf_not_finite_message,
    pmf_not_finite_text, ratio_digest_message, ratio_digest_text, ratios_impure_message,
    ratios_impure_text, ratios_pure_message, ratios_pure_text,
};
use crate::conformance::{
    all_pass, bit_digest, digest_of, fails, lemma_results_pass, pair, passes, quadruple, same_bits,
    verdicts, CheckResult, Verdict,
};
use crate::engine::data::first_non_finite;
use crate::extensions::{CountPriors, ModelCtx};
use crate::search::{first, lemma_first_holds, lemma_first_is, lemma_first_none};
use vstd::prelude::*;

verus! {

/// The first ratio that is not finite.
pub open spec fn bad_ratio(ratios: Seq<Binary64>) -> Option<int> {
    first(ratios.len(), |i: int| !ratios[i].finite())
}

/// The verdict on the cell-count ratios, which start at count 2.
pub open spec fn cell_verdict(cells: Seq<Binary64>, max_cells: usize) -> Verdict {
    match bad_ratio(cells) {
        Some(i) => fails("cell_ratios_finite"@, cell_ratio_not_finite_text(i + 2, cells[i])),
        None => passes("cell_ratios_finite"@, cell_ratios_finite_text(max_cells as int)),
    }
}

/// The verdict on the dimension-count ratios, which start at count 2.
pub open spec fn dim_verdict(dims: Seq<Binary64>, p: usize) -> Verdict {
    if dims.len() == 0 {
        passes("dim_ratios_finite"@, no_dim_ratios_text(p as int))
    } else {
        match bad_ratio(dims) {
            Some(i) => fails("dim_ratios_finite"@, dim_ratio_not_finite_text(i + 2, dims[i])),
            None => passes("dim_ratios_finite"@, dim_ratios_finite_text(p as int)),
        }
    }
}

/// The ratios of a count prior, each asked twice.
pub struct Ratios {
    /// The ratios of the cell counts from 2 on.
    pub cells: Vec<Binary64>,
    /// The ratios of the dimension counts from 2 on.
    pub dims: Vec<Binary64>,
    /// The cell-count ratios, asked again.
    pub repeat_cells: Vec<Binary64>,
    /// The dimension-count ratios, asked again.
    pub repeat_dims: Vec<Binary64>,
}

/// How many counts there are from 2 to `upper`.
pub open spec fn counts_from_two(upper: usize) -> nat {
    if upper >= 2 {
        (upper - 1) as nat
    } else {
        0
    }
}

impl Ratios {
    /// One ratio for every count from 2 on, both times.
    pub open spec fn cover(self, max_cells: usize, p: usize) -> bool {
        &&& self.cells@.len() == counts_from_two(max_cells)
        &&& self.repeat_cells@.len() == counts_from_two(max_cells)
        &&& self.dims@.len() == counts_from_two(p)
        &&& self.repeat_dims@.len() == counts_from_two(p)
    }

    /// Were both answers the same, bit for bit?
    pub open spec fn repeat(self) -> bool {
        self.cells@ == self.repeat_cells@ && self.dims@ == self.repeat_dims@
    }
}

/// The verdicts on the ratios of a count prior: finite cell ratios, finite dimension
/// ratios, purity, and the digest of all ratios.
pub open spec fn ratio_verdicts(ratios: Ratios, max_cells: usize, p: usize) -> Seq<Verdict> {
    seq![
        cell_verdict(ratios.cells@, max_cells),
        dim_verdict(ratios.dims@, p),
        if ratios.repeat() {
            passes("ratios_deterministic"@, ratios_pure_text())
        } else {
            fails("ratios_deterministic"@, ratios_impure_text())
        },
        passes(
            "ratio_digest"@,
            ratio_digest_text(
                ratios.cells@.len() as int,
                ratios.dims@.len() as int,
                digest_of(ratios.cells@ + ratios.dims@),
            ),
        ),
    ]
}

/// The result on the cell-count ratios.
fn check_cells(cells: &Vec<Binary64>, max_cells: usize) -> (r: CheckResult)
    requires
        cells@.len() == counts_from_two(max_cells),
    ensures
        r@ == cell_verdict(cells@, max_cells),
{
    match first_non_finite(cells.as_slice()) {
        Some(i) => CheckResult::fail(
            "cell_ratios_finite",
            cell_ratio_not_finite_message(i + 2, cells[i]),
        ),
        None => CheckResult::pass("cell_ratios_finite", cell_ratios_finite_message(max_cells)),
    }
}

/// The result on the dimension-count ratios.
fn check_dims(dims: &Vec<Binary64>, p: usize) -> (r: CheckResult)
    requires
        dims@.len() == counts_from_two(p),
    ensures
        r@ == dim_verdict(dims@, p),
{
    if dims.len() == 0 {
        return CheckResult::pass("dim_ratios_finite", no_dim_ratios_message(p));
    }
    match first_non_finite(dims.as_slice()) {
        Some(i) => CheckResult::fail(
            "dim_ratios_finite",
            dim_ratio_not_finite_message(i + 2, dims[i]),
        ),
        None => CheckResult::pass("dim_ratios_finite", dim_ratios_finite_message(p)),
    }
}

/// The result on the purity of the ratios.
fn check_purity(ratios: &Ratios) -> (r: CheckResult)
    ensures
        r@ == (if ratios.repeat() {
            passes("ratios_deterministic"@, ratios_pure_text())
        } else {
            fails("ratios_deterministic"@, ratios_impure_text())
        }),
{
    if same_bits(ratios.cells.as_slice(), ratios.repeat_cells.as_slice()) && same_bits(
        ratios.dims.as_slice(),
        ratios.repeat_dims.as_slice(),
    ) {
        CheckResult::pass("ratios_deterministic", ratios_pure_message())
    } else {
        CheckResult::fail("ratios_deterministic", ratios_impure_message())
    }
}

/// The result that reports the digest.
fn report_digest(ratios: &Ratios) -> (r: CheckResult)
    ensures
        r@ == passes(
            "ratio_digest"@,
            ratio_digest_text(
                ratios.cells@.len() as int,
                ratios.dims@.len() as int,
                digest_of(ratios.cells@ + ratios.dims@),
            ),
        ),
{
    let mut all: Vec<Binary64> = Vec::new();
    for i in 0..ratios.cells.len()
        invariant
            all@ == ratios.cells@.take(i as int),
    {
        all.push(ratios.cells[i]);
        assert(all@ =~= ratios.cells@.take(i + 1));
    }
    assert(ratios.cells@.take(ratios.cells@.len() as int) =~= ratios.cells@);
    assert(all@ =~= ratios.cells@ + ratios.dims@.take(0));
    for i in 0..ratios.dims.len()
        invariant
            all@ == ratios.cells@ + ratios.dims@.take(i as int),
    {
        all.push(ratios.dims[i]);
        assert(all@ =~= ratios.cells@ + ratios.dims@.take(i + 1));
    }
    assert(ratios.dims@.take(ratios.dims@.len() as int) =~= ratios.dims@);
    CheckResult::pass(
        "ratio_digest",
        ratio_digest_message(
            ratios.cells.len(),
            ratios.dims.len(),
            bit_digest(all.as_slice()),
        ),
    )
}

/// The results on the ratios that a count prior gave for the cell counts 2 to
/// `max_cells` and the dimension counts 2 to `p`.
pub fn assess_ratios(ratios: &Ratios, max_cells: usize, p: usize) -> (r: Vec<CheckResult>)
    requires
        ratios.cover(max_cells, p),
    ensures
        verdicts(r@) == ratio_verdicts(*ratios, max_cells, p),
{
    quadruple(
        check_cells(&ratios.cells, max_cells),
        check_dims(&ratios.dims, p),
        check_purity(ratios),
        report_digest(ratios),
    )
}

/// The list holds what the cell-count hook answers from count 2 on.
pub open spec fn cell_answers<P: CountPriors>(
    priors: &P,
    ctx: &ModelCtx,
    ratios: Seq<Binary64>,
) -> bool {
    forall|k: int|
        0 <= k < ratios.len() ==> call_ensures(
            P::log_cell_count_ratio,
            (priors, (k + 2) as usize, ctx),
            #[trigger] ratios[k],
        )
}

/// The list holds what the dimension-count hook answers from count 2 on.
pub open spec fn dim_answers<P: CountPriors>(
    priors: &P,
    ctx: &ModelCtx,
    ratios: Seq<Binary64>,
) -> bool {
    forall|k: int|
        0 <= k < ratios.len() ==> call_ensures(
            P::log_dim_count_ratio,
            (priors, (k + 2) as usize, ctx),
            #[trigger] ratios[k],
        )
}

/// The ratios are what the two hooks answer, both times.
pub open spec fn answered<P: CountPriors>(priors: &P, ctx: &ModelCtx, ratios: Ratios) -> bool {
    &&& cell_answers(priors, ctx, ratios.cells@)
    &&& cell_answers(priors, ctx, ratios.repeat_cells@)
    &&& dim_answers(priors, ctx, ratios.dims@)
    &&& dim_answers(priors, ctx, ratios.repeat_dims@)
}

/// Ask a count prior for the ratio of every cell count from 2 to `upper`.
pub fn ask_cells<P: CountPriors>(priors: &P, ctx: &ModelCtx, upper: usize) -> (r: Vec<Binary64>)
    ensures
        r@.len() == counts_from_two(upper),
        cell_answers(priors, ctx, r@),
{
    let mut ratios: Vec<Binary64> = Vec::new();
    if upper >= 2 {
        for k in 0..(upper - 1)
            invariant
                upper >= 2,
                ratios@.len() == k,
                cell_answers(priors, ctx, ratios@),
        {
            ratios.push(priors.log_cell_count_ratio(k + 2, ctx));
        }
    }
    ratios
}

/// Ask a count prior for the ratio of every dimension count from 2 to `upper`.
pub fn ask_dims<P: CountPriors>(priors: &P, ctx: &ModelCtx, upper: usize) -> (r: Vec<Binary64>)
    ensures
        r@.len() == counts_from_two(upper),
        dim_answers(priors, ctx, r@),
{
    let mut ratios: Vec<Binary64> = Vec::new();
    if upper >= 2 {
        for k in 0..(upper - 1)
            invariant
                upper >= 2,
                ratios@.len() == k,
                dim_answers(priors, ctx, ratios@),
        {
            ratios.push(priors.log_dim_count_ratio(k + 2, ctx));
        }
    }
    ratios
}

/// Check a count prior: both ratio hooks are finite and pure over the adjacent
/// counts a sampler will ask about, and their bits are reported for comparison
/// across platforms. The hooks are asked at every cell count from 2 to `max_cells`
/// and at every dimension count from 2 to the number of columns, in order, and then
/// once more.
pub fn check_count_priors<P: CountPriors>(priors: &P, ctx: &ModelCtx, max_cells: usize) -> (r: Vec<
    CheckResult,
>)
    ensures
        exists|ratios: Ratios|
            ratios.cover(max_cells, ctx.p) && #[trigger] answered(priors, ctx, ratios) && verdicts(
                r@,
            ) == ratio_verdicts(ratios, max_cells, ctx.p),
{
    let cells = ask_cells(priors, ctx, max_cells);
    let dims = ask_dims(priors, ctx, ctx.p);
    let repeat_cells = ask_cells(priors, ctx, max_cells);
    let repeat_dims = ask_dims(priors, ctx, ctx.p);
    let ratios = Ratios { cells, dims, repeat_cells, repeat_dims };
    let r = assess_ratios(&ratios, max_cells, ctx.p);
    assert(answered(priors, ctx, ratios));
    r
}

/// One count at which a ratio hook is compared with a density.
#[derive(Debug, Clone, Copy)]
pub struct DensityPoint {
    /// The larger count.
    pub count: usize,
    /// Log-density at the count.
    pub upper: Binary64,
    /// Log-density at one fewer.
    pub lower: Binary64,
    /// What the hook returns.
    pub actual: Binary64,
    /// The difference of the two log-densities.
    pub expected: Binary64,
    /// What the hook returns beyond the difference.
    pub signed: Binary64,
    /// The absolute value of that.
    pub error: Binary64,
}

/// A log-density of the point is not finite.
pub open spec fn outside_density(point: DensityPoint) -> bool {
    !point.upper.finite() || !point.lower.finite()
}

/// Is the second error worse than the first? A larger one is, and so is one that is not
/// a number, but for a second one of those.
pub open spec fn worse(before: Binary64, after: Binary64) -> bool {
    !before.nan() && (after.nan() || before.below(after))
}

/// The index of the worst of the first `k` points: the first one, replaced by each
/// later one whose error is worse.
pub open spec fn worst(points: Seq<DensityPoint>, k: nat) -> int
    decreases k,
{
    if k <= 1 {
        0
    } else {
        let before = worst(points, (k - 1) as nat);
        if worse(points[before].error, points[k - 1].error) {
            k - 1
        } else {
            before
        }
    }
}

/// The largest disagreement that rounding explains: the binary64 number nearest to
/// 1e-8.
#[verifier::allow_in_spec]
pub fn density_tolerance() -> Binary64
    returns
        from_bits(0x3e45_798e_e230_8c3a),
{
    from_bits(0x3e45_798e_e230_8c3a)
}

/// The density is finite at every point, and every disagreement is a number within the
/// tolerance.
pub open spec fn every_point_matches(points: Seq<DensityPoint>) -> bool {
    forall|i: int|
        0 <= i < points.len() ==> !outside_density(#[trigger] points[i])
            && points[i].error.at_most(density_tolerance())
}

/// The density is finite at every point, and the worst disagreement is no number within
/// the tolerance.
pub open spec fn mismatches(points: Seq<DensityPoint>) -> bool {
    &&& first(points.len(), |i: int| outside_density(points[i])) is None
    &&& points.len() > 0
    &&& !points[worst(points, points.len())].error.at_most(density_tolerance())
}

/// The verdict on a hook, held against a density at the given points. `again` is the
/// worst point, asked once more for the report of a disagreement.
pub open spec fn density_verdict(
    name: Seq<char>,
    hook: Seq<char>,
    points: Seq<DensityPoint>,
    again: DensityPoint,
) -> Verdict {
    match first(points.len(), |i: int| outside_density(points[i])) {
        Some(i) => fails(
            name,
            pmf_not_finite_text(
                if points[i].upper.finite() {
                    points[i].lower
                } else {
                    points[i].upper
                },
                points[i].count as int,
            ),
        ),
        None => if points.len() == 0 {
            passes(name, density_nothing_text(hook))
        } else {
            let w = points[worst(points, points.len())];
            if w.error.at_most(density_tolerance()) {
                passes(name, density_match_text(hook, points.len() as int, w.error))
            } else {
                fails(
                    name,
                    density_mismatch_text(
                        hook,
                        w.count as int,
                        again.actual,
                        again.expected,
                        w.signed,
                    ),
                )
            }
        },
    }
}

/// Is a log-density of the point not finite?
fn is_outside(point: &DensityPoint) -> (r: bool)
    ensures
        r == outside_density(*point),
{
    !point.upper.is_finite() || !point.lower.is_finite()
}

/// The first point at which a log-density is not finite.
fn find_outside(points: &Vec<DensityPoint>) -> (r: Option<usize>)
    ensures
        match r {
            Some(i) => i < points@.len() && first(
                points@.len(),
                |i: int| outside_density(points@[i]),
            ) == Some(i as int),
            None => first(points@.len(), |i: int| outside_density(points@[i])) is None,
        },
{
    let ghost bad = |i: int| outside_density(points@[i]);
    for i in 0..points.len()
        invariant
            bad == (|i: int| outside_density(points@[i])),
            forall|j: int| 0 <= j < i ==> !#[trigger] bad(j),
    {
        if is_outside(&points[i]) {
            proof {
                assert(bad(i as int));
                lemma_first_is(points@.len(), bad, i as int);
            }
            return Some(i);
        }
        assert(!bad(i as int));
    }
    proof {
        lemma_first_none(points@.len(), bad);
    }
    None
}

/// The worst point.
fn find_worst(points: &Vec<DensityPoint>) -> (r: usize)
    requires
        points@.len() >= 1,
    ensures
        r == worst(points@, points@.len()),
        r < points@.len(),
{
    let mut at: usize = 0;
    for i in 1..points.len()
        invariant
            at < i,
            at == worst(points@, i as nat),
            points@.len() >= 1,
    {
        let before = points[at].error;
        let after = points[i].error;
        if !before.is_nan() && (after.is_nan() || before.is_below(after)) {
            at = i;
        }
    }
    at
}

/// The place of the worst point, where it disagrees.
fn find_mismatch(points: &Vec<DensityPoint>) -> (r: Option<usize>)
    ensures
        (r is Some) == mismatches(points@),
        r matches Some(i) ==> i == worst(points@, points@.len()) && i < points@.len(),
{
    if find_outside(points).is_some() || points.len() == 0 {
        return None;
    }
    let at = find_worst(points);
    if points[at].error.is_at_most(density_tolerance()) {
        None
    } else {
        Some(at)
    }
}

/// The result on a hook, held against a density at the given points. `again` is the
/// worst point, asked once more.
pub fn assess_hook(name: &str, hook: &str, points: &Vec<DensityPoint>, again: &DensityPoint) -> (r:
    CheckResult)
    ensures
        r@ == density_verdict(name@, hook@, points@, *again),
{
    if let Some(i) = find_outside(points) {
        let point = points[i];
        let value = if point.upper.is_finite() {
            point.lower
        } else {
            point.upper
        };
        return CheckResult::fail(name, pmf_not_finite_message(value, point.count));
    }
    if points.len() == 0 {
        return CheckResult::pass(name, density_nothing_message(hook));
    }
    let w = points[find_worst(points)];
    if w.error.is_at_most(density_tolerance()) {
        CheckResult::pass(name, density_match_message(hook, points.len(), w.error))
    } else {
        CheckResult::fail(
            name,
            density_mismatch_message(hook, w.count, again.actual, again.expected, w.signed),
        )
    }
}

/// What arithmetic makes of a ratio and two log-densities.
#[derive(Debug, Clone, Copy)]
pub struct Difference {
    /// The difference of the two log-densities.
    pub expected: Binary64,
    /// What the hook returns beyond the difference.
    pub signed: Binary64,
    /// The absolute value of that.
    pub error: Binary64,
}

/// The two log-densities of the point are those of the density.
pub open spec fn has_density<L: Fn(usize) -> Binary64>(log_pmf: L, point: DensityPoint) -> bool {
    &&& call_ensures(log_pmf, (point.count,), point.upper)
    &&& call_ensures(log_pmf, ((point.count - 1) as usize,), point.lower)
}

/// The point holds what the hook answers at its count, and what arithmetic makes of it.
/// `asked` says which answers the hook gives.
pub open spec fn has_ratio<E: Fn(Binary64, Binary64, Binary64) -> Difference>(
    differ: E,
    asked: spec_fn(usize, Binary64) -> bool,
    point: DensityPoint,
) -> bool {
    &&& asked(point.count, point.actual)
    &&& call_ensures(
        differ,
        (point.upper, point.lower, point.actual),
        (Difference { expected: point.expected, signed: point.signed, error: point.error }),
    )
}

/// The points are those of the counts from 2 to `upper`, in order, up to the first one
/// at which a log-density is not finite; there the hook is not asked.
pub open spec fn are_points<
    L: Fn(usize) -> Binary64,
    E: Fn(Binary64, Binary64, Binary64) -> Difference,
>(
    log_pmf: L,
    differ: E,
    asked: spec_fn(usize, Binary64) -> bool,
    upper: usize,
    points: Seq<DensityPoint>,
) -> bool {
    &&& points.len() <= counts_from_two(upper)
    &&& points.len() == counts_from_two(upper) || points.len() > 0 && outside_density(
        points.last(),
    )
    &&& forall|k: int| 0 <= k < points.len() - 1 ==> !outside_density(#[trigger] points[k])
    &&& forall|k: int|
        #![trigger points[k]]
        0 <= k < points.len() ==> {
            &&& points[k].count == k + 2
            &&& has_density(log_pmf, points[k])
            &&& !outside_density(points[k]) ==> has_ratio(differ, asked, points[k])
        }
}

/// The points were compared, and where they disagree, the worst one was asked for once
/// more.
pub open spec fn held_against<
    L: Fn(usize) -> Binary64,
    E: Fn(Binary64, Binary64, Binary64) -> Difference,
>(
    log_pmf: L,
    differ: E,
    asked: spec_fn(usize, Binary64) -> bool,
    upper: usize,
    points: Seq<DensityPoint>,
    again: DensityPoint,
) -> bool {
    &&& are_points(log_pmf, differ, asked, upper, points)
    &&& mismatches(points) ==> {
        &&& again.count == points[worst(points, points.len())].count
        &&& has_density(log_pmf, again)
        &&& has_ratio(differ, asked, again)
    }
}

/// Ask for the two log-densities at a count.
fn ask_density<L: Fn(usize) -> Binary64>(log_pmf: &L, count: usize) -> (r: DensityPoint)
    requires
        count >= 2,
        forall|n: usize| #[trigger] call_requires(*log_pmf, (n,)),
    ensures
        r.count == count,
        has_density(*log_pmf, r),
{
    let upper = log_pmf(count);
    let lower = log_pmf(count - 1);
    let unasked = not_a_number();
    DensityPoint {
        count,
        upper,
        lower,
        actual: unasked,
        expected: unasked,
        signed: unasked,
        error: unasked,
    }
}

/// Ask the hook at the count of a point.
fn ask_ratio<
    H: Fn(usize) -> Binary64,
    E: Fn(Binary64, Binary64, Binary64) -> Difference,
>(
    hook: &H,
    differ: &E,
    point: DensityPoint,
    Ghost(asked): Ghost<spec_fn(usize, Binary64) -> bool>,
) -> (r: DensityPoint)
    requires
        call_requires(*hook, (point.count,)),
        forall|a: Binary64, b: Binary64, c: Binary64| #[trigger] call_requires(*differ, (a, b, c)),
        forall|n: usize, value: Binary64| #[trigger]
            call_ensures(*hook, (n,), value) ==> asked(n, value),
    ensures
        r.count == point.count,
        r.upper == point.upper,
        r.lower == point.lower,
        has_ratio(*differ, asked, r),
{
    let actual = hook(point.count);
    let difference = differ(point.upper, point.lower, actual);
    let r = DensityPoint {
        actual,
        expected: difference.expected,
        signed: difference.signed,
        error: difference.error,
        ..point
    };
    assert(call_ensures(*hook, (point.count,), actual));
    assert(difference == Difference { expected: r.expected, signed: r.signed, error: r.error });
    r
}

/// Hold a hook against a density at every count from 2 to `upper`, up to the first one
/// at which the density is not finite.
fn compare_hook<
    L: Fn(usize) -> Binary64,
    H: Fn(usize) -> Binary64,
    E: Fn(Binary64, Binary64, Binary64) -> Difference,
>(
    log_pmf: &L,
    hook: &H,
    differ: &E,
    upper: usize,
    Ghost(asked): Ghost<spec_fn(usize, Binary64) -> bool>,
) -> (r: Vec<DensityPoint>)
    requires
        forall|n: usize| #[trigger] call_requires(*log_pmf, (n,)),
        forall|n: usize| #[trigger] call_requires(*hook, (n,)),
        forall|a: Binary64, b: Binary64, c: Binary64| #[trigger] call_requires(*differ, (a, b, c)),
        forall|n: usize, value: Binary64| #[trigger]
            call_ensures(*hook, (n,), value) ==> asked(n, value),
    ensures
        are_points(*log_pmf, *differ, asked, upper, r@),
{
    let mut points: Vec<DensityPoint> = Vec::new();
    if upper < 2 {
        return points;
    }
    for k in 0..(upper - 1)
        invariant
            upper >= 2,
            forall|n: usize| #[trigger] call_requires(*log_pmf, (n,)),
            forall|n: usize| #[trigger] call_requires(*hook, (n,)),
            forall|a: Binary64, b: Binary64, c: Binary64| #[trigger]
                call_requires(*differ, (a, b, c)),
            forall|n: usize, value: Binary64| #[trigger]
                call_ensures(*hook, (n,), value) ==> asked(n, value),
            points@.len() == k,
            forall|j: int|
                #![trigger points@[j]]
                0 <= j < k ==> {
                    &&& points@[j].count == j + 2
                    &&& has_density(*log_pmf, points@[j])
                    &&& !outside_density(points@[j])
                    &&& has_ratio(*differ, asked, points@[j])
                },
    {
        let point = ask_density(log_pmf, k + 2);
        if is_outside(&point) {
            points.push(point);
            return points;
        }
        let point = ask_ratio(hook, differ, point, Ghost(asked));
        points.push(point);
    }
    points
}

/// The result on a hook, held against a density, with the points it rests on.
fn hold_hook<
    L: Fn(usize) -> Binary64,
    H: Fn(usize) -> Binary64,
    E: Fn(Binary64, Binary64, Binary64) -> Difference,
>(
    name: &str,
    hook_name: &str,
    log_pmf: &L,
    hook: &H,
    differ: &E,
    upper: usize,
    Ghost(asked): Ghost<spec_fn(usize, Binary64) -> bool>,
) -> (r: (CheckResult, Ghost<(Seq<DensityPoint>, DensityPoint)>))
    requires
        forall|n: usize| #[trigger] call_requires(*log_pmf, (n,)),
        forall|n: usize| #[trigger] call_requires(*hook, (n,)),
        forall|a: Binary64, b: Binary64, c: Binary64| #[trigger] call_requires(*differ, (a, b, c)),
        forall|n: usize, value: Binary64| #[trigger]
            call_ensures(*hook, (n,), value) ==> asked(n, value),
    ensures
        held_against(*log_pmf, *differ, asked, upper, r.1@.0, r.1@.1),
        r.0@ == density_verdict(name@, hook_name@, r.1@.0, r.1@.1),
{
    let points = compare_hook(log_pmf, hook, differ, upper, Ghost(asked));
    let again = match find_mismatch(&points) {
        Some(at) => {
            let fresh = ask_density(log_pmf, points[at].count);
            ask_ratio(hook, differ, fresh, Ghost(asked))
        },
        None => {
            let unasked = not_a_number();
            DensityPoint {
                count: 0,
                upper: unasked,
                lower: unasked,
                actual: unasked,
                expected: unasked,
                signed: unasked,
                error: unasked,
            }
        },
    };
    (assess_hook(name, hook_name, &points, &again), Ghost((points@, again)))
}

/// The two results are those of the two hooks, each held against its density.
pub open spec fn density_results<
    P: CountPriors,
    C: Fn(usize) -> Binary64,
    D: Fn(usize) -> Binary64,
    E: Fn(Binary64, Binary64, Binary64) -> Difference,
>(
    priors: &P,
    ctx: &ModelCtx,
    log_cell_pmf: C,
    log_dim_pmf: D,
    differ: E,
    max_cells: usize,
    cells: (Seq<DensityPoint>, DensityPoint),
    dims: (Seq<DensityPoint>, DensityPoint),
    results: Seq<Verdict>,
) -> bool {
    &&& held_against(
        log_cell_pmf,
        differ,
        |n: usize, value: Binary64|
            call_ensures(P::log_cell_count_ratio, (priors, n, ctx), value),
        max_cells,
        cells.0,
        cells.1,
    )
    &&& held_against(
        log_dim_pmf,
        differ,
        |n: usize, value: Binary64| call_ensures(P::log_dim_count_ratio, (priors, n, ctx), value),
        ctx.p,
        dims.0,
        dims.1,
    )
    &&& results == seq![
        density_verdict(
            "cell_ratio_matches_density"@,
            "log_cell_count_ratio"@,
            cells.0,
            cells.1,
        ),
        density_verdict("dim_ratio_matches_density"@, "log_dim_count_ratio"@, dims.0, dims.1),
    ]
    &&& results[0].passed <==> every_point_matches(cells.0)
    &&& results[1].passed <==> every_point_matches(dims.0)
}

/// Hold both hooks of a count prior against the density it was meant for: each must
/// be the difference of the log-density at adjacent counts. The counts are taken in
/// ascending order, the cell counts first; a density that is not finite ends a
/// comparison before the hook is asked. `differ` does the arithmetic on the log-density
/// at a count, the one at one fewer, and the ratio.
pub fn check_count_priors_against_density<
    P: CountPriors,
    C: Fn(usize) -> Binary64,
    D: Fn(usize) -> Binary64,
    E: Fn(Binary64, Binary64, Binary64) -> Difference,
>(
    priors: &P,
    ctx: &ModelCtx,
    log_cell_pmf: &C,
    log_dim_pmf: &D,
    max_cells: usize,
    differ: &E,
) -> (r: Vec<CheckResult>)
    requires
        forall|n: usize| #[trigger] call_requires(*log_cell_pmf, (n,)),
        forall|n: usize| #[trigger] call_requires(*log_dim_pmf, (n,)),
        forall|a: Binary64, b: Binary64, c: Binary64| #[trigger] call_requires(*differ, (a, b, c)),
    ensures
        exists|
            cells: (Seq<DensityPoint>, DensityPoint),
            dims: (Seq<DensityPoint>, DensityPoint),
        | #[trigger]
            density_results(
                priors,
                ctx,
                *log_cell_pmf,
                *log_dim_pmf,
                *differ,
                max_cells,
                cells,
                dims,
                verdicts(r@),
            ),
{
    let ask_cell = |n: usize| -> (value: Binary64)
        ensures
            call_ensures(P::log_cell_count_ratio, (priors, n, ctx), value),
        { priors.log_cell_count_ratio(n, ctx) };
    let ask_dim = |n: usize| -> (value: Binary64)
        ensures
            call_ensures(P::log_dim_count_ratio, (priors, n, ctx), value),
        { priors.log_dim_count_ratio(n, ctx) };
    let (cell_result, Ghost(cells)) = hold_hook(
        "cell_ratio_matches_density",
        "log_cell_count_ratio",
        log_cell_pmf,
        &ask_cell,
        differ,
        max_cells,
        Ghost(
            |n: usize, value: Binary64|
                call_ensures(P::log_cell_count_ratio, (priors, n, ctx), value),
        ),
    );
    let (dim_result, Ghost(dims)) = hold_hook(
        "dim_ratio_matches_density",
        "log_dim_count_ratio",
        log_dim_pmf,
        &ask_dim,
        differ,
        ctx.p,
        Ghost(
            |n: usize, value: Binary64|
                call_ensures(P::log_dim_count_ratio, (priors, n, ctx), value),
        ),
    );
    proof {
        matches_exactly_when_every_point_does(
            "cell_ratio_matches_density"@,
            "log_cell_count_ratio"@,
            cells.0,
            cells.1,
        );
        matches_exactly_when_every_point_does(
            "dim_ratio_matches_density"@,
            "log_dim_count_ratio"@,
            dims.0,
            dims.1,
        );
    }
    let r = pair(cell_result, dim_result);
    assert(density_results(
        priors,
        ctx,
        *log_cell_pmf,
        *log_dim_pmf,
        *differ,
        max_cells,
        cells,
        dims,
        verdicts(r@),
    ));
    r
}

/// No point disagrees more than the worst one: its error is not a number, or every
/// error is a number that is no larger.
pub proof fn worst_bounds_every_point(points: Seq<DensityPoint>, k: nat)
    requires
        1 <= k <= points.len(),
    ensures
        0 <= worst(points, k) < k,
        points[worst(points, k)].error.nan() || forall|i: int|
            0 <= i < k ==> (#[trigger] points[i]).error.at_most(points[worst(points, k)].error),
    decreases k,
{
    if k > 1 {
        worst_bounds_every_point(points, (k - 1) as nat);
    }
}

/// A hook matches its density exactly when the density is finite at every count and
/// every disagreement is a number within the tolerance.
pub proof fn matches_exactly_when_every_point_does(
    name: Seq<char>,
    hook: Seq<char>,
    points: Seq<DensityPoint>,
    again: DensityPoint,
)
    ensures
        density_verdict(name, hook, points, again).passed <==> every_point_matches(points),
{
    let outside = |i: int| outside_density(points[i]);
    lemma_first_holds(points.len(), outside);
    if first(points.len(), outside) is Some {
        let i = first(points.len(), outside)->0;
        assert(outside(i));
        assert(outside_density(points[i]));
    } else {
        assert forall|i: int| 0 <= i < points.len() implies !outside_density(
            #[trigger] points[i],
        ) by {
            assert(!outside(i));
        }
        if points.len() > 0 {
            worst_bounds_every_point(points, points.len());
            let w = worst(points, points.len());
            assert(points[w] == points[w]);
        }
    }
}

/// The finiteness of ratios.
proof fn lemma_bad_ratio(ratios: Seq<Binary64>)
    ensures
        bad_ratio(ratios) is None <==> forall|i: int|
            0 <= i < ratios.len() ==> (#[trigger] ratios[i]).finite(),
{
    let bad = |i: int| !ratios[i].finite();
    lemma_first_holds(ratios.len(), bad);
    if first(ratios.len(), bad) is Some {
        let i = first(ratios.len(), bad)->0;
        assert(bad(i));
        assert(!ratios[i].finite());
    } else {
        assert forall|i: int| 0 <= i < ratios.len() implies (#[trigger] ratios[i]).finite() by {
            assert(!bad(i));
        }
    }
}

/// The ratios of count priors pass exactly where every one of them is finite and comes
/// out the same twice.
pub proof fn ratios_pass_exactly_when_finite_and_pure(
    ratios: &Ratios,
    max_cells: usize,
    p: usize,
    r: Vec<CheckResult>,
)
    requires
        call_ensures(assess_ratios, (ratios, max_cells, p), r),
    ensures
        r@.len() == 4,
        (forall|i: int| 0 <= i < r@.len() ==> (#[trigger] r@[i]).passed) <==> {
            &&& forall|i: int|
                0 <= i < ratios.cells@.len() ==> (#[trigger] ratios.cells@[i]).finite()
            &&& forall|i: int| 0 <= i < ratios.dims@.len() ==> (#[trigger] ratios.dims@[i]).finite()
            &&& ratios.cells@ == ratios.repeat_cells@
            &&& ratios.dims@ == ratios.repeat_dims@
        },
{
    let list = ratio_verdicts(*ratios, max_cells, p);
    lemma_results_pass(r@);
    lemma_bad_ratio(ratios.cells@);
    lemma_bad_ratio(ratios.dims@);
    assert(list[0] == cell_verdict(ratios.cells@, max_cells));
    assert(list[1] == dim_verdict(ratios.dims@, p));
    assert(list[2].passed == ratios.repeat());
    assert(list[3].passed);
    if all_pass(list) {
        assert(list[0].passed && list[1].passed && list[2].passed);
    }
}

/// The ratios are asked for from two up to the largest count, one after the other, each
/// twice.
pub proof fn every_count_is_asked_for<P: CountPriors>(
    priors: &P,
    ctx: &ModelCtx,
    upper: usize,
    cells: Vec<Binary64>,
    dims: Vec<Binary64>,
    n: int,
)
    requires
        call_ensures(ask_cells::<P>, (priors, ctx, upper), cells),
        call_ensures(ask_dims::<P>, (priors, ctx, upper), dims),
        2 <= n <= upper,
    ensures
        cells@.len() == upper - 1,
        dims@.len() == upper - 1,
        call_ensures(P::log_cell_count_ratio, (priors, n as usize, ctx), cells@[n - 2]),
        call_ensures(P::log_dim_count_ratio, (priors, n as usize, ctx), dims@[n - 2]),
{
    assert(cells@[n - 2] == cells@[n - 2] && dims@[n - 2] == dims@[n - 2]);
}

/// A ratio agrees with a density exactly where the density is finite at every point and no
/// error lies above the tolerance; an error that is no number does not agree.
pub proof fn hook_passes_exactly_when_every_error_is_small(
    name: &str,
    hook: &str,
    points: &Vec<DensityPoint>,
    again: &DensityPoint,
    r: CheckResult,
)
    requires
        call_ensures(assess_hook, (name, hook, points, again), r),
    ensures
        r.name@ == name@,
        r.passed <==> forall|i: int|
            #![trigger points@[i]]
            0 <= i < points@.len() ==> {
                &&& points@[i].upper.finite()
                &&& points@[i].lower.finite()
                &&& points@[i].error.at_most(density_tolerance())
            },
        density_tolerance().finite(),
{
    matches_exactly_when_every_point_does(name@, hook@, points@, *again);
    if every_point_matches(points@) {
        assert forall|i: int|
            #![trigger points@[i]]
            0 <= i < points@.len() implies {
            &&& points@[i].upper.finite()
            &&& points@[i].lower.finite()
            &&& points@[i].error.at_most(density_tolerance())
        } by {
            assert(!outside_density(points@[i]));
        }
    }
}

/// A count prior whose hooks answer every count with one finite number passes.
pub proof fn pure_finite_hooks_pass<P: CountPriors>(
    priors: &P,
    ctx: &ModelCtx,
    max_cells: usize,
    r: Vec<CheckResult>,
)
    requires
        call_ensures(check_count_priors::<P>, (priors, ctx, max_cells), r),
        forall|n: usize, v: Binary64, w: Binary64|
            2 <= n <= max_cells && #[trigger] call_ensures(
                P::log_cell_count_ratio,
                (priors, n, ctx),
                v,
            ) && #[trigger] call_ensures(P::log_cell_count_ratio, (priors, n, ctx), w) ==> v == w
                && v.finite(),
        forall|n: usize, v: Binary64, w: Binary64|
            2 <= n <= ctx.p && #[trigger] call_ensures(
                P::log_dim_count_ratio,
                (priors, n, ctx),
                v,
            ) && #[trigger] call_ensures(P::log_dim_count_ratio, (priors, n, ctx), w) ==> v == w
                && v.finite(),
    ensures
        forall|i: int| 0 <= i < r@.len() ==> (#[trigger] r@[i]).passed,
{
    let ratios = choose|ratios: Ratios|
        ratios.cover(max_cells, ctx.p) && #[trigger] answered(priors, ctx, ratios) && verdicts(r@)
            == ratio_verdicts(ratios, max_cells, ctx.p);
    let list = ratio_verdicts(ratios, max_cells, ctx.p);
    lemma_results_pass(r@);
    lemma_bad_ratio(ratios.cells@);
    lemma_bad_ratio(ratios.dims@);
    assert forall|k: int| 0 <= k < ratios.cells@.len() implies (#[trigger] ratios.cells@[k]).finite()
        && ratios.cells@[k] == ratios.repeat_cells@[k] by {
        let n = (k + 2) as usize;
        assert(call_ensures(P::log_cell_count_ratio, (priors, n, ctx), ratios.cells@[k]));
        assert(call_ensures(P::log_cell_count_ratio, (priors, n, ctx), ratios.repeat_cells@[k]));
    }
    assert forall|k: int| 0 <= k < ratios.dims@.len() implies (#[trigger] ratios.dims@[k]).finite()
        && ratios.dims@[k] == ratios.repeat_dims@[k] by {
        let n = (k + 2) as usize;
        assert(call_ensures(P::log_dim_count_ratio, (priors, n, ctx), ratios.dims@[k]));
        assert(call_ensures(P::log_dim_count_ratio, (priors, n, ctx), ratios.repeat_dims@[k]));
    }
    assert(ratios.cells@ =~= ratios.repeat_cells@);
    assert(ratios.dims@ =~= ratios.repeat_dims@);
    assert(list[0] == cell_verdict(ratios.cells@, max_cells));
    assert(list[1] == dim_verdict(ratios.dims@, ctx.p));
    assert(list[2].passed == ratios.repeat());
    assert(all_pass(list));
}

/// A count prior that answers some count, of cells or of dimensions, with no finite number
/// does not pass.
pub proof fn infinite_ratio_fails<P: CountPriors>(
    priors: &P,
    ctx: &ModelCtx,
    max_cells: usize,
    n: usize,
    r: Vec<CheckResult>,
)
    requires
        call_ensures(check_count_priors::<P>, (priors, ctx, max_cells), r),
        (2 <= n <= max_cells && forall|v: Binary64| #[trigger]
            call_ensures(P::log_cell_count_ratio, (priors, n, ctx), v) ==> !v.finite()) || (2 <= n
            <= ctx.p && forall|v: Binary64| #[trigger]
            call_ensures(P::log_dim_count_ratio, (priors, n, ctx), v) ==> !v.finite()),
    ensures
        exists|i: int| 0 <= i < r@.len() && !(#[trigger] r@[i]).passed,
{
    let ratios = choose|ratios: Ratios|
        ratios.cover(max_cells, ctx.p) && #[trigger] answered(priors, ctx, ratios) && verdicts(r@)
            == ratio_verdicts(ratios, max_cells, ctx.p);
    let list = ratio_verdicts(ratios, max_cells, ctx.p);
    lemma_results_pass(r@);
    lemma_bad_ratio(ratios.cells@);
    lemma_bad_ratio(ratios.dims@);
    assert(list[0] == cell_verdict(ratios.cells@, max_cells));
    assert(list[1] == dim_verdict(ratios.dims@, ctx.p));
    let k = n - 2;
    if 2 <= n <= max_cells && forall|v: Binary64| #[trigger]
        call_ensures(P::log_cell_count_ratio, (priors, n, ctx), v) ==> !v.finite() {
        assert(call_ensures(P::log_cell_count_ratio, (priors, (k + 2) as usize, ctx), ratios.cells@[k]));
        assert(!list[0].passed);
    } else {
        assert(call_ensures(P::log_dim_count_ratio, (priors, (k + 2) as usize, ctx), ratios.dims@[k]));
        assert(!list[1].passed);
    }
}

/// Held against densities, hooks pass where the densities are finite and every
/// disagreement is within the tolerance of 1e-8.
pub proof fn matching_hooks_pass<
    P: CountPriors,
    C: Fn(usize) -> Binary64,
    D: Fn(usize) -> Binary64,
    E: Fn(Binary64, Binary64, Binary64) -> Difference,
>(
    priors: &P,
    ctx: &ModelCtx,
    log_cell_pmf: &C,
    log_dim_pmf: &D,
    max_cells: usize,
    differ: &E,
    r: Vec<CheckResult>,
)
    requires
        call_ensures(
            check_count_priors_against_density::<P, C, D, E>,
            (priors, ctx, log_cell_pmf, log_dim_pmf, max_cells, differ),
            r,
        ),
        forall|n: usize, v: Binary64| #[trigger] call_ensures(*log_cell_pmf, (n,), v) ==> v.finite(),
        forall|n: usize, v: Binary64| #[trigger] call_ensures(*log_dim_pmf, (n,), v) ==> v.finite(),
        forall|a: Binary64, b: Binary64, c: Binary64, d: Difference| #[trigger]
            call_ensures(*differ, (a, b, c), d) ==> d.error.at_most(
                from_bits(0x3e45_798e_e230_8c3a),
            ),
    ensures
        r@.len() == 2,
        forall|i: int| 0 <= i < r@.len() ==> (#[trigger] r@[i]).passed,
{
    let (cells, dims) = choose|
        cells: (Seq<DensityPoint>, DensityPoint),
        dims: (Seq<DensityPoint>, DensityPoint),
    | #[trigger]
        density_results(
            priors,
            ctx,
            *log_cell_pmf,
            *log_dim_pmf,
            *differ,
            max_cells,
            cells,
            dims,
            verdicts(r@),
        );
    lemma_results_pass(r@);
    assert forall|i: int| 0 <= i < cells.0.len() implies !outside_density(#[trigger] cells.0[i])
        && cells.0[i].error.at_most(density_tolerance()) by {
        let point = cells.0[i];
        assert(has_density(*log_cell_pmf, point));
    }
    assert forall|i: int| 0 <= i < dims.0.len() implies !outside_density(#[trigger] dims.0[i])
        && dims.0[i].error.at_most(density_tolerance()) by {
        let point = dims.0[i];
        assert(has_density(*log_dim_pmf, point));
    }
    assert(verdicts(r@)[0].passed && verdicts(r@)[1].passed);
    assert(all_pass(verdicts(r@)));
}

/// A hook does not pass where it disagrees with a finite density at any count, nor where
/// the density is not finite at one.
pub proof fn mismatched_hook_fails<
    P: CountPriors,
    C: Fn(usize) -> Binary64,
    D: Fn(usize) -> Binary64,
    E: Fn(Binary64, Binary64, Binary64) -> Difference,
>(
    priors: &P,
    ctx: &ModelCtx,
    log_cell_pmf: &C,
    log_dim_pmf: &D,
    max_cells: usize,
    differ: &E,
    n: usize,
    r: Vec<CheckResult>,
)
    requires
        call_ensures(
            check_count_priors_against_density::<P, C, D, E>,
            (priors, ctx, log_cell_pmf, log_dim_pmf, max_cells, differ),
            r,
        ),
        2 <= n <= max_cells,
        (forall|v: Binary64| #[trigger] call_ensures(*log_cell_pmf, (n,), v) ==> !v.finite()) || (
        forall|a: Binary64, b: Binary64, c: Binary64, d: Difference|
            #![trigger call_ensures(*differ, (a, b, c), d)]
            call_ensures(*differ, (a, b, c), d) && call_ensures(*log_cell_pmf, (n,), a)
                && call_ensures(P::log_cell_count_ratio, (priors, n, ctx), c) ==> !d.error.at_most(
                from_bits(0x3e45_798e_e230_8c3a),
            )),
    ensures
        r@.len() == 2,
        !r@[0].passed,
{
    let (cells, dims) = choose|
        cells: (Seq<DensityPoint>, DensityPoint),
        dims: (Seq<DensityPoint>, DensityPoint),
    | #[trigger]
        density_results(
            priors,
            ctx,
            *log_cell_pmf,
            *log_dim_pmf,
            *differ,
            max_cells,
            cells,
            dims,
            verdicts(r@),
        );
    let points = cells.0;
    if every_point_matches(points) {
        if points.len() < max_cells - 1 {
            assert(outside_density(points[points.len() - 1]));
        }
        let k = n - 2;
        let point = points[k];
        assert(!outside_density(point));
        assert(has_density(*log_cell_pmf, point));
        assert(point.count == n);
    }
    assert(verdicts(r@).len() == 2 && verdicts(r@).len() == r@.len());
    assert(verdicts(r@)[0] == r@[0]@);
}

/// Each result on a count prior bears the name of what it was checked for, and passes
/// exactly on that.
pub proof fn ratio_results_stand_for_themselves(
    ratios: &Ratios,
    max_cells: usize,
    p: usize,
    r: Vec<CheckResult>,
)
    requires
        call_ensures(assess_ratios, (ratios, max_cells, p), r),
    ensures
        r@.len() == 4,
        r@[0].name@ == "cell_ratios_finite"@ && r@[1].name@ == "dim_ratios_finite"@,
        r@[2].name@ == "ratios_deterministic"@ && r@[3].name@ == "ratio_digest"@,
        r@[0].passed <==> forall|i: int|
            0 <= i < ratios.cells@.len() ==> (#[trigger] ratios.cells@[i]).finite(),
        r@[1].passed <==> forall|i: int|
            0 <= i < ratios.dims@.len() ==> (#[trigger] ratios.dims@[i]).finite(),
        r@[2].passed <==> ratios.cells@ == ratios.repeat_cells@ && ratios.dims@
            == ratios.repeat_dims@,
        r@[3].passed,
{
    let list = ratio_verdicts(*ratios, max_cells, p);
    lemma_bad_ratio(ratios.cells@);
    lemma_bad_ratio(ratios.dims@);
    assert(verdicts(r@).len() == r@.len());
    assert(list[0] == r@[0]@ && list[1] == r@[1]@ && list[2] == r@[2]@ && list[3] == r@[3]@);
}

} // verus!
