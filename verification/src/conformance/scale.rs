//! Checks of scale models: a valid variance and valid precisions, updates that
//! repeat, and a variance that follows the residuals.

use crate::binary64::{rank_orders_values, zero, Binary64};
use crate::conformance::texts::{
    no_precisions_message, no_precisions_text, precision_invalid_message, precision_invalid_text,
    precisions_miscounted_message, precisions_miscounted_text, precisions_valid_message,
    precisions_valid_text, scale_deaf_message, scale_deaf_text, scale_responds_message,
    scale_responds_text, scale_shift_free_message, scale_shift_free_text, scale_shifts_message,
    scale_shifts_text, scales_differ_message, scales_differ_text, scales_repeat_message,
    scales_repeat_text, sigma_sq_invalid_message, sigma_sq_invalid_text, sigma_sq_valid_message,
    sigma_sq_valid_text, update_failed_message, update_failed_text, zero_fit_message,
    zero_fit_text,
};
use crate::conformance::{
    all_pass, copied, fails, first_not_positive, lemma_not_positive, lemma_results_pass,
    not_positive, only, pair, passes, same_bits, triple, user_error, user_error_text, verdicts,
    CheckResult, Verdict,
};
use crate::extensions::ScaleModel;
use crate::randomness::{seeded, seeded_generator};
use rand_chacha::ChaCha8Rng;
use vstd::prelude::*;

verus! {

/// The state of a scale model after an update.
#[derive(Debug)]
pub struct Scale {
    /// The variance.
    pub sigma_sq: Binary64,
    /// The precision of each observation, where the model has any.
    pub precisions: Option<Vec<Binary64>>,
}

/// The state of a fresh model after one update, or nothing where the update fails.
pub fn updated_scale<C, R, S: ScaleModel<C, R>, F: Fn() -> S>(
    make_model: &F,
    ctx: &C,
    rng: &mut R,
) -> (r: Option<Scale>)
    requires
        call_requires(*make_model, ()),
    ensures
        exists|model: &mut S, source: &mut R, outcome: core::result::Result<(), S::Error>|
            call_ensures(*make_model, (), *model) && *source == *old(rng) && *final(source)
                == *final(rng) && #[trigger] call_ensures(
                S::update,
                (model, ctx, source),
                outcome,
            ) && (match r {
                None => outcome is Err,
                Some(scale) => outcome is Ok && call_ensures(
                    S::sigma_sq,
                    (&*final(model),),
                    scale.sigma_sq,
                ) && exists|precisions: Option<&[Binary64]>|
                    same_precisions(scale.precisions, precisions) && #[trigger] call_ensures(
                        S::precisions,
                        (&*final(model),),
                        precisions,
                    ),
            }),
{
    let mut model = make_model();
    match model.update(ctx, rng) {
        Err(_) => None,
        Ok(()) => {
            let sigma_sq = model.sigma_sq();
            let answer = model.precisions();
            let precisions = match answer {
                None => None,
                Some(values) => Some(copied(values)),
            };
            assert(same_precisions(precisions, answer));
            Some(Scale { sigma_sq, precisions })
        },
    }
}

/// Do both hold the same precisions, or none?
pub open spec fn same_precisions(a: Option<Vec<Binary64>>, b: Option<&[Binary64]>) -> bool {
    match (a, b) {
        (None, None) => true,
        (Some(x), Some(y)) => x@ == y@,
        _ => false,
    }
}

/// The reply is the state of a fresh model after one update with this randomness.
pub open spec fn updates_to<C, R, S: ScaleModel<C, R>, F: Fn() -> S>(
    make_model: &F,
    ctx: &C,
    randomness: R,
    reply: Option<Scale>,
) -> bool {
    exists|rng: &mut R|
        *rng == randomness && #[trigger] call_ensures(
            updated_scale::<C, R, S, F>,
            (make_model, ctx, rng),
            reply,
        )
}

/// The verdict on the variance.
pub open spec fn sigma_verdict(sigma_sq: Binary64) -> Verdict {
    if sigma_sq.positive_finite() {
        passes("sigma_sq_valid"@, sigma_sq_valid_text(sigma_sq))
    } else {
        fails("sigma_sq_valid"@, sigma_sq_invalid_text(sigma_sq))
    }
}

/// The verdict on the precisions of `n` observations.
pub open spec fn precision_verdict(precisions: Option<Vec<Binary64>>, n: int) -> Verdict {
    let name = "precisions_valid"@;
    match precisions {
        None => passes(name, no_precisions_text()),
        Some(p) => if p@.len() != n {
            fails(name, precisions_miscounted_text(p@.len() as int, n))
        } else {
            match not_positive(p@) {
                Some(i) => fails(name, precision_invalid_text(p@[i])),
                None => passes(name, precisions_valid_text(n)),
            }
        },
    }
}

/// Are both states the same, bit for bit?
pub open spec fn agree(a: Scale, b: Scale) -> bool {
    a.sigma_sq == b.sigma_sq && match (a.precisions, b.precisions) {
        (None, None) => true,
        (Some(p), Some(q)) => p@ == q@,
        _ => false,
    }
}

/// The verdicts on two updates of a model of `n` observations.
pub open spec fn scale_verdicts(a: Option<Scale>, b: Option<Scale>, n: int) -> Seq<Verdict> {
    match (a, b) {
        (Some(a), Some(b)) => seq![
            sigma_verdict(a.sigma_sq),
            precision_verdict(a.precisions, n),
            if agree(a, b) {
                passes("update_deterministic"@, scales_repeat_text())
            } else {
                fails("update_deterministic"@, scales_differ_text())
            },
        ],
        _ => seq![fails("update_runs"@, update_failed_text(user_error_text()))],
    }
}

/// The result on the variance.
fn check_sigma(sigma_sq: Binary64) -> (r: CheckResult)
    ensures
        r@ == sigma_verdict(sigma_sq),
{
    if sigma_sq.is_positive_finite() {
        CheckResult::pass("sigma_sq_valid", sigma_sq_valid_message(sigma_sq))
    } else {
        CheckResult::fail("sigma_sq_valid", sigma_sq_invalid_message(sigma_sq))
    }
}

/// The result on the precisions of `n` observations.
fn check_precisions(precisions: &Option<Vec<Binary64>>, n: usize) -> (r: CheckResult)
    ensures
        r@ == precision_verdict(*precisions, n as int),
{
    let name = "precisions_valid";
    match precisions {
        None => CheckResult::pass(name, no_precisions_message()),
        Some(p) => {
            if p.len() != n {
                return CheckResult::fail(name, precisions_miscounted_message(p.len(), n));
            }
            match first_not_positive(p.as_slice()) {
                Some(i) => CheckResult::fail(name, precision_invalid_message(p[i])),
                None => CheckResult::pass(name, precisions_valid_message(n)),
            }
        },
    }
}

/// The result on whether two updates agree.
fn check_repeat(a: &Scale, b: &Scale) -> (r: CheckResult)
    ensures
        r@ == (if agree(*a, *b) {
            passes("update_deterministic"@, scales_repeat_text())
        } else {
            fails("update_deterministic"@, scales_differ_text())
        }),
{
    let same = match (&a.precisions, &b.precisions) {
        (None, None) => true,
        (Some(p), Some(q)) => same_bits(p.as_slice(), q.as_slice()),
        _ => false,
    };
    if a.sigma_sq == b.sigma_sq && same {
        CheckResult::pass("update_deterministic", scales_repeat_message())
    } else {
        CheckResult::fail("update_deterministic", scales_differ_message())
    }
}

/// The results on two updates of a model of `n` observations.
pub fn assess_scale(a: &Option<Scale>, b: &Option<Scale>, n: usize) -> (r: Vec<CheckResult>)
    ensures
        verdicts(r@) == scale_verdicts(*a, *b, n as int),
{
    match (a, b) {
        (Some(a), Some(b)) => triple(
            check_sigma(a.sigma_sq),
            check_precisions(&a.precisions, n),
            check_repeat(a, b),
        ),
        _ => only(CheckResult::fail("update_runs", update_failed_message(&user_error()))),
    }
}

/// Check a scale model on a fixture of `n` observations: the update runs, the
/// variance is finite and strictly positive after it, any precisions are valid and
/// as many as there are observations, and two updates with the same randomness agree
/// bit for bit. Whether the variance responds to the data is not asked here: a pinned
/// one rightly ignores it.
pub fn check_scale_model<C, R, S: ScaleModel<C, R>, F: Fn() -> S>(
    make_model: F,
    ctx: &C,
    n: usize,
    seed_a: &mut R,
    seed_b: &mut R,
) -> (r: Vec<CheckResult>)
    requires
        call_requires(make_model, ()),
    ensures
        exists|rng_a: &mut R, a: Option<Scale>, rng_b: &mut R, b: Option<Scale>|
            *rng_a == *old(seed_a) && *final(rng_a) == *final(seed_a) && *rng_b == *old(seed_b)
                && *final(rng_b) == *final(seed_b) && #[trigger] call_ensures(
                updated_scale::<C, R, S, F>,
                (&make_model, ctx, rng_a),
                a,
            ) && #[trigger] call_ensures(
                updated_scale::<C, R, S, F>,
                (&make_model, ctx, rng_b),
                b,
            ) && verdicts(r@) == scale_verdicts(a, b, n as int),
{
    let a = updated_scale::<C, R, S, F>(&make_model, ctx, seed_a);
    let b = updated_scale::<C, R, S, F>(&make_model, ctx, seed_b);
    assess_scale(&a, &b, n)
}

/// Is the fit zero everywhere, so that a residual cannot be told from a response?
pub open spec fn hides_residuals(fit: Seq<Binary64>) -> bool {
    forall|i: int| 0 <= i < fit.len() ==> (#[trigger] fit[i]).same(zero())
}

/// The variances that a model arrives at from the same randomness: on the fixture, on
/// the fixture with fourfold residuals, on the fixture again, and on the fixture
/// shifted as a whole; nothing where an update failed.
#[derive(Debug, Clone, Copy)]
pub struct Probes {
    /// On the fixture.
    pub base: Option<Binary64>,
    /// With fourfold residuals.
    pub loud: Option<Binary64>,
    /// On the fixture, again.
    pub base_again: Option<Binary64>,
    /// Shifted as a whole.
    pub shifted: Option<Binary64>,
}

/// The verdict on whether the variance follows the residuals.
pub open spec fn loudness_verdict(base: Binary64, loud: Binary64) -> Verdict {
    let name = "sigma_sq_responds_to_residuals"@;
    if base.below(loud) {
        passes(name, scale_responds_text(base, loud))
    } else {
        fails(name, scale_deaf_text(base, loud))
    }
}

/// The verdict on whether the variance is taken from residuals, given the absolute
/// difference of the two variances and the largest one that rounding explains.
pub open spec fn shift_verdict(
    base: Option<Binary64>,
    shifted: Option<Binary64>,
    difference: Binary64,
    bound: Binary64,
) -> Verdict {
    match (base, shifted) {
        (Some(base), Some(shifted)) => if difference.at_most(bound) {
            passes("sigma_sq_uses_residuals"@, scale_shift_free_text(base))
        } else {
            fails("sigma_sq_uses_residuals"@, scale_shifts_text(base, shifted))
        },
        _ => fails("update_runs"@, update_failed_text(user_error_text())),
    }
}

/// The verdicts on whether a model learns from the data. A fixture that hides the
/// residuals is refused, and a failed update in the first probe ends the check.
pub open spec fn learning_verdicts(
    fit: Seq<Binary64>,
    probes: Probes,
    difference: Binary64,
    bound: Binary64,
) -> Seq<Verdict> {
    if hides_residuals(fit) {
        seq![fails("sigma_sq_uses_residuals"@, zero_fit_text())]
    } else {
        match (probes.base, probes.loud) {
            (Some(base), Some(loud)) => seq![
                loudness_verdict(base, loud),
                shift_verdict(probes.base_again, probes.shifted, difference, bound),
            ],
            _ => seq![fails("update_runs"@, update_failed_text(user_error_text()))],
        }
    }
}

/// Is the fit zero everywhere?
pub fn does_hide_residuals(fit: &[Binary64]) -> (r: bool)
    ensures
        r == hides_residuals(fit@),
{
    for i in 0..fit.len()
        invariant
            forall|j: int| 0 <= j < i ==> (#[trigger] fit@[j]).same(zero()),
    {
        if !fit[i].is_same(zero()) {
            assert(!fit@[i as int].same(zero()));
            return false;
        }
    }
    true
}

/// The variance of a reply.
pub open spec fn variance_of(reply: Option<Scale>) -> Option<Binary64> {
    match reply {
        Some(scale) => Some(scale.sigma_sq),
        None => None,
    }
}

/// The variance is the one of a fresh model after one update with the randomness of
/// the seed.
pub open spec fn learns<C, S: ScaleModel<C, ChaCha8Rng>, F: Fn() -> S>(
    make_model: &F,
    seed: u64,
    ctx: &C,
    variance: Option<Binary64>,
) -> bool {
    exists|reply: Option<Scale>|
        variance == variance_of(reply) && #[trigger] updates_to::<C, ChaCha8Rng, S, F>(
            make_model,
            ctx,
            seeded(seed),
            reply,
        )
}

/// The variance of a fresh model after one update with freshly seeded randomness.
fn learn<C, S: ScaleModel<C, ChaCha8Rng>, F: Fn() -> S>(
    make_model: &F,
    seed: u64,
    ctx: &C,
) -> (r: Option<Binary64>)
    requires
        call_requires(*make_model, ()),
    ensures
        learns::<C, S, F>(make_model, seed, ctx, r),
{
    let mut rng = seeded_generator(seed);
    let reply = updated_scale::<C, ChaCha8Rng, S, F>(make_model, ctx, &mut rng);
    assert(updates_to::<C, ChaCha8Rng, S, F>(make_model, ctx, seeded(seed), reply));
    match reply {
        Some(scale) => Some(scale.sigma_sq),
        None => None,
    }
}

/// Take the variances that a model arrives at: on the fixture, with fourfold
/// residuals, on the fixture again and shifted as a whole, always with the randomness
/// of one seed. The last two are not asked for where one of the first two failed, and
/// none where the fit hides the residuals.
pub fn observe_learning<C, S: ScaleModel<C, ChaCha8Rng>, F: Fn() -> S>(
    make_model: F,
    seed: u64,
    fit: &[Binary64],
    base_ctx: &C,
    loud_ctx: &C,
    shifted_ctx: &C,
) -> (r: Probes)
    requires
        call_requires(make_model, ()),
    ensures
        hides_residuals(fit@) ==> r.base is None && r.loud is None,
        !hides_residuals(fit@) ==> {
            &&& learns::<C, S, F>(&make_model, seed, base_ctx, r.base)
            &&& learns::<C, S, F>(&make_model, seed, loud_ctx, r.loud)
        },
        r.base is Some && r.loud is Some ==> {
            &&& learns::<C, S, F>(&make_model, seed, base_ctx, r.base_again)
            &&& learns::<C, S, F>(&make_model, seed, shifted_ctx, r.shifted)
        },
        r.base is None || r.loud is None ==> r.base_again is None && r.shifted is None,
{
    if does_hide_residuals(fit) {
        return Probes { base: None, loud: None, base_again: None, shifted: None };
    }
    let base = learn::<C, S, F>(&make_model, seed, base_ctx);
    let loud = learn::<C, S, F>(&make_model, seed, loud_ctx);
    if base.is_none() || loud.is_none() {
        return Probes { base, loud, base_again: None, shifted: None };
    }
    let base_again = learn::<C, S, F>(&make_model, seed, base_ctx);
    let shifted = learn::<C, S, F>(&make_model, seed, shifted_ctx);
    Probes { base, loud, base_again, shifted }
}

/// The result on whether the variance follows the residuals.
fn check_loudness(base: Binary64, loud: Binary64) -> (r: CheckResult)
    ensures
        r@ == loudness_verdict(base, loud),
{
    let name = "sigma_sq_responds_to_residuals";
    if base.is_below(loud) {
        CheckResult::pass(name, scale_responds_message(base, loud))
    } else {
        CheckResult::fail(name, scale_deaf_message(base, loud))
    }
}

/// The result on whether the variance is taken from residuals.
fn check_shift(
    base: Option<Binary64>,
    shifted: Option<Binary64>,
    difference: Binary64,
    bound: Binary64,
) -> (r: CheckResult)
    ensures
        r@ == shift_verdict(base, shifted, difference, bound),
{
    match (base, shifted) {
        (Some(base), Some(shifted)) => {
            if difference.is_at_most(bound) {
                CheckResult::pass("sigma_sq_uses_residuals", scale_shift_free_message(base))
            } else {
                CheckResult::fail("sigma_sq_uses_residuals", scale_shifts_message(base, shifted))
            }
        },
        _ => CheckResult::fail("update_runs", update_failed_message(&user_error())),
    }
}

/// Check that a scale model learns the variance from the data: fourfold residuals
/// raise it, and a shift of response and fit together leaves it where it was.
/// `difference` is the absolute difference of the last two variances, `bound` the
/// largest one that rounding explains.
pub fn check_scale_model_learns_from_data(
    fit: &[Binary64],
    probes: &Probes,
    difference: Binary64,
    bound: Binary64,
) -> (r: Vec<CheckResult>)
    ensures
        verdicts(r@) == learning_verdicts(fit@, *probes, difference, bound),
{
    if does_hide_residuals(fit) {
        return only(CheckResult::fail("sigma_sq_uses_residuals", zero_fit_message()));
    }
    match (probes.base, probes.loud) {
        (Some(base), Some(loud)) => pair(
            check_loudness(base, loud),
            check_shift(probes.base_again, probes.shifted, difference, bound),
        ),
        _ => only(CheckResult::fail("update_runs", update_failed_message(&user_error()))),
    }
}

/// A scale model passes exactly where both updates ran, its variance is finite and above
/// zero, its precisions, where it has any, are one for each observation, finite and above
/// zero, and the two updates give the same bits.
pub proof fn scale_passes_exactly_when_sound(
    a: &Option<Scale>,
    b: &Option<Scale>,
    n: usize,
    r: Vec<CheckResult>,
)
    requires
        call_ensures(assess_scale, (a, b, n), r),
    ensures
        (forall|i: int| 0 <= i < r@.len() ==> (#[trigger] r@[i]).passed) <==> {
            &&& a is Some && b is Some
            &&& a->0.sigma_sq.finite() && zero().below(a->0.sigma_sq)
            &&& a->0.precisions matches Some(p) ==> p@.len() == n && forall|i: int|
                0 <= i < p@.len() ==> (#[trigger] p@[i]).finite() && zero().below(p@[i])
            &&& a->0.sigma_sq == b->0.sigma_sq
            &&& a->0.precisions is Some <==> b->0.precisions is Some
            &&& a->0.precisions is Some ==> a->0.precisions->0@ == b->0.precisions->0@
        },
        r@.len() == (if a is Some && b is Some {
            3nat
        } else {
            1
        }),
{
    let list = scale_verdicts(*a, *b, n as int);
    lemma_results_pass(r@);
    if a is Some && b is Some {
        if a->0.precisions is Some {
            lemma_not_positive(a->0.precisions->0@);
        }
        assert(list[0] == sigma_verdict(a->0.sigma_sq));
        assert(list[1] == precision_verdict(a->0.precisions, n as int));
        assert(list[2].passed == agree(a->0, b->0));
        if all_pass(list) {
            assert(list[0].passed && list[1].passed && list[2].passed);
        }
    } else {
        assert(!list[0].passed);
    }
}

/// A scale model learns from data exactly where the fit leaves residuals to see, all four
/// updates ran, the variance of the louder residuals lies above that of the plain ones,
/// and a shift of response and fit together changes it by no more than the bound.
pub proof fn scale_learns_exactly_when_it_follows_residuals(
    fit: &[Binary64],
    probes: &Probes,
    difference: Binary64,
    bound: Binary64,
    r: Vec<CheckResult>,
)
    requires
        call_ensures(check_scale_model_learns_from_data, (fit, probes, difference, bound), r),
    ensures
        (forall|i: int| 0 <= i < r@.len() ==> (#[trigger] r@[i]).passed) <==> {
            &&& exists|i: int| 0 <= i < fit@.len() && !(#[trigger] fit@[i]).same(zero())
            &&& probes.base is Some && probes.loud is Some
            &&& probes.base->0.below(probes.loud->0)
            &&& probes.base_again is Some && probes.shifted is Some
            &&& difference.at_most(bound)
        },
{
    let list = learning_verdicts(fit@, *probes, difference, bound);
    lemma_results_pass(r@);
    if hides_residuals(fit@) {
        assert(!list[0].passed);
    } else if probes.base is Some && probes.loud is Some {
        assert(list[0] == loudness_verdict(probes.base->0, probes.loud->0));
        assert(list[1] == shift_verdict(probes.base_again, probes.shifted, difference, bound));
        if all_pass(list) {
            assert(list[0].passed && list[1].passed);
        }
    } else {
        assert(!list[0].passed);
    }
}

/// The probes ask with one seed each time: first the plain and the louder residuals, and,
/// where both ran, the plain ones again and the shifted ones; a fit that hides the
/// residuals is not probed at all.
pub proof fn probes_share_one_seed<C, S: ScaleModel<C, ChaCha8Rng>, F: Fn() -> S>(
    make_model: F,
    seed: u64,
    fit: &[Binary64],
    base_ctx: &C,
    loud_ctx: &C,
    shifted_ctx: &C,
    r: Probes,
)
    requires
        call_ensures(
            observe_learning::<C, S, F>,
            (make_model, seed, fit, base_ctx, loud_ctx, shifted_ctx),
            r,
        ),
    ensures
        (forall|i: int| 0 <= i < fit@.len() ==> (#[trigger] fit@[i]).same(zero())) ==> r.base
            is None && r.loud is None,
        r.base is Some ==> learns::<C, S, F>(&make_model, seed, base_ctx, r.base),
        r.loud is Some ==> learns::<C, S, F>(&make_model, seed, loud_ctx, r.loud),
        r.base is Some && r.loud is Some ==> learns::<C, S, F>(
            &make_model,
            seed,
            base_ctx,
            r.base_again,
        ) && learns::<C, S, F>(&make_model, seed, shifted_ctx, r.shifted),
        r.base is None || r.loud is None ==> r.base_again is None && r.shifted is None,
{
}

/// Checks that all pass rest on two updates, one with each source, that arrive at the same
/// finite variance above zero.
pub proof fn passing_scale_repeats_its_variance<C, R, S: ScaleModel<C, R>, F: Fn() -> S>(
    make_model: F,
    ctx: &C,
    n: usize,
    seed_a: &mut R,
    seed_b: &mut R,
    r: Vec<CheckResult>,
)
    requires
        call_ensures(check_scale_model::<C, R, S, F>, (make_model, ctx, n, seed_a, seed_b), r),
        forall|i: int| 0 <= i < r@.len() ==> (#[trigger] r@[i]).passed,
    ensures
        exists|rng_a: &mut R, a: Scale, rng_b: &mut R, b: Scale|
            {
                &&& #[trigger] call_ensures(
                    updated_scale::<C, R, S, F>,
                    (&make_model, ctx, rng_a),
                    Some(a),
                )
                &&& #[trigger] call_ensures(
                    updated_scale::<C, R, S, F>,
                    (&make_model, ctx, rng_b),
                    Some(b),
                )
                &&& *rng_a == *old(seed_a) && *final(rng_a) == *final(seed_a)
                &&& *rng_b == *old(seed_b) && *final(rng_b) == *final(seed_b)
                &&& a.sigma_sq == b.sigma_sq && a.sigma_sq.finite() && zero().below(a.sigma_sq)
                &&& a.precisions matches Some(p) ==> p@.len() == n && forall|i: int|
                    0 <= i < n ==> (#[trigger] p@[i]).finite() && zero().below(p@[i])
            },
{
    let (rng_a, a, rng_b, b) = choose|
        rng_a: &mut R,
        a: Option<Scale>,
        rng_b: &mut R,
        b: Option<Scale>,
    |
        *rng_a == *old(seed_a) && *final(rng_a) == *final(seed_a) && *rng_b == *old(seed_b)
            && *final(rng_b) == *final(seed_b) && #[trigger] call_ensures(
            updated_scale::<C, R, S, F>,
            (&make_model, ctx, rng_a),
            a,
        ) && #[trigger] call_ensures(
            updated_scale::<C, R, S, F>,
            (&make_model, ctx, rng_b),
            b,
        ) && verdicts(r@) == scale_verdicts(a, b, n as int);
    let list = scale_verdicts(a, b, n as int);
    lemma_results_pass(r@);
    assert(list[0].passed);
    assert(a is Some && b is Some);
    if a->0.precisions is Some {
        lemma_not_positive(a->0.precisions->0@);
    }
    assert(list[0] == sigma_verdict(a->0.sigma_sq));
    assert(list[1] == precision_verdict(a->0.precisions, n as int) && list[1].passed);
    assert(list[2].passed == agree(a->0, b->0));
    let (first_reply, second_reply) = (a->0, b->0);
    assert(a == Some(first_reply) && b == Some(second_reply));
    assert(call_ensures(
        updated_scale::<C, R, S, F>,
        (&make_model, ctx, rng_a),
        Some(first_reply),
    ));
    assert(call_ensures(
        updated_scale::<C, R, S, F>,
        (&make_model, ctx, rng_b),
        Some(second_reply),
    ));
}

/// Residuals are hidden exactly where the fit is zero everywhere.
pub proof fn residuals_are_hidden_by_a_zero_fit(fit: &[Binary64], r: bool)
    requires
        forall|i: int| 0 <= i < fit@.len() ==> (#[trigger] fit@[i]).finite(),
        call_ensures(does_hide_residuals, (fit,), r),
    ensures
        r <==> forall|i: int| 0 <= i < fit@.len() ==> (#[trigger] fit@[i]).value() == 0,
{
    assert(zero().value() == 0);
    assert forall|i: int| 0 <= i < fit@.len() implies (#[trigger] fit@[i]).same(zero()) == (
    fit@[i].value() == 0) by {
        rank_orders_values(fit@[i], zero());
    }
}

/// Each result on a scale model bears the name of what it was checked for, and passes
/// exactly on that.
pub proof fn scale_results_stand_for_themselves(
    a: &Option<Scale>,
    b: &Option<Scale>,
    n: usize,
    r: Vec<CheckResult>,
)
    requires
        call_ensures(assess_scale, (a, b, n), r),
        a is Some && b is Some,
    ensures
        r@.len() == 3,
        r@[0].name@ == "sigma_sq_valid"@ && r@[1].name@ == "precisions_valid"@,
        r@[2].name@ == "update_deterministic"@,
        r@[0].passed <==> a->0.sigma_sq.finite() && zero().below(a->0.sigma_sq),
        r@[1].passed <==> (a->0.precisions matches Some(p) ==> p@.len() == n && forall|i: int|
            0 <= i < p@.len() ==> (#[trigger] p@[i]).finite() && zero().below(p@[i])),
        r@[2].passed <==> a->0.sigma_sq == b->0.sigma_sq && (a->0.precisions
            is Some <==> b->0.precisions is Some) && (a->0.precisions is Some
            ==> a->0.precisions->0@ == b->0.precisions->0@),
{
    let list = scale_verdicts(*a, *b, n as int);
    if a->0.precisions is Some {
        lemma_not_positive(a->0.precisions->0@);
    }
    assert(verdicts(r@).len() == r@.len());
    assert(list[0] == r@[0]@ && list[1] == r@[1]@ && list[2] == r@[2]@);
}

/// Each result on whether a scale model learns bears the name of what it was checked for,
/// and passes exactly on that.
pub proof fn learning_results_stand_for_themselves(
    fit: &[Binary64],
    probes: &Probes,
    difference: Binary64,
    bound: Binary64,
    r: Vec<CheckResult>,
)
    requires
        call_ensures(check_scale_model_learns_from_data, (fit, probes, difference, bound), r),
        exists|i: int| 0 <= i < fit@.len() && !(#[trigger] fit@[i]).same(zero()),
        probes.base is Some && probes.loud is Some,
        probes.base_again is Some && probes.shifted is Some,
    ensures
        r@.len() == 2,
        r@[0].name@ == "sigma_sq_responds_to_residuals"@,
        r@[1].name@ == "sigma_sq_uses_residuals"@,
        r@[0].passed <==> probes.base->0.below(probes.loud->0),
        r@[1].passed <==> difference.at_most(bound),
{
    let list = learning_verdicts(fit@, *probes, difference, bound);
    assert(!hides_residuals(fit@));
    assert(verdicts(r@).len() == r@.len());
    assert(list[0] == r@[0]@ && list[1] == r@[1]@);
}

} // verus!
