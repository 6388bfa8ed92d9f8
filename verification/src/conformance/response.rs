//! Checks of response models: augmentations that write every entry and that repeat.

use crate::binary64::{one, zero, Binary64};
use crate::conformance::texts::{
    augment_failed_message, augment_failed_text, augments_differ_message, augments_differ_text,
    augments_repeat_message, augments_repeat_text, other_weights_message, other_weights_text,
    response_weight_bad_message, response_weight_bad_text, unit_weights_message,
    unit_weights_text, working_bad_message, working_bad_text, working_good_message,
    working_good_text,
};
use crate::conformance::{
    all_pass, fails, first_not_positive, fresh_buffer, holds, lemma_not_positive,
    lemma_results_pass, not_positive, only, passes, same_bits, triple, unwritten, user_error,
    user_error_text, verdicts, CheckResult, Verdict,
};
use crate::engine::data::first_non_finite;
use crate::extensions::ResponseModel;
use crate::search::{first, lemma_first_holds};
use vstd::prelude::*;

verus! {

/// What an augmentation wrote.
#[derive(Debug)]
pub struct Augmented {
    /// The working response.
    pub working: Vec<Binary64>,
    /// The weight of each observation.
    pub weights: Vec<Binary64>,
}

/// What one augmentation by a fresh step wrote into buffers that nothing has been
/// written to, or nothing where it fails.
pub fn augmented<R, K: ResponseModel<R>, F: Fn() -> K>(
    make_step: &F,
    y: &[Binary64],
    fit: &[Binary64],
    sigma_sq: Binary64,
    rng: &mut R,
) -> (r: Option<Augmented>)
    requires
        call_requires(*make_step, ()),
    ensures
        r matches Some(a) ==> a.working@.len() == y@.len() && a.weights@.len() == y@.len(),
        exists|
            step: &mut K,
            source: &mut R,
            working: &mut [Binary64],
            weights: &mut [Binary64],
            outcome: core::result::Result<(), K::Error>,
        |
            call_ensures(*make_step, (), *step) && *source == *old(rng) && *final(source)
                == *final(rng) && holds((*working)@, unwritten(y@.len())) && holds(
                (*weights)@,
                unwritten(y@.len()),
            ) && #[trigger] call_ensures(
                K::augment,
                (step, y, fit, sigma_sq, source, working, weights),
                outcome,
            ) && (match r {
                None => outcome is Err,
                Some(a) => outcome is Ok && holds((*final(working))@, a.working@) && holds(
                    (*final(weights))@,
                    a.weights@,
                ),
            }),
{
    let mut step = make_step();
    let mut working_buffer = fresh_buffer(y.len());
    let mut weight_buffer = fresh_buffer(y.len());
    let working = working_buffer.as_mut_slice();
    let weights = weight_buffer.as_mut_slice();
    match step.augment(y, fit, sigma_sq, rng, working, weights) {
        Err(_) => None,
        Ok(()) => Some(Augmented { working: working_buffer, weights: weight_buffer }),
    }
}

/// The verdict on the working response.
pub open spec fn working_verdict(working: Seq<Binary64>) -> Verdict {
    match first(working.len(), |i: int| !working[i].finite()) {
        Some(i) => fails("working_finite"@, working_bad_text(i, working[i])),
        None => passes("working_finite"@, working_good_text(working.len() as int)),
    }
}

/// Are all weights one?
pub open spec fn all_one(weights: Seq<Binary64>) -> bool {
    forall|i: int| 0 <= i < weights.len() ==> (#[trigger] weights[i]).same(one())
}

/// The verdict on the weights.
pub open spec fn weights_verdict(weights: Seq<Binary64>) -> Verdict {
    let n = weights.len() as int;
    match not_positive(weights) {
        Some(i) => fails("weights_valid"@, response_weight_bad_text(i, weights[i])),
        None => passes(
            "weights_valid"@,
            if all_one(weights) {
                unit_weights_text(n)
            } else {
                other_weights_text(n)
            },
        ),
    }
}

/// Did both write the same?
pub open spec fn agree(a: Augmented, b: Augmented) -> bool {
    a.working@ == b.working@ && a.weights@ == b.weights@
}

/// The verdicts on two augmentations.
pub open spec fn response_verdicts(a: Option<Augmented>, b: Option<Augmented>) -> Seq<Verdict> {
    match (a, b) {
        (Some(a), Some(b)) => seq![
            working_verdict(a.working@),
            weights_verdict(a.weights@),
            if agree(a, b) {
                passes("augment_deterministic"@, augments_repeat_text())
            } else {
                fails("augment_deterministic"@, augments_differ_text())
            },
        ],
        _ => seq![fails("augment_runs"@, augment_failed_text(user_error_text()))],
    }
}

/// The result on the working response.
fn check_working(working: &Vec<Binary64>) -> (r: CheckResult)
    ensures
        r@ == working_verdict(working@),
{
    match first_non_finite(working.as_slice()) {
        Some(i) => CheckResult::fail("working_finite", working_bad_message(i, working[i])),
        None => CheckResult::pass("working_finite", working_good_message(working.len())),
    }
}

/// Are all weights one?
fn are_all_one(weights: &Vec<Binary64>) -> (r: bool)
    ensures
        r == all_one(weights@),
{
    for i in 0..weights.len()
        invariant
            forall|j: int| 0 <= j < i ==> (#[trigger] weights@[j]).same(one()),
    {
        if !weights[i].is_same(one()) {
            assert(!weights@[i as int].same(one()));
            return false;
        }
    }
    true
}

/// The result on the weights.
fn check_weights(weights: &Vec<Binary64>) -> (r: CheckResult)
    ensures
        r@ == weights_verdict(weights@),
{
    let n: usize = weights.len();
    match first_not_positive(weights.as_slice()) {
        Some(i) => CheckResult::fail("weights_valid", response_weight_bad_message(i, weights[i])),
        None => {
            if are_all_one(weights) {
                CheckResult::pass("weights_valid", unit_weights_message(n))
            } else {
                CheckResult::pass("weights_valid", other_weights_message(n))
            }
        },
    }
}

/// The result on whether two augmentations agree.
fn check_repeat(a: &Augmented, b: &Augmented) -> (r: CheckResult)
    ensures
        r@ == (if agree(*a, *b) {
            passes("augment_deterministic"@, augments_repeat_text())
        } else {
            fails("augment_deterministic"@, augments_differ_text())
        }),
{
    if same_bits(a.working.as_slice(), b.working.as_slice()) && same_bits(
        a.weights.as_slice(),
        b.weights.as_slice(),
    ) {
        CheckResult::pass("augment_deterministic", augments_repeat_message())
    } else {
        CheckResult::fail("augment_deterministic", augments_differ_message())
    }
}

/// The results on two augmentations.
pub fn assess_response(a: &Option<Augmented>, b: &Option<Augmented>) -> (r: Vec<CheckResult>)
    ensures
        verdicts(r@) == response_verdicts(*a, *b),
{
    match (a, b) {
        (Some(a), Some(b)) => triple(
            check_working(&a.working),
            check_weights(&a.weights),
            check_repeat(a, b),
        ),
        _ => only(CheckResult::fail("augment_runs", augment_failed_message(&user_error()))),
    }
}

/// Check a response model: the augmentation runs, it writes a finite working response
/// and a valid weight for every observation, and two augmentations with the same
/// randomness agree bit for bit. Whether all weights are one is reported, because a
/// step with other weights must be paired with models that see them.
pub fn check_response_model<R, K: ResponseModel<R>, F: Fn() -> K>(
    make_step: F,
    y: &[Binary64],
    fit: &[Binary64],
    sigma_sq: Binary64,
    seed_a: &mut R,
    seed_b: &mut R,
) -> (r: Vec<CheckResult>)
    requires
        call_requires(make_step, ()),
    ensures
        exists|rng_a: &mut R, a: Option<Augmented>, rng_b: &mut R, b: Option<Augmented>|
            *rng_a == *old(seed_a) && *final(rng_a) == *final(seed_a) && *rng_b == *old(seed_b)
                && *final(rng_b) == *final(seed_b) && #[trigger] call_ensures(
                augmented::<R, K, F>,
                (&make_step, y, fit, sigma_sq, rng_a),
                a,
            ) && #[trigger] call_ensures(
                augmented::<R, K, F>,
                (&make_step, y, fit, sigma_sq, rng_b),
                b,
            ) && verdicts(r@) == response_verdicts(a, b),
{
    let a = augmented::<R, K, F>(&make_step, y, fit, sigma_sq, seed_a);
    let b = augmented::<R, K, F>(&make_step, y, fit, sigma_sq, seed_b);
    assess_response(&a, &b)
}

/// A response model passes exactly where both steps ran, every working response is
/// finite, every weight is finite and above zero, and the two steps give the same bits.
pub proof fn response_passes_exactly_when_sound(
    a: &Option<Augmented>,
    b: &Option<Augmented>,
    r: Vec<CheckResult>,
)
    requires
        call_ensures(assess_response, (a, b), r),
    ensures
        (forall|i: int| 0 <= i < r@.len() ==> (#[trigger] r@[i]).passed) <==> {
            &&& a is Some && b is Some
            &&& forall|i: int| 0 <= i < a->0.working@.len() ==> (#[trigger] a->0.working@[i]).finite()
            &&& forall|i: int|
                0 <= i < a->0.weights@.len() ==> (#[trigger] a->0.weights@[i]).finite()
                    && zero().below(a->0.weights@[i])
            &&& a->0.working@ == b->0.working@
            &&& a->0.weights@ == b->0.weights@
        },
        r@.len() == (if a is Some && b is Some {
            3nat
        } else {
            1
        }),
{
    let list = response_verdicts(*a, *b);
    lemma_results_pass(r@);
    if a is Some && b is Some {
        let working = a->0.working@;
        let bad = |i: int| !working[i].finite();
        lemma_first_holds(working.len(), bad);
        if first(working.len(), bad) is Some {
            let i = first(working.len(), bad)->0;
            assert(bad(i));
            assert(!a->0.working@[i].finite());
        } else {
            assert forall|i: int| 0 <= i < a->0.working@.len() implies (
            #[trigger] a->0.working@[i]).finite() by {
                assert(!bad(i));
            }
        }
        lemma_not_positive(a->0.weights@);
        assert(list[0] == working_verdict(working));
        assert(list[1] == weights_verdict(a->0.weights@));
        assert(list[2].passed == agree(a->0, b->0));
        if all_pass(list) {
            assert(list[0].passed && list[1].passed && list[2].passed);
        }
    } else {
        assert(!list[0].passed);
    }
}

/// Checks that all pass rest on two augmentations, one with each source, that write the
/// same: finite working responses and strictly positive weights, one for each observation.
pub proof fn passing_step_repeats_its_augmentation<R, K: ResponseModel<R>, F: Fn() -> K>(
    make_step: F,
    y: &[Binary64],
    fit: &[Binary64],
    sigma_sq: Binary64,
    seed_a: &mut R,
    seed_b: &mut R,
    r: Vec<CheckResult>,
)
    requires
        call_ensures(
            check_response_model::<R, K, F>,
            (make_step, y, fit, sigma_sq, seed_a, seed_b),
            r,
        ),
        forall|i: int| 0 <= i < r@.len() ==> (#[trigger] r@[i]).passed,
    ensures
        exists|rng_a: &mut R, a: Augmented, rng_b: &mut R, b: Augmented|
            {
                &&& #[trigger] call_ensures(
                    augmented::<R, K, F>,
                    (&make_step, y, fit, sigma_sq, rng_a),
                    Some(a),
                )
                &&& #[trigger] call_ensures(
                    augmented::<R, K, F>,
                    (&make_step, y, fit, sigma_sq, rng_b),
                    Some(b),
                )
                &&& *rng_a == *old(seed_a) && *final(rng_a) == *final(seed_a)
                &&& *rng_b == *old(seed_b) && *final(rng_b) == *final(seed_b)
                &&& a.working@ == b.working@ && a.weights@ == b.weights@
                &&& a.working@.len() == y@.len() && a.weights@.len() == y@.len()
                &&& forall|i: int| 0 <= i < y@.len() ==> (#[trigger] a.working@[i]).finite()
                &&& forall|i: int|
                    0 <= i < y@.len() ==> (#[trigger] a.weights@[i]).finite() && zero().below(
                        a.weights@[i],
                    )
            },
{
    let (rng_a, a, rng_b, b) = choose|
        rng_a: &mut R,
        a: Option<Augmented>,
        rng_b: &mut R,
        b: Option<Augmented>,
    |
        *rng_a == *old(seed_a) && *final(rng_a) == *final(seed_a) && *rng_b == *old(seed_b)
            && *final(rng_b) == *final(seed_b) && #[trigger] call_ensures(
            augmented::<R, K, F>,
            (&make_step, y, fit, sigma_sq, rng_a),
            a,
        ) && #[trigger] call_ensures(
            augmented::<R, K, F>,
            (&make_step, y, fit, sigma_sq, rng_b),
            b,
        ) && verdicts(r@) == response_verdicts(a, b);
    let list = response_verdicts(a, b);
    lemma_results_pass(r@);
    assert(list[0].passed);
    assert(a is Some && b is Some);
    let working = a->0.working@;
    let bad = |i: int| !working[i].finite();
    lemma_first_holds(working.len(), bad);
    lemma_not_positive(a->0.weights@);
    assert(list[0] == working_verdict(working));
    assert(list[1] == weights_verdict(a->0.weights@) && list[1].passed);
    assert(list[2].passed == agree(a->0, b->0));
    assert forall|i: int| 0 <= i < y@.len() implies (#[trigger] a->0.working@[i]).finite() by {
        assert(!bad(i));
    }
    let (first_reply, second_reply) = (a->0, b->0);
    assert(a == Some(first_reply) && b == Some(second_reply));
    assert(call_ensures(
        augmented::<R, K, F>,
        (&make_step, y, fit, sigma_sq, rng_a),
        Some(first_reply),
    ));
    assert(call_ensures(
        augmented::<R, K, F>,
        (&make_step, y, fit, sigma_sq, rng_b),
        Some(second_reply),
    ));
}

/// Each result on a response model bears the name of what it was checked for, and passes
/// exactly on that.
pub proof fn response_results_stand_for_themselves(
    a: &Option<Augmented>,
    b: &Option<Augmented>,
    r: Vec<CheckResult>,
)
    requires
        call_ensures(assess_response, (a, b), r),
        a is Some && b is Some,
    ensures
        r@.len() == 3,
        r@[0].name@ == "working_finite"@ && r@[1].name@ == "weights_valid"@,
        r@[2].name@ == "augment_deterministic"@,
        r@[0].passed <==> forall|i: int|
            0 <= i < a->0.working@.len() ==> (#[trigger] a->0.working@[i]).finite(),
        r@[1].passed <==> forall|i: int|
            0 <= i < a->0.weights@.len() ==> (#[trigger] a->0.weights@[i]).finite()
                && zero().below(a->0.weights@[i]),
        r@[2].passed <==> a->0.working@ == b->0.working@ && a->0.weights@ == b->0.weights@,
{
    let list = response_verdicts(*a, *b);
    let working = a->0.working@;
    let bad = |i: int| !working[i].finite();
    lemma_first_holds(working.len(), bad);
    lemma_not_positive(a->0.weights@);
    assert(verdicts(r@).len() == r@.len());
    assert(list[0] == r@[0]@ && list[1] == r@[1]@ && list[2] == r@[2]@);
    match first(working.len(), bad) {
        Some(i) => {
            assert(bad(i));
            assert(!a->0.working@[i].finite());
        },
        None => {
            assert forall|i: int| 0 <= i < a->0.working@.len() implies (
            #[trigger] a->0.working@[i]).finite() by {
                assert(!bad(i));
            }
        },
    }
}

} // verus!
