//! Checks of inclusion models: valid weights before and after an update, and updates
//! that repeat.

use crate::binary64::{zero, Binary64};
use crate::conformance::texts::{
    update_destroys_message, update_destroys_text, update_failed_message, update_failed_text,
    update_miscounts_message, update_miscounts_text, updates_differ_message, updates_differ_text,
    updates_repeat_message, updates_repeat_text, weight_invalid_message, weight_invalid_text,
    weights_counted_message, weights_counted_text, weights_miscounted_message,
    weights_miscounted_text, weights_still_valid_message, weights_still_valid_text,
    weights_valid_message, weights_valid_text,
};
use crate::conformance::{
    all_pass, copied, fails, first_not_positive, lemma_not_positive, lemma_results_pass,
    not_positive, passes, quadruple, same_bits, triple, user_error, user_error_text, verdicts,
    CheckResult, Verdict,
};
use crate::extensions::InclusionModel;
use vstd::prelude::*;

verus! {

/// The weights of a fresh model.
pub fn fresh_weights<U, R, M: InclusionModel<U, R>, F: Fn() -> M>(make_model: &F) -> (r: Vec<
    Binary64,
>)
    requires
        call_requires(*make_model, ()),
    ensures
        exists|model: M, weights: &[Binary64]|
            r@ == weights@ && call_ensures(*make_model, (), model) && #[trigger] call_ensures(
                M::weights,
                (&model,),
                weights,
            ),
{
    let model = make_model();
    let weights = model.weights();
    let r = copied(weights);
    assert(call_ensures(M::weights, (&model,), weights));
    r
}

/// The weights of a fresh model after one update, or nothing where the update fails.
pub fn updated_weights<U, R, M: InclusionModel<U, R>, F: Fn() -> M>(
    make_model: &F,
    usage: &U,
    rng: &mut R,
) -> (r: Option<Vec<Binary64>>)
    requires
        call_requires(*make_model, ()),
    ensures
        exists|model: &mut M, source: &mut R, outcome: core::result::Result<(), M::Error>|
            call_ensures(*make_model, (), *model) && *source == *old(rng) && *final(source)
                == *final(rng) && #[trigger] call_ensures(
                M::update,
                (model, usage, source),
                outcome,
            ) && (match r {
                None => outcome is Err,
                Some(w) => outcome is Ok && exists|weights: &[Binary64]|
                    w@ == weights@ && #[trigger] call_ensures(
                        M::weights,
                        (&*final(model),),
                        weights,
                    ),
            }),
{
    let mut model = make_model();
    match model.update(usage, rng) {
        Err(_) => None,
        Ok(()) => {
            let weights = model.weights();
            Some(copied(weights))
        },
    }
}

/// What a model answered.
pub struct InclusionRecord {
    /// The weights of a fresh model.
    pub start: Vec<Binary64>,
    /// The weights after an update, or nothing where it failed.
    pub first: Option<Vec<Binary64>>,
    /// The weights after an update with the same randomness.
    pub second: Option<Vec<Binary64>>,
}

/// The verdict on the number of weights.
pub open spec fn length_verdict(weights: Seq<Binary64>, n_covariates: int) -> Verdict {
    if weights.len() != n_covariates {
        fails("weights_length"@, weights_miscounted_text(weights.len() as int, n_covariates))
    } else {
        passes("weights_length"@, weights_counted_text(n_covariates))
    }
}

/// The verdict on the weights before an update.
pub open spec fn valid_verdict(weights: Seq<Binary64>) -> Verdict {
    match not_positive(weights) {
        Some(i) => fails("weights_valid"@, weight_invalid_text(weights[i])),
        None => passes("weights_valid"@, weights_valid_text()),
    }
}

/// The verdict on the weights after an update: an invalid weight is reported before
/// a wrong number.
pub open spec fn after_verdict(weights: Seq<Binary64>, n_covariates: int) -> Verdict {
    let name = "weights_valid_after_update"@;
    match not_positive(weights) {
        Some(i) => fails(name, update_destroys_text(i, weights[i])),
        None => if weights.len() != n_covariates {
            fails(name, update_miscounts_text(weights.len() as int, n_covariates))
        } else {
            passes(name, weights_still_valid_text(n_covariates))
        },
    }
}

/// The verdicts on what a model answered.
pub open spec fn inclusion_verdicts(record: InclusionRecord, n_covariates: int) -> Seq<Verdict> {
    let length = length_verdict(record.start@, n_covariates);
    let valid = valid_verdict(record.start@);
    match (record.first, record.second) {
        (Some(a), Some(b)) => seq![
            length,
            valid,
            after_verdict(a@, n_covariates),
            if a@ == b@ {
                passes("update_deterministic"@, updates_repeat_text())
            } else {
                fails("update_deterministic"@, updates_differ_text())
            },
        ],
        _ => seq![
            length,
            valid,
            fails("update_runs"@, update_failed_text(user_error_text())),
        ],
    }
}

/// The result on the number of weights.
fn check_length(weights: &Vec<Binary64>, n_covariates: usize) -> (r: CheckResult)
    ensures
        r@ == length_verdict(weights@, n_covariates as int),
{
    if weights.len() != n_covariates {
        CheckResult::fail(
            "weights_length",
            weights_miscounted_message(weights.len(), n_covariates),
        )
    } else {
        CheckResult::pass("weights_length", weights_counted_message(n_covariates))
    }
}

/// The result on the weights before an update.
fn check_valid(weights: &Vec<Binary64>) -> (r: CheckResult)
    ensures
        r@ == valid_verdict(weights@),
{
    match first_not_positive(weights.as_slice()) {
        Some(i) => CheckResult::fail("weights_valid", weight_invalid_message(weights[i])),
        None => CheckResult::pass("weights_valid", weights_valid_message()),
    }
}

/// The result on the weights after an update.
fn check_after(weights: &Vec<Binary64>, n_covariates: usize) -> (r: CheckResult)
    ensures
        r@ == after_verdict(weights@, n_covariates as int),
{
    let name = "weights_valid_after_update";
    match first_not_positive(weights.as_slice()) {
        Some(i) => CheckResult::fail(name, update_destroys_message(i, weights[i])),
        None => {
            if weights.len() != n_covariates {
                CheckResult::fail(name, update_miscounts_message(weights.len(), n_covariates))
            } else {
                CheckResult::pass(name, weights_still_valid_message(n_covariates))
            }
        },
    }
}

/// The result on whether two updates agree.
fn check_repeat(a: &Vec<Binary64>, b: &Vec<Binary64>) -> (r: CheckResult)
    ensures
        r@ == (if a@ == b@ {
            passes("update_deterministic"@, updates_repeat_text())
        } else {
            fails("update_deterministic"@, updates_differ_text())
        }),
{
    if same_bits(a.as_slice(), b.as_slice()) {
        CheckResult::pass("update_deterministic", updates_repeat_message())
    } else {
        CheckResult::fail("update_deterministic", updates_differ_message())
    }
}

/// The results on what a model answered.
pub fn assess_inclusion(record: &InclusionRecord, n_covariates: usize) -> (r: Vec<CheckResult>)
    ensures
        verdicts(r@) == inclusion_verdicts(*record, n_covariates as int),
{
    let length = check_length(&record.start, n_covariates);
    let valid = check_valid(&record.start);
    match (&record.first, &record.second) {
        (Some(a), Some(b)) => quadruple(
            length,
            valid,
            check_after(a, n_covariates),
            check_repeat(a, b),
        ),
        _ => triple(
            length,
            valid,
            CheckResult::fail("update_runs", update_failed_message(&user_error())),
        ),
    }
}

/// Check an inclusion model: its weights are valid and as many as there are
/// covariates, they stay so after an update, and two updates from the same start with
/// the same randomness agree bit for bit.
pub fn check_inclusion_model<U, R, M: InclusionModel<U, R>, F: Fn() -> M>(
    make_model: F,
    n_covariates: usize,
    usage: &U,
    seed_a: &mut R,
    seed_b: &mut R,
) -> (r: Vec<CheckResult>)
    requires
        call_requires(make_model, ()),
    ensures
        exists|record: InclusionRecord, rng_a: &mut R, rng_b: &mut R|
            *rng_a == *old(seed_a) && *final(rng_a) == *final(seed_a) && *rng_b == *old(seed_b)
                && *final(rng_b) == *final(seed_b) && call_ensures(
                fresh_weights::<U, R, M, F>,
                (&make_model,),
                record.start,
            ) && #[trigger] call_ensures(
                updated_weights::<U, R, M, F>,
                (&make_model, usage, rng_a),
                record.first,
            ) && #[trigger] call_ensures(
                updated_weights::<U, R, M, F>,
                (&make_model, usage, rng_b),
                record.second,
            ) && verdicts(r@) == inclusion_verdicts(record, n_covariates as int),
{
    let start = fresh_weights::<U, R, M, F>(&make_model);
    let first = updated_weights::<U, R, M, F>(&make_model, usage, seed_a);
    let second = updated_weights::<U, R, M, F>(&make_model, usage, seed_b);
    let record = InclusionRecord { start, first, second };
    assess_inclusion(&record, n_covariates)
}

/// An inclusion model passes exactly where its weights are one for each covariate, finite
/// and above zero, before the update and after it, both updates run, and the two give the
/// same weights to the last bit.
pub proof fn inclusion_passes_exactly_when_weights_stay_valid(
    record: &InclusionRecord,
    n_covariates: usize,
    r: Vec<CheckResult>,
)
    requires
        call_ensures(assess_inclusion, (record, n_covariates), r),
    ensures
        (forall|i: int| 0 <= i < r@.len() ==> (#[trigger] r@[i]).passed) <==> {
            &&& record.start@.len() == n_covariates
            &&& forall|i: int|
                0 <= i < record.start@.len() ==> (#[trigger] record.start@[i]).finite()
                    && zero().below(record.start@[i])
            &&& record.first is Some && record.second is Some
            &&& record.first->0@.len() == n_covariates
            &&& forall|i: int|
                0 <= i < record.first->0@.len() ==> (#[trigger] record.first->0@[i]).finite()
                    && zero().below(record.first->0@[i])
            &&& record.first->0@ == record.second->0@
        },
        r@.len() == (if record.first is Some && record.second is Some {
            4nat
        } else {
            3
        }),
{
    let list = inclusion_verdicts(*record, n_covariates as int);
    lemma_results_pass(r@);
    lemma_not_positive(record.start@);
    assert(list[0] == length_verdict(record.start@, n_covariates as int));
    assert(list[1] == valid_verdict(record.start@));
    if record.first is Some && record.second is Some {
        lemma_not_positive(record.first->0@);
        assert(list[2] == after_verdict(record.first->0@, n_covariates as int));
        assert(list[3].passed <==> record.first->0@ == record.second->0@);
        if all_pass(list) {
            assert(list[0].passed && list[1].passed && list[2].passed && list[3].passed);
        }
    } else {
        assert(!list[2].passed);
    }
}

/// Weights after an update are those of the very model that was updated; where the update
/// fails there are none.
pub proof fn weights_are_read_after_the_update<U, R, M: InclusionModel<U, R>, F: Fn() -> M>(
    make_model: &F,
    usage: &U,
    rng: &mut R,
    r: Option<Vec<Binary64>>,
)
    requires
        call_ensures(updated_weights::<U, R, M, F>, (make_model, usage, rng), r),
    ensures
        exists|model: &mut M, source: &mut R, outcome: core::result::Result<(), M::Error>|
            {
                &&& #[trigger] call_ensures(M::update, (model, usage, source), outcome)
                &&& call_ensures(*make_model, (), *model)
                &&& *source == *old(rng) && *final(source) == *final(rng)
                &&& r is Some <==> outcome is Ok
                &&& r is Some ==> exists|weights: &[Binary64]|
                    (r->0)@ == weights@ && #[trigger] call_ensures(
                        M::weights,
                        (&*final(model),),
                        weights,
                    )
            },
{
}

/// Checks that all pass rest on a fresh model with one strictly positive weight for each
/// covariate, and on two updates, one with each source, that leave equal such weights.
pub proof fn passing_model_repeats_valid_weights<U, R, M: InclusionModel<U, R>, F: Fn() -> M>(
    make_model: F,
    n_covariates: usize,
    usage: &U,
    seed_a: &mut R,
    seed_b: &mut R,
    r: Vec<CheckResult>,
)
    requires
        call_ensures(
            check_inclusion_model::<U, R, M, F>,
            (make_model, n_covariates, usage, seed_a, seed_b),
            r,
        ),
        forall|i: int| 0 <= i < r@.len() ==> (#[trigger] r@[i]).passed,
    ensures
        exists|weights: Vec<Binary64>|
            {
                &&& #[trigger] call_ensures(fresh_weights::<U, R, M, F>, (&make_model,), weights)
                &&& weights@.len() == n_covariates
                &&& forall|i: int|
                    0 <= i < n_covariates ==> (#[trigger] weights@[i]).finite() && zero().below(
                        weights@[i],
                    )
            },
        exists|
            rng_a: &mut R,
            a: Vec<Binary64>,
            rng_b: &mut R,
            b: Vec<Binary64>,
        |
            {
                &&& #[trigger] call_ensures(
                    updated_weights::<U, R, M, F>,
                    (&make_model, usage, rng_a),
                    Some(a),
                )
                &&& #[trigger] call_ensures(
                    updated_weights::<U, R, M, F>,
                    (&make_model, usage, rng_b),
                    Some(b),
                )
                &&& *rng_a == *old(seed_a) && *final(rng_a) == *final(seed_a)
                &&& *rng_b == *old(seed_b) && *final(rng_b) == *final(seed_b)
                &&& a@ == b@
                &&& a@.len() == n_covariates
                &&& forall|i: int|
                    0 <= i < n_covariates ==> (#[trigger] a@[i]).finite() && zero().below(a@[i])
            },
{
    let (record, rng_a, rng_b) = choose|record: InclusionRecord, rng_a: &mut R, rng_b: &mut R|
        *rng_a == *old(seed_a) && *final(rng_a) == *final(seed_a) && *rng_b == *old(seed_b)
            && *final(rng_b) == *final(seed_b) && call_ensures(
            fresh_weights::<U, R, M, F>,
            (&make_model,),
            record.start,
        ) && #[trigger] call_ensures(
            updated_weights::<U, R, M, F>,
            (&make_model, usage, rng_a),
            record.first,
        ) && #[trigger] call_ensures(
            updated_weights::<U, R, M, F>,
            (&make_model, usage, rng_b),
            record.second,
        ) && verdicts(r@) == inclusion_verdicts(record, n_covariates as int);
    let list = inclusion_verdicts(record, n_covariates as int);
    lemma_results_pass(r@);
    lemma_not_positive(record.start@);
    assert(list[0] == length_verdict(record.start@, n_covariates as int) && list[0].passed);
    assert(list[1] == valid_verdict(record.start@) && list[1].passed);
    if record.first is None || record.second is None {
        assert(!list[2].passed);
    }
    let (a, b) = (record.first->0, record.second->0);
    lemma_not_positive(a@);
    assert(list[2] == after_verdict(a@, n_covariates as int) && list[2].passed);
    assert(list[3].passed);
    assert(record.first == Some(a) && record.second == Some(b));
    assert(call_ensures(updated_weights::<U, R, M, F>, (&make_model, usage, rng_a), Some(a)));
    assert(call_ensures(updated_weights::<U, R, M, F>, (&make_model, usage, rng_b), Some(b)));
}

/// Each result on an inclusion model bears the name of what it was checked for, and passes
/// exactly on that.
pub proof fn inclusion_results_stand_for_themselves(
    record: &InclusionRecord,
    n_covariates: usize,
    r: Vec<CheckResult>,
)
    requires
        call_ensures(assess_inclusion, (record, n_covariates), r),
        record.first is Some && record.second is Some,
    ensures
        r@.len() == 4,
        r@[0].name@ == "weights_length"@ && r@[1].name@ == "weights_valid"@,
        r@[2].name@ == "weights_valid_after_update"@ && r@[3].name@ == "update_deterministic"@,
        r@[0].passed <==> record.start@.len() == n_covariates,
        r@[1].passed <==> forall|i: int|
            0 <= i < record.start@.len() ==> (#[trigger] record.start@[i]).finite()
                && zero().below(record.start@[i]),
        r@[2].passed <==> record.first->0@.len() == n_covariates && forall|i: int|
            0 <= i < record.first->0@.len() ==> (#[trigger] record.first->0@[i]).finite()
                && zero().below(record.first->0@[i]),
        r@[3].passed <==> record.first->0@ == record.second->0@,
{
    let list = inclusion_verdicts(*record, n_covariates as int);
    lemma_not_positive(record.start@);
    lemma_not_positive(record.first->0@);
    assert(verdicts(r@).len() == r@.len());
    assert(list[0] == r@[0]@ && list[1] == r@[1]@ && list[2] == r@[2]@ && list[3] == r@[3]@);
}

} // verus!
