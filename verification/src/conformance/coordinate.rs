//! The check of coordinate distributions: draws against the density.

use crate::binary64::{from_bits, rank_orders_values, zero, Binary64};
use crate::conformance::texts::{
    density_not_integrable_message, density_not_integrable_text, law_match_message, law_match_text,
    law_mismatch_message, law_mismatch_text,
};
use crate::conformance::{
    fails, lemma_results_pass, only, passes, same, verdicts, CheckResult, Verdict,
};
use crate::extensions::CoordinateDistribution;
use crate::order::{ascending, sorted};
use vstd::prelude::*;

verus! {

/// The narrowest window that holds more than one value: the binary64 number nearest
/// to 1e-9.
#[verifier::allow_in_spec]
pub fn narrowest_window() -> Binary64
    returns
        from_bits(0x3e11_2e0b_e826_d695),
{
    from_bits(0x3e11_2e0b_e826_d695)
}

/// Draw one coordinate; the randomness that is left comes back.
pub fn sample_one<R, D: CoordinateDistribution<R>>(law: &D, rng: R) -> (r: (Binary64, R))
    ensures
        exists|m: &mut R, value: Binary64|
            same(*m, rng) && same(*final(m), r.1) && same(value, r.0) && #[trigger] call_ensures(
                D::sample,
                (law, m),
                value,
            ),
{
    let mut rng = rng;
    let value = law.sample(&mut rng);
    (value, rng)
}

/// The coordinates were drawn one after the other, each from the randomness that the
/// one before it left.
pub open spec fn is_sampling<R, D: CoordinateDistribution<R>>(
    law: &D,
    states: Seq<R>,
    drawn: Seq<Binary64>,
) -> bool {
    &&& states.len() == drawn.len() + 1
    &&& forall|i: int|
        #![trigger drawn[i]]
        0 <= i < drawn.len() ==> call_ensures(
            sample_one::<R, D>,
            (law, states[i]),
            (drawn[i], states[i + 1]),
        )
}

/// Draw `n` coordinates and sort them.
pub fn sorted_samples<R, D: CoordinateDistribution<R>>(law: &D, rng: R, n: usize) -> (r: (
    Vec<Binary64>,
    R,
))
    ensures
        ascending(r.0@),
        exists|states: Seq<R>, drawn: Seq<Binary64>|
            #[trigger] is_sampling(law, states, drawn) && states[0] == rng && states.last() == r.1
                && drawn.len() == n && r.0@.to_multiset() == drawn.to_multiset(),
{
    let ghost start = rng;
    let ghost mut states: Seq<R> = seq![rng];
    let mut current = rng;
    let mut drawn: Vec<Binary64> = Vec::new();
    for i in 0..n
        invariant
            start == rng,
            drawn@.len() == i,
            is_sampling(law, states, drawn@),
            states[0] == start,
            states.last() == current,
    {
        let ghost before = current;
        let ghost so_far = drawn@;
        let step = sample_one(law, current);
        assert(call_ensures(sample_one::<R, D>, (law, before), step));
        let (value, next) = step;
        current = next;
        drawn.push(value);
        proof {
            let longer = states.push(current);
            assert forall|k: int|
                #![trigger drawn@[k]]
                0 <= k < drawn@.len() implies call_ensures(
                sample_one::<R, D>,
                (law, longer[k]),
                (drawn@[k], longer[k + 1]),
            ) by {
                if k < i {
                    assert(drawn@[k] == so_far[k]);
                    assert(longer[k] == states[k] && longer[k + 1] == states[k + 1]);
                } else {
                    assert(longer[k] == before && longer[k + 1] == current);
                }
            }
            states = longer;
        }
    }
    let r = (sorted(drawn.as_slice()), current);
    assert(is_sampling(law, states, drawn@));
    r
}

/// The log-densities at the points, in their order.
pub fn log_densities<R, D: CoordinateDistribution<R>>(law: &D, points: &Vec<Binary64>) -> (r: Vec<
    Binary64,
>)
    ensures
        r@.len() == points@.len(),
        forall|i: int|
            #![trigger r@[i]]
            0 <= i < r@.len() ==> call_ensures(D::log_density, (law, points@[i]), r@[i]),
{
    let mut r: Vec<Binary64> = Vec::new();
    for i in 0..points.len()
        invariant
            r@.len() == i,
            forall|k: int|
                #![trigger r@[k]]
                0 <= k < i ==> call_ensures(D::log_density, (law, points@[k]), r@[k]),
    {
        let ghost so_far = r@;
        let value = law.log_density(points[i]);
        r.push(value);
        assert forall|k: int|
            #![trigger r@[k]]
            0 <= k < i + 1 implies call_ensures(D::log_density, (law, points@[k]), r@[k]) by {
            if k < i {
                assert(r@[k] == so_far[k]);
            }
        }
    }
    r
}

/// How many panels the density is integrated over.
pub const PANELS: usize = 4000;

/// Must a window of this width be padded, because all draws are the same? Any other
/// window is left as it is: it must hold no region that the draws cannot reach.
pub fn needs_padding(width: Binary64) -> (r: bool)
    ensures
        r == width.below(narrowest_window()),
{
    width.is_below(narrowest_window())
}

/// The larger of two numbers; a NaN gives way to a number.
pub open spec fn larger(a: Binary64, b: Binary64) -> Binary64 {
    if a.nan() || a.below(b) {
        b
    } else {
        a
    }
}

/// The largest of zero and the first `k` numbers.
pub open spec fn largest(values: Seq<Binary64>, k: nat) -> Binary64
    decreases k,
{
    if k == 0 {
        zero()
    } else {
        larger(largest(values, (k - 1) as nat), values[k - 1])
    }
}

/// The largest of zero and the numbers.
pub fn largest_of(values: &Vec<Binary64>) -> (r: Binary64)
    ensures
        r == largest(values@, values@.len()),
{
    let mut top = zero();
    for k in 0..values.len()
        invariant
            top == largest(values@, k as nat),
    {
        let value = values[k];
        if top.is_nan() || top.is_below(value) {
            top = value;
        }
    }
    top
}

/// The largest one is not below any of the numbers.
pub proof fn largest_bounds_every_value(values: Seq<Binary64>, k: nat, i: int)
    requires
        0 <= i < k <= values.len(),
    ensures
        !largest(values, k).nan(),
        !largest(values, k).below(values[i]),
    decreases k,
{
    lemma_largest_is_a_number(values, k);
    lemma_largest_is_a_number(values, (k - 1) as nat);
    if i < k - 1 {
        largest_bounds_every_value(values, (k - 1) as nat, i);
    }
}

/// The largest one is a number.
proof fn lemma_largest_is_a_number(values: Seq<Binary64>, k: nat)
    ensures
        !largest(values, k).nan(),
    decreases k,
{
    if k > 0 {
        lemma_largest_is_a_number(values, (k - 1) as nat);
    }
}

/// The verdict on a distribution, given the integral of its density over the window
/// of the draws, the distances of the empirical distribution on either side of every
/// draw, and the threshold.
pub open spec fn law_verdict(
    total: Binary64,
    gaps: Seq<Binary64>,
    threshold: Binary64,
    n_samples: int,
) -> Verdict {
    if !total.positive_finite() {
        fails("density_integrates"@, density_not_integrable_text(total))
    } else {
        let d_stat = largest(gaps, gaps.len());
        if threshold.below(d_stat) {
            fails("sample_matches_density"@, law_mismatch_text(d_stat, threshold))
        } else {
            passes("sample_matches_density"@, law_match_text(d_stat, threshold, n_samples))
        }
    }
}

/// Check a coordinate distribution: its draws must match its density. `total` is the
/// integral of the density over the window of the draws, `gaps` the distances of the
/// empirical distribution on either side of every draw.
pub fn check_coordinate_distribution(
    total: Binary64,
    gaps: &Vec<Binary64>,
    threshold: Binary64,
    n_samples: usize,
) -> (r: Vec<CheckResult>)
    ensures
        verdicts(r@) == seq![law_verdict(total, gaps@, threshold, n_samples as int)],
{
    if !total.is_positive_finite() {
        return only(
            CheckResult::fail("density_integrates", density_not_integrable_message(total)),
        );
    }
    let d_stat = largest_of(gaps);
    if threshold.is_below(d_stat) {
        only(
            CheckResult::fail("sample_matches_density", law_mismatch_message(d_stat, threshold)),
        )
    } else {
        only(
            CheckResult::pass(
                "sample_matches_density",
                law_match_message(d_stat, threshold, n_samples),
            ),
        )
    }
}

/// The largest of the gaps is no number below zero, lies below none of them, and is zero
/// or one of them.
pub proof fn largest_is_zero_or_one_of_the_gaps(values: &Vec<Binary64>, r: Binary64, i: int)
    requires
        call_ensures(largest_of, (values,), r),
        0 <= i < values@.len(),
    ensures
        zero().at_most(r),
        !r.below(values@[i]),
        r == zero() || values@.contains(r),
{
    largest_bounds_every_value(values@, values@.len(), i);
    lemma_largest_is_reached(values@, values@.len());
}

/// The largest value is zero or one of the values.
proof fn lemma_largest_is_reached(values: Seq<Binary64>, k: nat)
    requires
        k <= values.len(),
    ensures
        zero().at_most(largest(values, k)),
        largest(values, k) == zero() || values.contains(largest(values, k)),
    decreases k,
{
    if k > 0 {
        lemma_largest_is_reached(values, (k - 1) as nat);
        assert(values.contains(values[k - 1]));
    }
}

/// A law passes exactly where its density has a total that is finite and above zero and
/// no gap between the two distribution functions lies above the threshold.
pub proof fn law_passes_exactly_when_no_gap_is_too_wide(
    total: Binary64,
    gaps: &Vec<Binary64>,
    threshold: Binary64,
    n_samples: usize,
    r: Vec<CheckResult>,
)
    requires
        zero().at_most(threshold),
        call_ensures(check_coordinate_distribution, (total, gaps, threshold, n_samples), r),
    ensures
        r@.len() == 1,
        r@[0].passed <==> total.finite() && zero().below(total) && forall|i: int|
            0 <= i < gaps@.len() ==> !threshold.below(#[trigger] gaps@[i]),
{
    lemma_results_pass(r@);
    assert(verdicts(r@)[0].passed == r@[0].passed);
    let top = largest(gaps@, gaps@.len());
    lemma_largest_is_reached(gaps@, gaps@.len());
    if threshold.below(top) {
        let i = choose|i: int| 0 <= i < gaps@.len() && gaps@[i] == top;
        assert(threshold.below(gaps@[i]));
    } else {
        assert forall|i: int| 0 <= i < gaps@.len() implies !threshold.below(
            #[trigger] gaps@[i],
        ) by {
            largest_bounds_every_value(gaps@, gaps@.len(), i);
        }
    }
}

/// A window is padded exactly where it is narrower than 1e-9.
pub proof fn narrow_windows_are_padded(width: Binary64, r: bool)
    requires
        width.finite(),
        call_ensures(needs_padding, (width,), r),
    ensures
        r <==> width.value() < from_bits(0x3e11_2e0b_e826_d695).value(),
{
    rank_orders_values(width, from_bits(0x3e11_2e0b_e826_d695));
}

/// Sorted samples ascend, and are draws of the law, one after the other.
pub proof fn sorted_samples_are_draws<R, D: CoordinateDistribution<R>>(
    law: &D,
    rng: R,
    n: usize,
    r: (Vec<Binary64>, R),
    i: int,
    j: int,
)
    requires
        call_ensures(sorted_samples::<R, D>, (law, rng, n), r),
    ensures
        r.0@.len() == n,
        0 <= i < j < n ==> r.0@[i].total_rank() <= r.0@[j].total_rank(),
        0 <= i < n ==> exists|before: R, after: R| #[trigger]
            call_ensures(sample_one::<R, D>, (law, before), (r.0@[i], after)),
        n == 0 ==> r.1 == rng,
{
    let (states, drawn) = choose|states: Seq<R>, drawn: Seq<Binary64>|
        #[trigger] is_sampling(law, states, drawn) && states[0] == rng && states.last() == r.1
            && drawn.len() == n && r.0@.to_multiset() == drawn.to_multiset();
    broadcast use vstd::seq_lib::group_to_multiset_ensures;

    assert(r.0@.len() == r.0@.to_multiset().len());
    assert(drawn.len() == drawn.to_multiset().len());
    if 0 <= i < n {
        assert(r.0@.contains(r.0@[i]));
        assert(drawn.to_multiset().count(r.0@[i]) > 0);
        assert(drawn.contains(r.0@[i]));
        let k = drawn.index_of(r.0@[i]);
        assert(call_ensures(
            sample_one::<R, D>,
            (law, states[k]),
            (drawn[k], states[k + 1]),
        ));
    }
}

/// The log-densities are the law's own, one for each point and in their order.
pub proof fn densities_are_asked_point_by_point<R, D: CoordinateDistribution<R>>(
    law: &D,
    points: &Vec<Binary64>,
    r: Vec<Binary64>,
    i: int,
)
    requires
        call_ensures(log_densities::<R, D>, (law, points), r),
        0 <= i < points@.len(),
    ensures
        r@.len() == points@.len(),
        call_ensures(D::log_density, (law, points@[i]), r@[i]),
{
}

} // verus!
