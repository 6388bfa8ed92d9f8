//! Checks of membership kernels: finite weights with mass that repeat, that fall with
//! the key and that follow it.

use crate::binary64::{from_bits, zero, Binary64};
use crate::conformance::texts::{
    distant_collapse_message, distant_collapse_text, distant_mass_message, distant_mass_text,
    equivariance_lost_message, equivariance_lost_text, membership_weight_bad_message,
    membership_weight_bad_text, membership_weights_good_message, membership_weights_good_text,
    row_has_mass_message, row_has_mass_text, row_without_mass_message, row_without_mass_text,
    weight_digest_message, weight_digest_text, weights_differ_message, weights_differ_text,
    weights_equivariant_message, weights_equivariant_text, weights_inverted_message,
    weights_inverted_text, weights_monotone_message, weights_monotone_text,
    weights_positional_message, weights_positional_text, weights_repeat_message,
    weights_repeat_text,
};
use crate::conformance::{
    all_pass, bit_digest, digest_of, extend, fails, fresh_buffer, holds, lemma_both_pass,
    lemma_results_pass, pair, passes, quadruple, same_bits, triple, unwritten, verdicts,
    CheckResult, Verdict,
};
use crate::extensions::MembershipKernel;
use crate::order::{is_stable_order, stable_order};
use crate::search::{first, lemma_first_holds, lemma_first_is, lemma_first_none};
use vstd::prelude::*;

verus! {

/// The weights of a row of keys, written into a buffer that nothing has been written
/// to.
pub fn weigh<K: MembershipKernel>(kernel: &K, keys: &[Binary64]) -> (r: Vec<Binary64>)
    ensures
        r@.len() == keys@.len(),
        exists|out: &mut [Binary64]|
            holds((*out)@, unwritten(keys@.len())) && holds((*final(out))@, r@)
                && #[trigger] call_ensures(K::weights, (kernel, keys, out), ()),
{
    let mut buffer = fresh_buffer(keys.len());
    let out = buffer.as_mut_slice();
    kernel.weights(keys, out);
    buffer
}

/// The numbers are what the kernel writes for a row of keys.
pub open spec fn weighs<K: MembershipKernel>(
    kernel: &K,
    keys: Seq<Binary64>,
    weights: Seq<Binary64>,
) -> bool {
    exists|a: &[Binary64], r: Vec<Binary64>|
        a@ == keys && r@ == weights && #[trigger] call_ensures(weigh::<K>, (kernel, a), r)
}

/// What a kernel wrote for a row of keys.
#[derive(Debug)]
pub struct MembershipRecord {
    /// The weights of the row.
    pub weights: Vec<Binary64>,
    /// The weights of the row, asked again.
    pub again: Vec<Binary64>,
    /// The weights of the row moved away from every centre.
    pub distant: Vec<Binary64>,
    /// The weights of the reversed row, where there are two cells or more.
    pub reversed: Vec<Binary64>,
}

impl MembershipRecord {
    /// One weight per cell, each time.
    pub open spec fn covers(self, k: nat) -> bool {
        &&& self.weights@.len() == k
        &&& self.again@.len() == k
        &&& self.distant@.len() == k
        &&& k >= 2 ==> self.reversed@.len() == k
    }
}

/// The record holds what the kernel writes.
pub open spec fn answered<K: MembershipKernel>(
    kernel: &K,
    keys: Seq<Binary64>,
    distant: Seq<Binary64>,
    r: MembershipRecord,
) -> bool {
    &&& weighs(kernel, keys, r.weights@)
    &&& weighs(kernel, keys, r.again@)
    &&& weighs(kernel, distant, r.distant@)
    &&& keys.len() >= 2 ==> weighs(kernel, keys.reverse(), r.reversed@)
}

/// Ask a kernel for the weights of a row, twice, of the row moved away from every
/// centre, and of the reversed row where there are two cells or more.
pub fn observe_membership<K: MembershipKernel>(
    kernel: &K,
    keys: &Vec<Binary64>,
    distant_keys: &Vec<Binary64>,
) -> (r: MembershipRecord)
    requires
        distant_keys@.len() == keys@.len(),
    ensures
        r.covers(keys@.len()),
        answered(kernel, keys@, distant_keys@, r),
{
    let weights = weigh(kernel, keys.as_slice());
    let again = weigh(kernel, keys.as_slice());
    let distant = weigh(kernel, distant_keys.as_slice());
    let reversed = if keys.len() >= 2 {
        let backwards = reversed_copy(keys);
        weigh(kernel, backwards.as_slice())
    } else {
        Vec::new()
    };
    MembershipRecord { weights, again, distant, reversed }
}

/// The numbers in reverse.
fn reversed_copy(values: &Vec<Binary64>) -> (r: Vec<Binary64>)
    ensures
        r@ == values@.reverse(),
{
    let n: usize = values.len();
    let mut r: Vec<Binary64> = Vec::new();
    for i in 0..n
        invariant
            n == values@.len(),
            r@.len() == i,
            forall|j: int| 0 <= j < i ==> r@[j] == values@[n - 1 - j],
    {
        r.push(values[n - 1 - i]);
    }
    assert(r@ =~= values@.reverse());
    r
}

/// The numbers that the verdicts rest on.
#[derive(Debug)]
pub struct MembershipNumbers {
    /// The sum of the weights.
    pub mass: Binary64,
    /// The sum of the weights of the distant row.
    pub distant_mass: Binary64,
    /// The sum of the weights of the reversed row.
    pub reversed_mass: Binary64,
    /// The weights, divided by their sum.
    pub base: Vec<Binary64>,
    /// The weights of the reversed row, divided by their sum.
    pub reversed: Vec<Binary64>,
    /// The absolute difference of each normalised reversed weight and the normalised
    /// weight of the same cell.
    pub gaps: Vec<Binary64>,
}

impl MembershipNumbers {
    /// Do both rows carry mass that can be divided by?
    pub open spec fn comparable(self) -> bool {
        self.mass.positive_finite() && self.reversed_mass.positive_finite()
    }

    /// One number per cell, where the rows can be compared.
    pub open spec fn covers(self, k: nat) -> bool {
        k >= 2 && self.comparable() ==> {
            &&& self.base@.len() == k
            &&& self.reversed@.len() == k
            &&& self.gaps@.len() == k
        }
    }
}

/// The largest difference that rounding explains: the binary64 number nearest to
/// 1e-9.
#[verifier::allow_in_spec]
pub fn equivariance_tolerance() -> Binary64
    returns
        from_bits(0x3e11_2e0b_e826_d695),
{
    from_bits(0x3e11_2e0b_e826_d695)
}

/// The verdict on the weights themselves.
pub open spec fn weights_verdict(weights: Seq<Binary64>) -> Verdict {
    match first(weights.len(), |i: int| !weights[i].non_negative_finite()) {
        Some(i) => fails("weights_finite_nonneg"@, membership_weight_bad_text(i, weights[i])),
        None => passes(
            "weights_finite_nonneg"@,
            membership_weights_good_text(weights.len() as int),
        ),
    }
}

/// The verdict on the mass of the row.
pub open spec fn mass_verdict(mass: Binary64) -> Verdict {
    if zero().below(mass) {
        passes("row_has_mass"@, row_has_mass_text(mass))
    } else {
        fails("row_has_mass"@, row_without_mass_text())
    }
}

/// The verdict on the mass of the distant row.
pub open spec fn distant_verdict(mass: Binary64) -> Verdict {
    if mass.positive_finite() {
        passes("distant_row_keeps_mass"@, distant_mass_text(mass))
    } else {
        fails("distant_row_keeps_mass"@, distant_collapse_text(mass))
    }
}

/// The first cell is nearer than the second one and receives less weight.
pub open spec fn inverted(
    keys: Seq<Binary64>,
    weights: Seq<Binary64>,
    near: int,
    far: int,
) -> bool {
    keys[near].below(keys[far]) && weights[near].below(weights[far])
}

/// The first place in the order of a cell that is further than the one at place `i` and
/// receives more weight.
pub open spec fn outweighed_by(
    keys: Seq<Binary64>,
    weights: Seq<Binary64>,
    order: Seq<usize>,
    i: int,
) -> Option<int> {
    first(order.len(), |j: int| inverted(keys, weights, order[i] as int, order[j] as int))
}

/// The verdict on monotonicity, given the stable ascending order of the keys: of the
/// pairs that are the wrong way round, the first one in that order is named.
pub open spec fn monotone_verdict(
    keys: Seq<Binary64>,
    weights: Seq<Binary64>,
    order: Seq<usize>,
) -> Verdict {
    match first(order.len(), |i: int| outweighed_by(keys, weights, order, i) is Some) {
        Some(i) => {
            let near = order[i] as int;
            let far = order[outweighed_by(keys, weights, order, i)->0] as int;
            fails(
                "weights_weakly_monotone"@,
                weights_inverted_text(near, far, keys[near], keys[far], weights[near], weights[far]),
            )
        },
        None => passes("weights_weakly_monotone"@, weights_monotone_text()),
    }
}

/// A kernel passes on monotonicity exactly when no cell receives less weight than one
/// that is further away.
pub proof fn monotone_exactly_when_no_pair_is_inverted(
    keys: Seq<Binary64>,
    weights: Seq<Binary64>,
    order: Seq<usize>,
)
    requires
        keys.len() <= usize::MAX,
        is_stable_order(keys, order),
    ensures
        monotone_verdict(keys, weights, order).passed <==> !exists|i: int, j: int|
            0 <= i < keys.len() && 0 <= j < keys.len() && #[trigger] inverted(keys, weights, i, j),
{
    let n = order.len();
    let bad = |i: int| outweighed_by(keys, weights, order, i) is Some;
    lemma_first_holds(n, bad);
    assert(monotone_verdict(keys, weights, order).passed == (first(n, bad) is None));
    if first(n, bad) is Some {
        let i = first(n, bad)->0;
        let row = |j: int| inverted(keys, weights, order[i] as int, order[j] as int);
        lemma_first_holds(n, row);
        assert(outweighed_by(keys, weights, order, i) == first(n, row));
        let j = first(n, row)->0;
        assert(row(j));
        assert(inverted(keys, weights, order[i] as int, order[j] as int));
    } else {
        assert forall|a: int, b: int|
            0 <= a < keys.len() && 0 <= b < keys.len() implies !#[trigger] inverted(
            keys,
            weights,
            a,
            b,
        ) by {
            assert(order.contains(a as usize) && order.contains(b as usize));
            let i = choose|i: int| 0 <= i < order.len() && order[i] == a as usize;
            let j = choose|j: int| 0 <= j < order.len() && order[j] == b as usize;
            let row = |j: int| inverted(keys, weights, order[i] as int, order[j] as int);
            lemma_first_holds(n, row);
            assert(outweighed_by(keys, weights, order, i) == first(n, row));
            assert(!bad(i));
            assert(!row(j));
        }
    }
}

/// The verdict on equivariance.
pub open spec fn equivariance_verdict(numbers: MembershipNumbers, k: int) -> Verdict {
    let name = "weights_permutation_equivariant"@;
    if !numbers.comparable() {
        fails(name, equivariance_lost_text())
    } else {
        match first(
            k as nat,
            |i: int| equivariance_tolerance().below(numbers.gaps@[i]),
        ) {
            Some(i) => fails(
                name,
                weights_positional_text(i, numbers.base@[k - 1 - i], numbers.reversed@[i]),
            ),
            None => passes(name, weights_equivariant_text(k)),
        }
    }
}

/// The verdicts on the weights and the mass of what a kernel wrote.
pub open spec fn weight_verdicts(r: MembershipRecord, numbers: MembershipNumbers) -> Seq<Verdict> {
    seq![
        weights_verdict(r.weights@),
        mass_verdict(numbers.mass),
        if r.weights@ == r.again@ {
            passes("weights_deterministic"@, weights_repeat_text())
        } else {
            fails("weights_deterministic"@, weights_differ_text())
        },
        distant_verdict(numbers.distant_mass),
    ]
}

/// The verdicts on how the weights follow the keys, and the digest; equivariance is
/// asked of two cells or more.
pub open spec fn shape_verdicts(
    keys: Seq<Binary64>,
    weights: Seq<Binary64>,
    numbers: MembershipNumbers,
    order: Seq<usize>,
) -> Seq<Verdict> {
    let k = keys.len() as int;
    let digest = passes("weight_digest"@, weight_digest_text(k, digest_of(weights)));
    if k >= 2 {
        seq![
            monotone_verdict(keys, weights, order),
            equivariance_verdict(numbers, k),
            digest,
        ]
    } else {
        seq![monotone_verdict(keys, weights, order), digest]
    }
}

/// The verdicts on what a kernel wrote.
pub open spec fn membership_verdicts(
    keys: Seq<Binary64>,
    r: MembershipRecord,
    numbers: MembershipNumbers,
    order: Seq<usize>,
) -> Seq<Verdict> {
    weight_verdicts(r, numbers) + shape_verdicts(keys, r.weights@, numbers, order)
}

/// The result on the weights themselves.
fn check_weights(weights: &Vec<Binary64>) -> (r: CheckResult)
    ensures
        r@ == weights_verdict(weights@),
{
    let ghost bad = |i: int| !weights@[i].non_negative_finite();
    for i in 0..weights.len()
        invariant
            bad == (|i: int| !weights@[i].non_negative_finite()),
            forall|j: int| 0 <= j < i ==> !#[trigger] bad(j),
    {
        if !weights[i].is_non_negative_finite() {
            proof {
                assert(bad(i as int));
                lemma_first_is(weights@.len(), bad, i as int);
            }
            return CheckResult::fail(
                "weights_finite_nonneg",
                membership_weight_bad_message(i, weights[i]),
            );
        }
        assert(!bad(i as int));
    }
    proof {
        lemma_first_none(weights@.len(), bad);
    }
    CheckResult::pass("weights_finite_nonneg", membership_weights_good_message(weights.len()))
}

/// The result on the mass of the row.
fn check_mass(mass: Binary64) -> (r: CheckResult)
    ensures
        r@ == mass_verdict(mass),
{
    if zero().is_below(mass) {
        CheckResult::pass("row_has_mass", row_has_mass_message(mass))
    } else {
        CheckResult::fail("row_has_mass", row_without_mass_message())
    }
}

/// The result on purity.
fn check_repeat(r: &MembershipRecord) -> (c: CheckResult)
    ensures
        c@ == (if r.weights@ == r.again@ {
            passes("weights_deterministic"@, weights_repeat_text())
        } else {
            fails("weights_deterministic"@, weights_differ_text())
        }),
{
    if same_bits(r.weights.as_slice(), r.again.as_slice()) {
        CheckResult::pass("weights_deterministic", weights_repeat_message())
    } else {
        CheckResult::fail("weights_deterministic", weights_differ_message())
    }
}

/// The result on the mass of the distant row.
fn check_distant(mass: Binary64) -> (r: CheckResult)
    ensures
        r@ == distant_verdict(mass),
{
    if mass.is_positive_finite() {
        CheckResult::pass("distant_row_keeps_mass", distant_mass_message(mass))
    } else {
        CheckResult::fail("distant_row_keeps_mass", distant_collapse_message(mass))
    }
}

/// The first place in the order of a cell that outweighs the nearer one at place `i`.
fn find_outweighing(
    keys: &Vec<Binary64>,
    weights: &Vec<Binary64>,
    order: &Vec<usize>,
    i: usize,
) -> (r: Option<usize>)
    requires
        i < order@.len(),
        weights@.len() == keys@.len(),
        is_stable_order(keys@, order@),
    ensures
        match r {
            Some(j) => j < order@.len() && outweighed_by(keys@, weights@, order@, i as int) == Some(
                j as int,
            ),
            None => outweighed_by(keys@, weights@, order@, i as int) is None,
        },
{
    let near: usize = order[i];
    let ghost row = |j: int| inverted(keys@, weights@, order@[i as int] as int, order@[j] as int);
    assert(outweighed_by(keys@, weights@, order@, i as int) == first(order@.len(), row));
    for j in 0..order.len()
        invariant
            i < order@.len(),
            near == order@[i as int],
            weights@.len() == keys@.len(),
            is_stable_order(keys@, order@),
            row == (|j: int|
                inverted(keys@, weights@, order@[i as int] as int, order@[j] as int)),
            outweighed_by(keys@, weights@, order@, i as int) == first(order@.len(), row),
            forall|k: int| 0 <= k < j ==> !#[trigger] row(k),
    {
        let far: usize = order[j];
        assert(order@[i as int] < keys@.len() && order@[j as int] < keys@.len());
        if keys[near].is_below(keys[far]) && weights[near].is_below(weights[far]) {
            proof {
                assert(row(j as int));
                lemma_first_is(order@.len(), row, j as int);
            }
            return Some(j);
        }
        assert(!row(j as int));
    }
    proof {
        lemma_first_none(order@.len(), row);
    }
    None
}

/// The result on monotonicity.
fn check_monotone(keys: &Vec<Binary64>, weights: &Vec<Binary64>, order: &Vec<usize>) -> (r:
    CheckResult)
    requires
        weights@.len() == keys@.len(),
        is_stable_order(keys@, order@),
    ensures
        r@ == monotone_verdict(keys@, weights@, order@),
{
    let ghost bad = |i: int| outweighed_by(keys@, weights@, order@, i) is Some;
    for i in 0..order.len()
        invariant
            weights@.len() == keys@.len(),
            is_stable_order(keys@, order@),
            bad == (|i: int| outweighed_by(keys@, weights@, order@, i) is Some),
            forall|j: int| 0 <= j < i ==> !#[trigger] bad(j),
    {
        if let Some(j) = find_outweighing(keys, weights, order, i) {
            let near: usize = order[i];
            let far: usize = order[j];
            proof {
                assert(bad(i as int));
                lemma_first_is(order@.len(), bad, i as int);
                assert(order@[i as int] < keys@.len() && order@[j as int] < keys@.len());
            }
            return CheckResult::fail(
                "weights_weakly_monotone",
                weights_inverted_message(
                    near,
                    far,
                    keys[near],
                    keys[far],
                    weights[near],
                    weights[far],
                ),
            );
        }
        assert(!bad(i as int));
    }
    proof {
        lemma_first_none(order@.len(), bad);
    }
    CheckResult::pass("weights_weakly_monotone", weights_monotone_message())
}

/// The result on equivariance.
fn check_equivariance(numbers: &MembershipNumbers, k: usize) -> (r: CheckResult)
    requires
        k >= 2,
        numbers.covers(k as nat),
    ensures
        r@ == equivariance_verdict(*numbers, k as int),
{
    let name = "weights_permutation_equivariant";
    if !numbers.mass.is_positive_finite() || !numbers.reversed_mass.is_positive_finite() {
        return CheckResult::fail(name, equivariance_lost_message());
    }
    let ghost bad = |i: int| equivariance_tolerance().below(numbers.gaps@[i]);
    for i in 0..k
        invariant
            name@ == "weights_permutation_equivariant"@,
            k >= 2,
            numbers.comparable(),
            numbers.covers(k as nat),
            bad == (|i: int| equivariance_tolerance().below(numbers.gaps@[i])),
            forall|j: int| 0 <= j < i ==> !#[trigger] bad(j),
    {
        if equivariance_tolerance().is_below(numbers.gaps[i]) {
            proof {
                assert(bad(i as int));
                lemma_first_is(k as nat, bad, i as int);
            }
            return CheckResult::fail(
                name,
                weights_positional_message(i, numbers.base[k - 1 - i], numbers.reversed[i]),
            );
        }
        assert(!bad(i as int));
    }
    proof {
        lemma_first_none(k as nat, bad);
    }
    CheckResult::pass(name, weights_equivariant_message(k))
}

/// The results on the weights and the mass.
fn check_row(r: &MembershipRecord, numbers: &MembershipNumbers) -> (results: Vec<CheckResult>)
    ensures
        verdicts(results@) == weight_verdicts(*r, *numbers),
{
    quadruple(
        check_weights(&r.weights),
        check_mass(numbers.mass),
        check_repeat(r),
        check_distant(numbers.distant_mass),
    )
}

/// The results on how the weights follow the keys, and the digest.
fn check_shape(
    keys: &Vec<Binary64>,
    weights: &Vec<Binary64>,
    numbers: &MembershipNumbers,
    order: &Vec<usize>,
) -> (results: Vec<CheckResult>)
    requires
        weights@.len() == keys@.len(),
        numbers.covers(keys@.len()),
        is_stable_order(keys@, order@),
    ensures
        verdicts(results@) == shape_verdicts(keys@, weights@, *numbers, order@),
{
    let k: usize = keys.len();
    let monotone = check_monotone(keys, weights, order);
    let digest = CheckResult::pass(
        "weight_digest",
        weight_digest_message(k, bit_digest(weights.as_slice())),
    );
    if k >= 2 {
        triple(monotone, check_equivariance(numbers, k), digest)
    } else {
        pair(monotone, digest)
    }
}

/// Check what a membership kernel wrote for a row of keys: the weights are finite and
/// not negative, the row carries mass, the weights repeat, a distant row keeps its
/// mass, a nearer cell never receives less weight, and every weight follows its key
/// when the cells are relabelled. Weights may shrink with absolute distance. The
/// digest of the weights is reported for comparison across platforms.
pub fn check_membership_kernel(
    keys: &Vec<Binary64>,
    r: &MembershipRecord,
    numbers: &MembershipNumbers,
) -> (results: Vec<CheckResult>)
    requires
        r.covers(keys@.len()),
        numbers.covers(keys@.len()),
    ensures
        exists|order: Seq<usize>|
            #[trigger] is_stable_order(keys@, order) && verdicts(results@)
                == membership_verdicts(keys@, *r, *numbers, order),
        verdicts(results@)[4].passed <==> !exists|i: int, j: int|
            0 <= i < keys@.len() && 0 <= j < keys@.len() && #[trigger] inverted(
                keys@,
                r.weights@,
                i,
                j,
            ),
{
    let order = stable_order(keys.as_slice());
    let mut results = check_row(r, numbers);
    extend(&mut results, check_shape(keys, &r.weights, numbers, &order));
    proof {
        assert(is_stable_order(keys@, order@));
        assert(keys@.len() == keys.len());
        monotone_exactly_when_no_pair_is_inverted(keys@, r.weights@, order@);
        assert(verdicts(results@)[4] == monotone_verdict(keys@, r.weights@, order@));
    }
    results
}

/// A kernel passes exactly where its weights are finite and not below zero, the row has
/// mass, the weights come out the same twice, a distant row keeps a finite mass above
/// zero, no nearer cell weighs less than a farther one, and, with two or more cells, the
/// weights follow the cells when these are reversed.
pub proof fn kernel_passes_exactly_when_sound(
    keys: &Vec<Binary64>,
    record: &MembershipRecord,
    numbers: &MembershipNumbers,
    r: Vec<CheckResult>,
)
    requires
        keys@.len() <= usize::MAX,
        call_ensures(check_membership_kernel, (keys, record, numbers), r),
    ensures
        (forall|i: int| 0 <= i < r@.len() ==> (#[trigger] r@[i]).passed) <==> {
            let w = record.weights@;
            &&& forall|i: int|
                0 <= i < w.len() ==> (#[trigger] w[i]).finite() && zero().at_most(w[i])
            &&& zero().below(numbers.mass)
            &&& w == record.again@
            &&& numbers.distant_mass.finite() && zero().below(numbers.distant_mass)
            &&& forall|i: int, j: int|
                #![trigger w[i], w[j]]
                0 <= i < keys@.len() && 0 <= j < keys@.len() && keys@[i].below(keys@[j])
                    ==> !w[i].below(w[j])
            &&& keys@.len() >= 2 ==> {
                &&& numbers.mass.finite() && zero().below(numbers.mass)
                &&& numbers.reversed_mass.finite() && zero().below(numbers.reversed_mass)
                &&& forall|i: int|
                    0 <= i < keys@.len() ==> !equivariance_tolerance().below(
                        #[trigger] numbers.gaps@[i],
                    )
            }
        },
        r@.len() == (if keys@.len() >= 2 {
            7nat
        } else {
            6
        }),
{
    let w = record.weights@;
    lemma_results_pass(r@);
    let order = choose|order: Seq<usize>|
        #[trigger] is_stable_order(keys@, order) && verdicts(r@) == membership_verdicts(
            keys@,
            *record,
            *numbers,
            order,
        );
    let list = verdicts(r@);
    let (a, b) = (
        weight_verdicts(*record, *numbers),
        shape_verdicts(keys@, w, *numbers, order),
    );
    lemma_both_pass(a, b);
    lemma_weights_verdict(w);
    monotone_exactly_when_no_pair_is_inverted(keys@, w, order);
    assert(a[0] == weights_verdict(w));
    assert(a[1] == mass_verdict(numbers.mass));
    assert(a[2].passed == (w == record.again@));
    assert(a[3] == distant_verdict(numbers.distant_mass));
    assert(b[0] == monotone_verdict(keys@, w, order));
    if all_pass(a) {
        assert(a[0].passed && a[1].passed && a[2].passed && a[3].passed);
    }
    if b[0].passed {
        assert forall|i: int, j: int|
            #![trigger w[i], w[j]]
            0 <= i < keys@.len() && 0 <= j < keys@.len() && keys@[i].below(
                keys@[j],
            ) implies !w[i].below(w[j]) by {
            assert(!inverted(keys@, w, i, j));
        }
    } else {
        let (i, j) = choose|i: int, j: int|
            0 <= i < keys@.len() && 0 <= j < keys@.len() && #[trigger] inverted(keys@, w, i, j);
        assert(w[i].below(w[j]));
    }
    if keys@.len() >= 2 {
        let k = keys@.len() as int;
        let wide = |i: int| equivariance_tolerance().below(numbers.gaps@[i]);
        lemma_first_holds(k as nat, wide);
        assert(b[1] == equivariance_verdict(*numbers, k));
        assert(b[2].passed);
        if first(k as nat, wide) is Some {
            let i = first(k as nat, wide)->0;
            assert(wide(i));
            assert(equivariance_tolerance().below(numbers.gaps@[i]));
        } else {
            assert forall|i: int| 0 <= i < keys@.len() implies !equivariance_tolerance().below(
                #[trigger] numbers.gaps@[i],
            ) by {
                assert(!wide(i));
            }
        }
        if all_pass(b) {
            assert(b[0].passed && b[1].passed);
        }
    } else {
        assert(b[1].passed);
        if all_pass(b) {
            assert(b[0].passed);
        }
    }
}

/// The verdict on the weights of a row.
proof fn lemma_weights_verdict(w: Seq<Binary64>)
    ensures
        weights_verdict(w).passed <==> forall|i: int|
            0 <= i < w.len() ==> (#[trigger] w[i]).finite() && zero().at_most(w[i]),
{
    let bad = |i: int| !w[i].non_negative_finite();
    lemma_first_holds(w.len(), bad);
    if first(w.len(), bad) is Some {
        let i = first(w.len(), bad)->0;
        assert(bad(i));
        assert(!(w[i].finite() && zero().at_most(w[i])));
    } else {
        assert forall|i: int| 0 <= i < w.len() implies (#[trigger] w[i]).finite() && zero().at_most(
            w[i],
        ) by {
            assert(!bad(i));
        }
    }
}

/// A kernel is asked for the same keys twice, for the distant keys once, and, with two or
/// more cells, once for the keys in reverse.
pub proof fn kernels_are_asked_for_the_given_keys<K: MembershipKernel>(
    kernel: &K,
    keys: &Vec<Binary64>,
    distant_keys: &Vec<Binary64>,
    r: MembershipRecord,
)
    requires
        call_ensures(observe_membership::<K>, (kernel, keys, distant_keys), r),
    ensures
        weighs(kernel, keys@, r.weights@),
        weighs(kernel, keys@, r.again@),
        weighs(kernel, distant_keys@, r.distant@),
        keys@.len() >= 2 ==> weighs(
            kernel,
            Seq::new(keys@.len(), |i: int| keys@[keys@.len() - 1 - i]),
            r.reversed@,
        ),
        r.weights@.len() == keys@.len() && r.again@.len() == keys@.len(),
{
    assert(keys@.reverse() =~= Seq::new(keys@.len(), |i: int| keys@[keys@.len() - 1 - i]));
}

/// A kernel is asked for its weights on a buffer of as many values as there are keys, none
/// of them a number before it writes; what it leaves there are the weights.
pub proof fn weights_are_what_the_kernel_wrote<K: MembershipKernel>(
    kernel: &K,
    keys: &[Binary64],
    r: Vec<Binary64>,
)
    requires
        call_ensures(weigh::<K>, (kernel, keys), r),
    ensures
        r@.len() == keys@.len(),
        exists|out: &mut [Binary64]|
            {
                &&& #[trigger] call_ensures(K::weights, (kernel, keys, out), ())
                &&& (*out)@.len() == keys@.len()
                &&& forall|i: int| 0 <= i < keys@.len() ==> (#[trigger] (*out)@[i]).nan()
                &&& (*final(out))@ == r@
            },
{
    let out = choose|out: &mut [Binary64]|
        holds((*out)@, unwritten(keys@.len())) && holds((*final(out))@, r@)
            && #[trigger] call_ensures(K::weights, (kernel, keys, out), ());
    assert(call_ensures(K::weights, (kernel, keys, out), ()));
}

/// The verdicts on a kernel stand in this order, under their names.
proof fn lemma_kernel_verdicts(
    keys: Seq<Binary64>,
    record: MembershipRecord,
    numbers: MembershipNumbers,
    order: Seq<usize>,
    results: Seq<CheckResult>,
)
    requires
        keys.len() >= 2,
        verdicts(results) == membership_verdicts(keys, record, numbers, order),
    ensures
        results.len() == 7,
        results[0]@ == weights_verdict(record.weights@),
        results[1]@ == mass_verdict(numbers.mass),
        results[2]@.name == "weights_deterministic"@,
        results[2].passed == (record.weights@ == record.again@),
        results[3]@ == distant_verdict(numbers.distant_mass),
        results[4]@ == monotone_verdict(keys, record.weights@, order),
        results[5]@ == equivariance_verdict(numbers, keys.len() as int),
        results[6]@.name == "weight_digest"@ && results[6].passed,
{
    let list = verdicts(results);
    let (a, b) = (
        weight_verdicts(record, numbers),
        shape_verdicts(keys, record.weights@, numbers, order),
    );
    assert(a.len() == 4 && b.len() == 3 && list == a + b);
    assert(list.len() == results.len());
    assert(list[0] == a[0] && list[1] == a[1] && list[2] == a[2] && list[3] == a[3]);
    assert(list[4] == b[0] && list[5] == b[1] && list[6] == b[2]);
    assert(list[0] == results[0]@ && list[1] == results[1]@ && list[2] == results[2]@);
    assert(list[3] == results[3]@ && list[4] == results[4]@ && list[5] == results[5]@);
    assert(list[6] == results[6]@);
}

/// Each result on a membership kernel bears the name of what it was checked for; those on
/// the weights and on the masses pass exactly on that.
pub proof fn kernel_results_stand_for_themselves(
    keys: &Vec<Binary64>,
    record: &MembershipRecord,
    numbers: &MembershipNumbers,
    r: Vec<CheckResult>,
)
    requires
        keys@.len() >= 2,
        call_ensures(check_membership_kernel, (keys, record, numbers), r),
    ensures
        r@.len() == 7,
        r@[0].name@ == "weights_finite_nonneg"@ && r@[1].name@ == "row_has_mass"@,
        r@[2].name@ == "weights_deterministic"@ && r@[3].name@ == "distant_row_keeps_mass"@,
        r@[4].name@ == "weights_weakly_monotone"@,
        r@[5].name@ == "weights_permutation_equivariant"@ && r@[6].name@ == "weight_digest"@,
        r@[0].passed <==> forall|i: int|
            0 <= i < record.weights@.len() ==> (#[trigger] record.weights@[i]).finite()
                && zero().at_most(record.weights@[i]),
        r@[1].passed <==> zero().below(numbers.mass),
        r@[2].passed <==> record.weights@ == record.again@,
        r@[3].passed <==> numbers.distant_mass.finite() && zero().below(numbers.distant_mass),
        r@[6].passed,
{
    let order = choose|order: Seq<usize>|
        #[trigger] is_stable_order(keys@, order) && verdicts(r@) == membership_verdicts(
            keys@,
            *record,
            *numbers,
            order,
        );
    lemma_kernel_verdicts(keys@, *record, *numbers, order, r@);
    lemma_weights_verdict(record.weights@);
}

} // verus!
