//! The decisions of the statistical diagnostics: how chains are split and pooled, how
//! values are ranked, where empirical distributions are compared, where
//! autocorrelations are cut off.

use crate::binary64::{infinity, one, zero, Binary64};
use crate::order::{is_stable_order, stable_order};
use crate::value::Value;
use vstd::prelude::*;

verus! {

/// How many of the first `k` indices satisfy a condition.
pub open spec fn tally(p: spec_fn(int) -> bool, k: nat) -> nat
    decreases k,
{
    if k == 0 {
        0
    } else {
        tally(p, (k - 1) as nat) + if p(k - 1) {
            1nat
        } else {
            0nat
        }
    }
}

/// Two conditions that exclude each other are satisfied by no more indices than there
/// are.
proof fn lemma_tally_disjoint(p: spec_fn(int) -> bool, q: spec_fn(int) -> bool, k: nat)
    requires
        forall|i: int| 0 <= i < k ==> !(#[trigger] p(i) && q(i)),
    ensures
        tally(p, k) + tally(q, k) <= k,
    decreases k,
{
    if k > 0 {
        lemma_tally_disjoint(p, q, (k - 1) as nat);
        assert(!(p(k - 1) && q(k - 1)));
    }
}

/// Both halves of every chain, one after the other; the last draw of a chain of odd
/// length is dropped.
pub fn split_chains(chains: &Vec<Vec<Binary64>>) -> (r: Vec<Vec<Binary64>>)
    requires
        2 <= chains@.len(),
        2 * chains@.len() <= usize::MAX,
        chains@[0]@.len() >= 4,
        forall|c: int|
            0 <= c < chains@.len() ==> (#[trigger] chains@[c])@.len() == chains@[0]@.len(),
    ensures
        r@.len() == 2 * chains@.len(),
        forall|c: int|
            #![trigger chains@[c]]
            0 <= c < chains@.len() ==> {
                let half = (chains@[0]@.len() / 2) as int;
                &&& r@[2 * c]@ == chains@[c]@.take(half)
                &&& r@[2 * c + 1]@ == chains@[c]@.subrange(half, 2 * half)
            },
{
    let n: usize = chains[0].len();
    let half: usize = n / 2;
    let mut halves: Vec<Vec<Binary64>> = Vec::new();
    for c in 0..chains.len()
        invariant
            2 <= chains@.len(),
            n == chains@[0]@.len(),
            half == n / 2,
            forall|c: int|
                0 <= c < chains@.len() ==> (#[trigger] chains@[c])@.len() == chains@[0]@.len(),
            halves@.len() == 2 * c,
            forall|k: int|
                #![trigger chains@[k]]
                0 <= k < c ==> {
                    &&& halves@[2 * k]@ == chains@[k]@.take(half as int)
                    &&& halves@[2 * k + 1]@ == chains@[k]@.subrange(half as int, 2 * half)
                },
    {
        let ghost so_far = halves@;
        assert(chains@[c as int]@.len() == chains@[0]@.len());
        let first = part(&chains[c], 0, half);
        let second = part(&chains[c], half, 2 * half);
        assert(first@ =~= chains@[c as int]@.take(half as int));
        halves.push(first);
        halves.push(second);
        assert forall|k: int|
            #![trigger chains@[k]]
            0 <= k < c + 1 implies {
            &&& halves@[2 * k]@ == chains@[k]@.take(half as int)
            &&& halves@[2 * k + 1]@ == chains@[k]@.subrange(half as int, 2 * half)
        } by {
            if k < c {
                assert(halves@[2 * k] == so_far[2 * k]);
                assert(halves@[2 * k + 1] == so_far[2 * k + 1]);
            }
        }
    }
    halves
}

/// A part of a list.
fn part(values: &Vec<Binary64>, start: usize, end: usize) -> (r: Vec<Binary64>)
    requires
        start <= end <= values@.len(),
    ensures
        r@ == values@.subrange(start as int, end as int),
{
    let mut r: Vec<Binary64> = Vec::new();
    for i in start..end
        invariant
            start <= end <= values@.len(),
            r@ == values@.subrange(start as int, i as int),
    {
        r.push(values[i]);
        assert(r@ =~= values@.subrange(start as int, i + 1));
    }
    r
}

/// The chains, one after the other.
pub open spec fn chain_after_chain(chains: Seq<Vec<Binary64>>, k: nat) -> Seq<Binary64>
    decreases k,
{
    if k == 0 {
        Seq::empty()
    } else {
        chain_after_chain(chains, (k - 1) as nat) + chains[k - 1]@
    }
}

/// The chains, one after the other.
pub fn pooled(chains: &Vec<Vec<Binary64>>) -> (r: Vec<Binary64>)
    ensures
        r@ == chain_after_chain(chains@, chains@.len()),
{
    let mut all: Vec<Binary64> = Vec::new();
    for c in 0..chains.len()
        invariant
            all@ == chain_after_chain(chains@, c as nat),
    {
        let ghost so_far = all@;
        assert(so_far + chains@[c as int]@.take(0) =~= so_far);
        let chain = &chains[c];
        for i in 0..chain.len()
            invariant
                c < chains@.len(),
                *chain == chains@[c as int],
                all@ == so_far + chains@[c as int]@.take(i as int),
        {
            all.push(chain[i]);
            assert(all@ =~= so_far + chains@[c as int]@.take(i + 1));
        }
        assert(chains@[c as int]@.take(chains@[c as int]@.len() as int)
            =~= chains@[c as int]@);
    }
    all
}

/// Value `k` is ranked ahead of value `i`: the two do not tie, and it comes first in
/// the total order, or earlier where the patterns are the same.
pub open spec fn ahead(values: Seq<Binary64>, k: int, i: int) -> bool {
    !values[k].same(values[i]) && (values[k].total_rank() < values[i].total_rank()
        || values[k].total_rank() == values[i].total_rank() && k < i)
}

/// How many values tie with value `i`, itself included; a NaN ties with nothing else.
pub open spec fn ties(values: Seq<Binary64>, i: int) -> nat {
    if values[i].nan() {
        1
    } else {
        tally(|k: int| values[k].same(values[i]), values.len())
    }
}

/// Twice the average rank of value `i` among the values that tie with it, where ranks
/// count from one.
pub open spec fn doubled_rank(values: Seq<Binary64>, i: int) -> nat {
    2 * tally(|k: int| ahead(values, k, i), values.len()) + ties(values, i) + 1
}

/// How many values are ranked ahead of value `i`.
fn count_ahead(values: &[Binary64], i: usize) -> (r: usize)
    requires
        i < values@.len(),
    ensures
        r == tally(|k: int| ahead(values@, k, i as int), values@.len()),
        r <= values@.len(),
{
    let ghost p = |k: int| ahead(values@, k, i as int);
    let mut count: usize = 0;
    for k in 0..values.len()
        invariant
            i < values@.len(),
            p == (|k: int| ahead(values@, k, i as int)),
            count == tally(p, k as nat),
            count <= k,
    {
        let before = values[k].precedes(values[i]) || !values[i].precedes(values[k]) && k < i;
        if !values[k].is_same(values[i]) && before {
            assert(p(k as int));
            count = count + 1;
        } else {
            assert(!p(k as int));
        }
    }
    count
}

/// How many values tie with value `i`.
fn count_ties(values: &[Binary64], i: usize) -> (r: usize)
    requires
        i < values@.len(),
    ensures
        r == ties(values@, i as int),
        r <= values@.len(),
{
    if values[i].is_nan() {
        return 1;
    }
    let ghost p = |k: int| values@[k].same(values@[i as int]);
    let mut count: usize = 0;
    for k in 0..values.len()
        invariant
            i < values@.len(),
            p == (|k: int| values@[k].same(values@[i as int])),
            count == tally(p, k as nat),
            count <= k,
    {
        if values[k].is_same(values[i]) {
            assert(p(k as int));
            count = count + 1;
        } else {
            assert(!p(k as int));
        }
    }
    count
}

/// Twice the average rank of every value, where ranks count from one and values that
/// tie share the average of their ranks.
pub fn doubled_ranks(values: &[Binary64]) -> (r: Vec<usize>)
    requires
        4 * values@.len() < usize::MAX,
    ensures
        r@.len() == values@.len(),
        forall|i: int| 0 <= i < values@.len() ==> #[trigger] r@[i] == doubled_rank(values@, i),
{
    let mut ranks: Vec<usize> = Vec::new();
    for i in 0..values.len()
        invariant
            4 * values@.len() < usize::MAX,
            ranks@.len() == i,
            forall|k: int| 0 <= k < i ==> #[trigger] ranks@[k] == doubled_rank(values@, k),
    {
        let front: usize = count_ahead(values, i);
        let tied: usize = count_ties(values, i);
        ranks.push(2 * front + tied + 1);
    }
    ranks
}

/// Values that tie share a rank.
pub proof fn tied_values_share_a_rank(values: Seq<Binary64>, i: int, j: int)
    requires
        0 <= i < values.len(),
        0 <= j < values.len(),
        values[i].same(values[j]),
    ensures
        doubled_rank(values, i) == doubled_rank(values, j),
{
    let n = values.len();
    let pi = |k: int| ahead(values, k, i);
    let pj = |k: int| ahead(values, k, j);
    let qi = |k: int| values[k].same(values[i]);
    let qj = |k: int| values[k].same(values[j]);
    assert forall|k: int| 0 <= k < n implies #[trigger] pi(k) == pj(k) by {
        if pi(k) {
            lemma_ahead_respects_ties(values, k, i, j);
        }
        if pj(k) {
            lemma_ahead_respects_ties(values, k, j, i);
        }
    }
    assert forall|k: int| 0 <= k < n implies #[trigger] qi(k) == qj(k) by {}
    lemma_tally_same(pi, pj, n);
    lemma_tally_same(qi, qj, n);
}

/// What is ahead of a value is ahead of every value that ties with it.
proof fn lemma_ahead_respects_ties(values: Seq<Binary64>, k: int, i: int, j: int)
    requires
        0 <= i < values.len(),
        0 <= j < values.len(),
        0 <= k < values.len(),
        values[i].same(values[j]),
        ahead(values, k, i),
    ensures
        ahead(values, k, j),
{
    let (a, b, c) = (values[k], values[i], values[j]);
    crate::binary64::total_order_refines_numeric_order(a, b);
    crate::binary64::total_order_refines_numeric_order(b, a);
    crate::binary64::total_order_refines_numeric_order(a, c);
    crate::binary64::total_order_refines_numeric_order(c, a);
}

/// Conditions that agree are satisfied by as many indices.
proof fn lemma_tally_same(p: spec_fn(int) -> bool, q: spec_fn(int) -> bool, k: nat)
    requires
        forall|i: int| 0 <= i < k ==> #[trigger] p(i) == q(i),
    ensures
        tally(p, k) == tally(q, k),
    decreases k,
{
    if k > 0 {
        lemma_tally_same(p, q, (k - 1) as nat);
        assert(p(k - 1) == q(k - 1));
    }
}

/// The one or two values in the middle of a sorted list: the median is their average.
pub fn median_neighbours(sorted: &[Binary64]) -> (r: (Binary64, Binary64))
    requires
        sorted@.len() >= 1,
    ensures
        ({
            let n = sorted@.len() as int;
            if n % 2 == 1 {
                r == (sorted@[n / 2], sorted@[n / 2])
            } else {
                r == (sorted@[n / 2 - 1], sorted@[n / 2])
            }
        }),
{
    let n: usize = sorted.len();
    if n % 2 == 1 {
        (sorted[n / 2], sorted[n / 2])
    } else {
        (sorted[n / 2 - 1], sorted[n / 2])
    }
}

/// One where a value does not exceed the threshold, else zero.
pub fn indicators(chain: &[Binary64], threshold: Binary64) -> (r: Vec<Binary64>)
    ensures
        r@ == Seq::new(
            chain@.len(),
            |i: int|
                if chain@[i].at_most(threshold) {
                    one()
                } else {
                    zero()
                },
        ),
{
    let ghost f = |i: int|
        if chain@[i].at_most(threshold) {
            one()
        } else {
            zero()
        };
    let mut r: Vec<Binary64> = Vec::new();
    for i in 0..chain.len()
        invariant
            f == (|i: int|
                if chain@[i].at_most(threshold) {
                    one()
                } else {
                    zero()
                }),
            r@.len() == i,
            forall|k: int| 0 <= k < i ==> r@[k] == #[trigger] f(k),
    {
        let value = if chain[i].is_at_most(threshold) {
            one()
        } else {
            zero()
        };
        assert(value == f(i as int));
        r.push(value);
    }
    assert(r@ =~= Seq::new(chain@.len(), f));
    r
}

/// The smaller of two numbers; a NaN gives way to a number.
pub open spec fn smaller(a: Binary64, b: Binary64) -> Binary64 {
    if a.nan() || b.below(a) {
        b
    } else {
        a
    }
}

/// The smallest of infinity and the first `k` numbers.
pub open spec fn running_minimum(pairs: Seq<Binary64>, k: nat) -> Binary64
    decreases k,
{
    if k == 0 {
        infinity()
    } else {
        smaller(pairs[k - 1], running_minimum(pairs, (k - 1) as nat))
    }
}

/// Is the number not strictly positive? Never true of a NaN.
pub open spec fn cuts_off(pair: Binary64) -> bool {
    pair.at_most(zero())
}

/// The initial positive monotone sequence of sums of autocorrelation pairs: it ends
/// before the first sum that is not positive, and no entry exceeds the one before it.
pub fn initial_monotone_sequence(pairs: &[Binary64]) -> (r: Vec<Binary64>)
    ensures
        r@.len() <= pairs@.len(),
        forall|k: int| 0 <= k < r@.len() ==> !cuts_off(#[trigger] pairs@[k]),
        r@.len() < pairs@.len() ==> cuts_off(pairs@[r@.len() as int]),
        forall|k: int|
            0 <= k < r@.len() ==> #[trigger] r@[k] == running_minimum(pairs@, (k + 1) as nat),
{
    let mut kept: Vec<Binary64> = Vec::new();
    let mut previous = infinity();
    for k in 0..pairs.len()
        invariant
            kept@.len() == k,
            previous == running_minimum(pairs@, k as nat),
            forall|i: int| 0 <= i < k ==> !cuts_off(#[trigger] pairs@[i]),
            forall|i: int|
                0 <= i < k ==> #[trigger] kept@[i] == running_minimum(pairs@, (i + 1) as nat),
    {
        let pair = pairs[k];
        if pair.is_at_most(zero()) {
            return kept;
        }
        let least = if pair.is_nan() || previous.is_below(pair) {
            previous
        } else {
            pair
        };
        kept.push(least);
        previous = least;
    }
    kept
}

/// The sequence never rises.
pub proof fn running_minimum_never_rises(pairs: Seq<Binary64>, k: nat)
    requires
        k < pairs.len(),
    ensures
        running_minimum(pairs, (k + 1) as nat).at_most(running_minimum(pairs, k)),
{
    lemma_minimum_is_a_number(pairs, k);
}

/// The smallest one is a number.
proof fn lemma_minimum_is_a_number(pairs: Seq<Binary64>, k: nat)
    ensures
        !running_minimum(pairs, k).nan(),
    decreases k,
{
    if k > 0 {
        lemma_minimum_is_a_number(pairs, (k - 1) as nat);
    }
}

/// How many numbers do not exceed `v`.
pub open spec fn at_most_count(values: Seq<Binary64>, v: Binary64) -> nat {
    tally(|i: int| values[i].at_most(v), values.len())
}

/// How many numbers do not exceed `v`.
pub fn count_at_most(values: &[Binary64], v: Binary64) -> (r: usize)
    ensures
        r == at_most_count(values@, v),
        r <= values@.len(),
{
    let ghost p = |i: int| values@[i].at_most(v);
    let mut count: usize = 0;
    for i in 0..values.len()
        invariant
            p == (|i: int| values@[i].at_most(v)),
            count == tally(p, i as nat),
            count <= i,
    {
        if values[i].is_at_most(v) {
            assert(p(i as int));
            count = count + 1;
        } else {
            assert(!p(i as int));
        }
    }
    count
}

/// Value `k` of two samples, the first one first.
pub open spec fn pooled_value(a: Seq<Binary64>, b: Seq<Binary64>, k: int) -> Binary64 {
    if k < a.len() {
        a[k]
    } else {
        b[k - a.len()]
    }
}

/// How many values of either sample do not exceed each pooled value: where the two
/// empirical distributions are compared. Ties are stepped past at once.
pub fn ecdf_counts(a: &[Binary64], b: &[Binary64]) -> (r: Vec<(usize, usize)>)
    ensures
        r@.len() == a@.len() + b@.len(),
        forall|k: int|
            0 <= k < r@.len() ==> {
                let v = pooled_value(a@, b@, k);
                &&& (#[trigger] r@[k]).0 == at_most_count(a@, v)
                &&& r@[k].1 == at_most_count(b@, v)
            },
{
    let mut steps: Vec<(usize, usize)> = Vec::new();
    for k in 0..a.len()
        invariant
            steps@.len() == k,
            forall|i: int|
                0 <= i < k ==> {
                    let v = pooled_value(a@, b@, i);
                    &&& (#[trigger] steps@[i]).0 == at_most_count(a@, v)
                    &&& steps@[i].1 == at_most_count(b@, v)
                },
    {
        steps.push((count_at_most(a, a[k]), count_at_most(b, a[k])));
    }
    for k in 0..b.len()
        invariant
            steps@.len() == a@.len() + k,
            forall|i: int|
                0 <= i < a@.len() + k ==> {
                    let v = pooled_value(a@, b@, i);
                    &&& (#[trigger] steps@[i]).0 == at_most_count(a@, v)
                    &&& steps@[i].1 == at_most_count(b@, v)
                },
    {
        steps.push((count_at_most(a, b[k]), count_at_most(b, b[k])));
    }
    steps
}

/// Past the largest value of a sample every further step leaves its share where it
/// is: all of it.
pub proof fn counts_are_complete_at_the_top(values: Seq<Binary64>, v: Binary64)
    requires
        forall|i: int| 0 <= i < values.len() ==> (#[trigger] values[i]).at_most(v),
    ensures
        at_most_count(values, v) == values.len(),
{
    lemma_tally_all(|i: int| values[i].at_most(v), values.len());
}

/// A condition that always holds.
proof fn lemma_tally_all(p: spec_fn(int) -> bool, k: nat)
    requires
        forall|i: int| 0 <= i < k ==> #[trigger] p(i),
    ensures
        tally(p, k) == k,
    decreases k,
{
    if k > 0 {
        lemma_tally_all(p, (k - 1) as nat);
        assert(p(k - 1));
    }
}

/// How many draws lie strictly below the value.
pub open spec fn below_count(draws: Seq<Binary64>, value: Binary64) -> nat {
    tally(|i: int| draws[i].below(value), draws.len())
}

/// How many draws are equal to the value.
pub open spec fn equal_count(draws: Seq<Binary64>, value: Binary64) -> nat {
    tally(|i: int| draws[i].same(value), draws.len())
}

/// How many draws lie strictly below the value.
fn count_below(draws: &[Binary64], value: Binary64) -> (r: usize)
    ensures
        r == below_count(draws@, value),
{
    let ghost p = |i: int| draws@[i].below(value);
    let mut count: usize = 0;
    for i in 0..draws.len()
        invariant
            p == (|i: int| draws@[i].below(value)),
            count == tally(p, i as nat),
            count <= i,
    {
        if draws[i].is_below(value) {
            assert(p(i as int));
            count = count + 1;
        } else {
            assert(!p(i as int));
        }
    }
    count
}

/// How many draws are equal to the value: a tie is broken among as many places and one
/// more.
pub fn sbc_ties(true_value: Binary64, draws: &[Binary64]) -> (r: usize)
    ensures
        r == equal_count(draws@, true_value),
        r <= draws@.len(),
{
    let ghost p = |i: int| draws@[i].same(true_value);
    let mut count: usize = 0;
    for i in 0..draws.len()
        invariant
            p == (|i: int| draws@[i].same(true_value)),
            count == tally(p, i as nat),
            count <= i,
    {
        if draws[i].is_same(true_value) {
            assert(p(i as int));
            count = count + 1;
        } else {
            assert(!p(i as int));
        }
    }
    count
}

/// The rank of a value among draws: the number of draws strictly below it, moved by
/// the place that a tie was broken to.
pub open spec fn rank_among(true_value: Binary64, draws: Seq<Binary64>, tie_break: nat) -> nat {
    below_count(draws, true_value) + if equal_count(draws, true_value) == 0 {
        0
    } else {
        tie_break
    }
}

/// The rank of a value among draws; `tie_break` is drawn uniformly from zero to the
/// number of ties.
pub fn sbc_rank(true_value: Binary64, draws: &[Binary64], tie_break: usize) -> (r: usize)
    requires
        tie_break <= equal_count(draws@, true_value),
    ensures
        r == rank_among(true_value, draws@, tie_break as nat),
        r <= draws@.len(),
{
    let below: usize = count_below(draws, true_value);
    let equal: usize = sbc_ties(true_value, draws);
    proof {
        let p = |i: int| draws@[i].below(true_value);
        let q = |i: int| draws@[i].same(true_value);
        assert forall|i: int| 0 <= i < draws@.len() implies !(#[trigger] p(i) && q(i)) by {}
        lemma_tally_disjoint(p, q, draws@.len());
        assert(draws@.len() == draws.len());
    }
    if equal == 0 {
        below
    } else {
        below + tie_break
    }
}

/// A rank never exceeds the number of draws.
pub proof fn ranks_stay_in_range(true_value: Binary64, draws: Seq<Binary64>, tie_break: nat)
    requires
        tie_break <= equal_count(draws, true_value),
    ensures
        rank_among(true_value, draws, tie_break) <= draws.len(),
{
    let p = |i: int| draws[i].below(true_value);
    let q = |i: int| draws[i].same(true_value);
    assert forall|i: int| 0 <= i < draws.len() implies !(#[trigger] p(i) && q(i)) by {}
    lemma_tally_disjoint(p, q, draws.len());
}

/// One observation's summary of its error spread.
#[derive(Debug, Clone, Copy)]
pub struct HEvidencePoint {
    /// The row of the observation.
    pub observation: usize,
    /// The mean of the draws.
    pub s_hat: Binary64,
    /// The lower end of the credible interval.
    pub lower: Binary64,
    /// The upper end of the credible interval.
    pub upper: Binary64,
}

impl Value for HEvidencePoint {
    open spec fn equal(self, other: Self) -> bool {
        &&& self.observation == other.observation
        &&& self.s_hat.same(other.s_hat)
        &&& self.lower.same(other.lower)
        &&& self.upper.same(other.upper)
    }

    open spec fn copy_of(self, other: Self) -> bool {
        self == other
    }

    fn equals(&self, other: &Self) -> (r: bool) {
        self.observation == other.observation && self.s_hat.is_same(other.s_hat)
            && self.lower.is_same(other.lower) && self.upper.is_same(other.upper)
    }

    fn duplicate(&self) -> (r: Self) {
        *self
    }
}

impl PartialEq for HEvidencePoint {
    fn eq(&self, other: &Self) -> (r: bool) {
        self.equals(other)
    }
}

impl vstd::std_specs::cmp::PartialEqSpecImpl for HEvidencePoint {
    open spec fn obeys_eq_spec() -> bool {
        true
    }

    open spec fn eq_spec(&self, other: &Self) -> bool {
        self.equal(*other)
    }
}

/// The point estimates.
pub open spec fn estimates(points: Seq<HEvidencePoint>) -> Seq<Binary64> {
    points.map_values(|p: HEvidencePoint| p.s_hat)
}

/// The points in ascending order of their estimates; ties keep their order.
pub fn order_points(points: &Vec<HEvidencePoint>) -> (r: Vec<HEvidencePoint>)
    ensures
        exists|order: Seq<usize>|
            #[trigger] is_stable_order(estimates(points@), order) && r@ == order.map_values(
                |i: usize| points@[i as int],
            ),
{
    let mut keys: Vec<Binary64> = Vec::new();
    for i in 0..points.len()
        invariant
            keys@.len() == i,
            forall|k: int| 0 <= k < i ==> keys@[k] == points@[k].s_hat,
    {
        keys.push(points[i].s_hat);
    }
    assert(keys@ =~= estimates(points@));
    let order = stable_order(keys.as_slice());
    let mut r: Vec<HEvidencePoint> = Vec::new();
    for i in 0..order.len()
        invariant
            is_stable_order(keys@, order@),
            keys@.len() == points@.len(),
            r@.len() == i,
            forall|k: int| 0 <= k < i ==> r@[k] == points@[order@[k] as int],
    {
        assert(order@[i as int] < keys@.len());
        r.push(points[order[i]]);
    }
    assert(r@ =~= order@.map_values(|i: usize| points@[i as int]));
    assert(is_stable_order(estimates(points@), order@));
    r
}

/// The indices below `k` at which a property holds.
pub open spec fn holding(p: spec_fn(int) -> bool, k: nat) -> Set<int> {
    Set::new(|i: int| 0 <= i < k && p(i))
}

/// A tally is the number of indices at which the property holds.
pub proof fn tally_is_a_count(p: spec_fn(int) -> bool, k: nat)
    ensures
        holding(p, k).finite(),
        tally(p, k) == holding(p, k).len(),
    decreases k,
{
    if k == 0 {
        assert(holding(p, k) =~= Set::empty());
    } else {
        tally_is_a_count(p, (k - 1) as nat);
        if p(k - 1) {
            assert(holding(p, k) =~= holding(p, (k - 1) as nat).insert(k - 1));
        } else {
            assert(holding(p, k) =~= holding(p, (k - 1) as nat));
        }
    }
}

/// A property that holds wherever another does is counted at least as often.
proof fn lemma_tally_grows(p: spec_fn(int) -> bool, q: spec_fn(int) -> bool, k: nat)
    requires
        forall|i: int| 0 <= i < k && #[trigger] p(i) ==> q(i),
    ensures
        tally(p, k) <= tally(q, k),
        (exists|i: int| 0 <= i < k && !p(i) && #[trigger] q(i)) ==> tally(p, k) < tally(q, k),
    decreases k,
{
    if k > 0 {
        lemma_tally_grows(p, q, (k - 1) as nat);
        assert(p(k - 1) ==> q(k - 1));
    }
}

/// The count at a value is the number of values that do not lie above it; it does not
/// fall as the value rises.
pub proof fn counts_follow_the_values(
    values: &[Binary64],
    v: Binary64,
    w: Binary64,
    r: usize,
    s: usize,
)
    requires
        call_ensures(count_at_most, (values, v), r),
        call_ensures(count_at_most, (values, w), s),
        v.at_most(w),
    ensures
        r == Set::new(|i: int| 0 <= i < values@.len() && values@[i].at_most(v)).len(),
        r <= s,
        (exists|i: int|
            0 <= i < values@.len() && v.below(#[trigger] values@[i]) && values@[i].at_most(w))
            ==> r < s,
{
    let p = |i: int| values@[i].at_most(v);
    let q = |i: int| values@[i].at_most(w);
    tally_is_a_count(p, values@.len());
    assert(holding(p, values@.len()) =~= Set::new(
        |i: int| 0 <= i < values@.len() && values@[i].at_most(v),
    ));
    lemma_tally_grows(p, q, values@.len());
    if exists|i: int|
        0 <= i < values@.len() && v.below(#[trigger] values@[i]) && values@[i].at_most(w) {
        let i = choose|i: int|
            0 <= i < values@.len() && v.below(#[trigger] values@[i]) && values@[i].at_most(w);
        assert(!p(i) && q(i));
    }
}

/// The two empirical distributions are read at every value of the two samples, first
/// those of the one, then those of the other: each reading counts the values of a sample
/// that do not lie above.
pub proof fn readings_count_both_samples(
    a: &[Binary64],
    b: &[Binary64],
    r: Vec<(usize, usize)>,
    k: int,
    v: Binary64,
)
    requires
        call_ensures(ecdf_counts, (a, b), r),
        0 <= k < a@.len() && v == a@[k] || a@.len() <= k < a@.len() + b@.len() && v == b@[k
            - a@.len()],
    ensures
        r@.len() == a@.len() + b@.len(),
        r@[k].0 == Set::new(|i: int| 0 <= i < a@.len() && a@[i].at_most(v)).len(),
        r@[k].1 == Set::new(|i: int| 0 <= i < b@.len() && b@[i].at_most(v)).len(),
{
    let p = |i: int| a@[i].at_most(v);
    let q = |i: int| b@[i].at_most(v);
    tally_is_a_count(p, a@.len());
    tally_is_a_count(q, b@.len());
    assert(pooled_value(a@, b@, k) == v);
    assert(holding(p, a@.len()) =~= Set::new(|i: int| 0 <= i < a@.len() && a@[i].at_most(v)));
    assert(holding(q, b@.len()) =~= Set::new(|i: int| 0 <= i < b@.len() && b@[i].at_most(v)));
}

/// The rank of a value among draws is the number of draws below it, plus the tie-break,
/// of which there are as many choices as draws equal to it and one.
pub proof fn rank_counts_the_draws_below(
    true_value: Binary64,
    draws: &[Binary64],
    tie_break: usize,
    ties: usize,
    r: usize,
)
    requires
        call_ensures(sbc_ties, (true_value, draws), ties),
        tie_break <= ties,
        call_ensures(sbc_rank, (true_value, draws, tie_break), r),
    ensures
        ties == Set::new(|i: int| 0 <= i < draws@.len() && draws@[i].same(true_value)).len(),
        r == Set::new(|i: int| 0 <= i < draws@.len() && draws@[i].below(true_value)).len()
            + tie_break,
        r <= draws@.len(),
{
    let p = |i: int| draws@[i].same(true_value);
    let q = |i: int| draws@[i].below(true_value);
    tally_is_a_count(p, draws@.len());
    tally_is_a_count(q, draws@.len());
    assert(holding(p, draws@.len()) =~= Set::new(
        |i: int| 0 <= i < draws@.len() && draws@[i].same(true_value),
    ));
    assert(holding(q, draws@.len()) =~= Set::new(
        |i: int| 0 <= i < draws@.len() && draws@[i].below(true_value),
    ));
}

/// Of numbers, the doubled average rank is twice the number of smaller ones plus the
/// number of equal ones plus one: smaller numbers have smaller ranks and equal numbers
/// share theirs.
pub proof fn ranks_average_over_ties(values: &[Binary64], r: Vec<usize>, i: int, j: int)
    requires
        call_ensures(doubled_ranks, (values,), r),
        0 <= i < values@.len(),
        0 <= j < values@.len(),
        forall|k: int| 0 <= k < values@.len() ==> !(#[trigger] values@[k]).nan(),
    ensures
        r@.len() == values@.len(),
        r@[i] == 2 * Set::new(
            |k: int| 0 <= k < values@.len() && values@[k].below(values@[i]),
        ).len() + Set::new(|k: int| 0 <= k < values@.len() && values@[k].same(values@[i])).len()
            + 1,
        values@[i].below(values@[j]) ==> r@[i] < r@[j],
        values@[i].same(values@[j]) ==> r@[i] == r@[j],
{
    let n = values@.len();
    let p = |k: int| ahead(values@, k, i);
    let less = |k: int| values@[k].below(values@[i]);
    let tied = |k: int| values@[k].same(values@[i]);
    assert forall|k: int| 0 <= k < n implies #[trigger] p(k) == less(k) by {
        assert(!values@[k].nan() && !values@[i].nan());
        crate::binary64::total_order_refines_numeric_order(values@[k], values@[i]);
        crate::binary64::total_order_refines_numeric_order(values@[i], values@[k]);
    }
    lemma_tally_same(p, less, n);
    tally_is_a_count(less, n);
    tally_is_a_count(tied, n);
    assert(holding(less, n) =~= Set::new(|k: int| 0 <= k < n && values@[k].below(values@[i])));
    assert(holding(tied, n) =~= Set::new(|k: int| 0 <= k < n && values@[k].same(values@[i])));
    if values@[i].same(values@[j]) {
        tied_values_share_a_rank(values@, i, j);
    }
    if values@[i].below(values@[j]) {
        let pj = |k: int| ahead(values@, k, j);
        let less_j = |k: int| values@[k].below(values@[j]);
        let tied_j = |k: int| values@[k].same(values@[j]);
        assert forall|k: int| 0 <= k < n implies #[trigger] pj(k) == less_j(k) by {
            assert(!values@[k].nan() && !values@[j].nan());
            crate::binary64::total_order_refines_numeric_order(values@[k], values@[j]);
            crate::binary64::total_order_refines_numeric_order(values@[j], values@[k]);
        }
        lemma_tally_same(pj, less_j, n);
        let up_to = |k: int| values@[k].at_most(values@[i]);
        lemma_tally_split(less, tied, up_to, n);
        lemma_tally_grows(up_to, less_j, n);
        let none = |k: int| false;
        assert(!none(j) && tied_j(j));
        lemma_tally_grows(none, tied_j, n);
    }
}

/// A property that is one of two exclusive ones is counted as often as both together.
proof fn lemma_tally_split(
    p: spec_fn(int) -> bool,
    q: spec_fn(int) -> bool,
    either: spec_fn(int) -> bool,
    k: nat,
)
    requires
        forall|i: int| 0 <= i < k ==> (#[trigger] either(i) <==> p(i) || q(i)) && !(p(i) && q(i)),
    ensures
        tally(either, k) == tally(p, k) + tally(q, k),
    decreases k,
{
    if k > 0 {
        lemma_tally_split(p, q, either, (k - 1) as nat);
        assert(either(k - 1) <==> p(k - 1) || q(k - 1));
    }
}

/// Splitting gives every chain a first and a second half of equal length, in the order of
/// the chains: value by value, the first half starts where the chain does and the second
/// one where the first one ends; of an odd number of values the last one is left out.
pub proof fn halves_follow_one_another(
    chains: &Vec<Vec<Binary64>>,
    r: Vec<Vec<Binary64>>,
    c: int,
    i: int,
)
    requires
        chains@.len() >= 2,
        forall|c: int|
            0 <= c < chains@.len() ==> (#[trigger] chains@[c])@.len() == chains@[0]@.len(),
        call_ensures(split_chains, (chains,), r),
        0 <= c < chains@.len(),
        0 <= i < r@[2 * c]@.len(),
    ensures
        r@.len() == chains@.len() + chains@.len(),
        r@[2 * c]@.len() == r@[2 * c + 1]@.len(),
        chains@[c]@.len() - 1 <= r@[2 * c]@.len() + r@[2 * c + 1]@.len() <= chains@[c]@.len(),
        r@[2 * c]@[i] == chains@[c]@[i],
        r@[2 * c + 1]@[i] == chains@[c]@[r@[2 * c]@.len() + i],
{
    assert(chains@[c]@.len() == chains@[0]@.len());
}

/// How many values the first `c` chains have.
pub open spec fn values_before(chains: Seq<Vec<Binary64>>, c: nat) -> nat
    decreases c,
{
    if c == 0 {
        0
    } else {
        values_before(chains, (c - 1) as nat) + chains[c - 1]@.len()
    }
}

/// Where pooled values stand.
proof fn lemma_pooled(chains: Seq<Vec<Binary64>>, k: nat, c: int, i: int)
    requires
        k <= chains.len(),
        0 <= c < k,
        0 <= i < chains[c]@.len(),
    ensures
        chain_after_chain(chains, k).len() == values_before(chains, k),
        values_before(chains, c as nat) + i < values_before(chains, k),
        chain_after_chain(chains, k)[values_before(chains, c as nat) + i] == chains[c]@[i],
    decreases k,
{
    if k > 0 {
        lemma_pooled_len(chains, (k - 1) as nat);
        if c < k - 1 {
            lemma_pooled(chains, (k - 1) as nat, c, i);
        }
    }
}

/// How many values are pooled.
proof fn lemma_pooled_len(chains: Seq<Vec<Binary64>>, k: nat)
    ensures
        chain_after_chain(chains, k).len() == values_before(chains, k),
    decreases k,
{
    if k > 0 {
        lemma_pooled_len(chains, (k - 1) as nat);
    }
}

/// Pooling keeps every value of every chain: chain after chain, each in its order, and
/// nothing else.
pub proof fn pooling_keeps_every_value(chains: &Vec<Vec<Binary64>>, r: Vec<Binary64>, c: int, i: int)
    requires
        call_ensures(pooled, (chains,), r),
        0 <= c < chains@.len(),
        0 <= i < chains@[c]@.len(),
    ensures
        r@.len() == values_before(chains@, chains@.len()),
        r@[values_before(chains@, c as nat) + i] == chains@[c]@[i],
{
    lemma_pooled(chains@, chains@.len(), c, i);
}

/// The neighbours of the median stand in the middle: as many values stand before the
/// first one as stand behind the second one, and nothing stands between them.
pub proof fn median_stands_in_the_middle(sorted: &[Binary64], r: (Binary64, Binary64))
    requires
        sorted@.len() >= 1,
        call_ensures(median_neighbours, (sorted,), r),
    ensures
        exists|i: int, j: int|
            0 <= i <= j < sorted@.len() && j <= i + 1 && i == sorted@.len() - 1 - j && r.0
                == #[trigger] sorted@[i] && r.1 == #[trigger] sorted@[j],
{
    let n = sorted@.len() as int;
    let j = n / 2;
    let i = n - 1 - j;
    assert(r.0 == sorted@[i] && r.1 == sorted@[j]);
}

/// An indicator is one exactly where the value does not lie above the threshold, and zero
/// everywhere else.
pub proof fn indicators_mark_the_threshold(
    chain: &[Binary64],
    threshold: Binary64,
    r: Vec<Binary64>,
    i: int,
)
    requires
        call_ensures(indicators, (chain, threshold), r),
        0 <= i < chain@.len(),
    ensures
        r@.len() == chain@.len(),
        r@[i].same(one()) <==> chain@[i].at_most(threshold),
        r@[i].same(zero()) <==> !chain@[i].at_most(threshold),
        r@[i] == one() || r@[i] == zero(),
{
}

/// The monotone sequence stops before the first pair that is not above zero, does not
/// rise, and at each place is the least of the pairs so far.
pub proof fn monotone_sequence_is_the_least_so_far(
    pairs: &[Binary64],
    r: Vec<Binary64>,
    k: int,
    j: int,
)
    requires
        call_ensures(initial_monotone_sequence, (pairs,), r),
        forall|i: int| 0 <= i < pairs@.len() ==> !(#[trigger] pairs@[i]).nan(),
        0 <= j <= k < r@.len(),
    ensures
        zero().below(pairs@[k]),
        r@.len() < pairs@.len() ==> pairs@[r@.len() as int].at_most(zero()),
        r@[k].at_most(pairs@[j]),
        r@[k].at_most(r@[j]),
        exists|i: int| 0 <= i <= k && #[trigger] pairs@[i] == r@[k],
{
    assert(!cuts_off(pairs@[k]));
    lemma_least(pairs@, (k + 1) as nat, j);
    lemma_minimum_falls(pairs@, (j + 1) as nat, (k + 1) as nat);
    assert(r@[k] == running_minimum(pairs@, (k + 1) as nat));
    assert(r@[j] == running_minimum(pairs@, (j + 1) as nat));
}

/// The running minimum of numbers is the least of them.
proof fn lemma_least(pairs: Seq<Binary64>, k: nat, j: int)
    requires
        0 <= j < k <= pairs.len(),
        forall|i: int| 0 <= i < pairs.len() ==> !(#[trigger] pairs[i]).nan(),
    ensures
        running_minimum(pairs, k).at_most(pairs[j]),
        exists|i: int| 0 <= i < k && #[trigger] pairs[i] == running_minimum(pairs, k),
    decreases k,
{
    assert(!pairs[k - 1].nan() && !pairs[j].nan());
    lemma_minimum_is_a_number(pairs, (k - 1) as nat);
    if k == 1 {
        assert(!infinity().below(pairs[0]));
        assert(running_minimum(pairs, 0) == infinity());
        assert(pairs[0] == running_minimum(pairs, k));
    } else {
        let at = if j < k - 1 {
            j
        } else {
            0
        };
        lemma_least(pairs, (k - 1) as nat, at);
        assert(pairs[k - 1] == pairs[k - 1]);
    }
}

/// The running minimum does not rise.
proof fn lemma_minimum_falls(pairs: Seq<Binary64>, j: nat, k: nat)
    requires
        j <= k <= pairs.len(),
    ensures
        running_minimum(pairs, k).at_most(running_minimum(pairs, j)),
    decreases k,
{
    lemma_minimum_is_a_number(pairs, k);
    if j < k {
        lemma_minimum_falls(pairs, j, (k - 1) as nat);
        running_minimum_never_rises(pairs, (k - 1) as nat);
    }
}

/// Ordered points are the points: in the order of their estimates, equal estimates in the
/// order in which they were given, none lost and none added.
pub proof fn ordered_points_are_the_points(points: &Vec<HEvidencePoint>, r: Vec<HEvidencePoint>)
    requires
        points@.len() <= usize::MAX,
        call_ensures(order_points, (points,), r),
    ensures
        r@.len() == points@.len(),
        forall|i: int, j: int|
            0 <= i < j < r@.len() ==> (#[trigger] r@[i]).s_hat.total_rank() <= (
            #[trigger] r@[j]).s_hat.total_rank(),
        forall|k: int| 0 <= k < points@.len() ==> r@.contains(#[trigger] points@[k]),
        forall|i: int| 0 <= i < r@.len() ==> points@.contains(#[trigger] r@[i]),
{
    let keys = estimates(points@);
    let order = choose|order: Seq<usize>|
        #[trigger] is_stable_order(keys, order) && r@ == order.map_values(
            |i: usize| points@[i as int],
        );
    assert forall|i: int, j: int| 0 <= i < j < r@.len() implies (
    #[trigger] r@[i]).s_hat.total_rank() <= (#[trigger] r@[j]).s_hat.total_rank() by {
        assert(crate::order::comes_before(keys, order[i] as int, order[j] as int));
        assert(order[i] < keys.len() && order[j] < keys.len());
        assert(keys[order[i] as int] == points@[order[i] as int].s_hat);
        assert(keys[order[j] as int] == points@[order[j] as int].s_hat);
    }
    assert forall|k: int| 0 <= k < points@.len() implies r@.contains(#[trigger] points@[k]) by {
        assert(order.contains(k as usize));
        let i = choose|i: int| 0 <= i < order.len() && order[i] == k as usize;
        assert(r@[i] == points@[k]);
    }
    assert forall|i: int| 0 <= i < r@.len() implies points@.contains(#[trigger] r@[i]) by {
        assert(order[i] < keys.len());
        assert(points@[order[i] as int] == r@[i]);
    }
}

/// Points of evidence are equal exactly where observation, estimate and both ends are.
pub proof fn evidence_equal_part_by_part(a: HEvidencePoint, b: HEvidencePoint, r: bool)
    requires
        call_ensures(HEvidencePoint::equals, (&a, &b), r),
    ensures
        r <==> a.observation == b.observation && a.s_hat.same(b.s_hat) && a.lower.same(b.lower)
            && a.upper.same(b.upper),
{
}

} // verus!
