//! Sorting by the total order of binary64 numbers.

use crate::binary64::Binary64;
use vstd::prelude::*;

verus! {

/// Does index `a` come before index `b`: by its key, or by its place where the keys
/// tie?
pub open spec fn comes_before(keys: Seq<Binary64>, a: int, b: int) -> bool {
    keys[a].total_rank() < keys[b].total_rank() || keys[a].total_rank() == keys[b].total_rank()
        && a < b
}

/// The order lists indices below `n`, each at most once, and `comes_before` holds of
/// any two in turn.
pub open spec fn in_order(keys: Seq<Binary64>, order: Seq<usize>, n: nat) -> bool {
    &&& forall|i: int| 0 <= i < order.len() ==> (#[trigger] order[i]) < n
    &&& forall|i: int, j: int|
        0 <= i < j < order.len() ==> comes_before(
            keys,
            #[trigger] order[i] as int,
            #[trigger] order[j] as int,
        )
}

/// The stable ascending order of the keys: every index once, sorted by key, ties in
/// their first order.
pub open spec fn is_stable_order(keys: Seq<Binary64>, order: Seq<usize>) -> bool {
    &&& order.len() == keys.len()
    &&& in_order(keys, order, keys.len())
    &&& forall|k: usize| k < keys.len() ==> #[trigger] order.contains(k)
}

/// The stable ascending order of the keys by the total order of their patterns.
pub fn stable_order(keys: &[Binary64]) -> (order: Vec<usize>)
    ensures
        is_stable_order(keys@, order@),
{
    let mut order: Vec<usize> = Vec::new();
    for k in 0..keys.len()
        invariant
            order@.len() == k,
            in_order(keys@, order@, k as nat),
            forall|a: usize| a < k ==> #[trigger] order@.contains(a),
            k <= keys@.len(),
    {
        let mut at: usize = k;
        while at > 0 && keys[k].precedes(keys[order[at - 1]])
            invariant
                k < keys@.len(),
                at <= k,
                order@.len() == k,
                in_order(keys@, order@, k as nat),
                forall|j: int|
                    at <= j < k ==> keys@[k as int].total_rank()
                        < keys@[(#[trigger] order@[j]) as int].total_rank(),
            decreases at,
        {
            at = at - 1;
        }
        let ghost before = order@;
        order.insert(at, k);
        proof {
            lemma_insert(keys@, before, at as int, k);
        }
    }
    order
}

/// Inserting the next index behind all keys that do not exceed its own keeps the
/// order.
proof fn lemma_insert(keys: Seq<Binary64>, order: Seq<usize>, at: int, k: usize)
    requires
        k < keys.len(),
        order.len() == k,
        0 <= at <= k,
        in_order(keys, order, k as nat),
        forall|a: usize| a < k ==> #[trigger] order.contains(a),
        forall|j: int|
            at <= j < k ==> keys[k as int].total_rank()
                < keys[(#[trigger] order[j]) as int].total_rank(),
        at > 0 ==> !(keys[k as int].total_rank() < keys[order[at - 1] as int].total_rank()),
    ensures
        in_order(keys, order.insert(at, k), (k + 1) as nat),
        forall|a: usize| a < k + 1 ==> #[trigger] order.insert(at, k).contains(a),
{
    let next = order.insert(at, k);
    assert forall|i: int, j: int| 0 <= i < j < next.len() implies comes_before(
        keys,
        #[trigger] next[i] as int,
        #[trigger] next[j] as int,
    ) by {
        if i < at {
            assert(next[i] == order[i]);
            if j < at {
                assert(next[j] == order[j]);
            } else if j == at {
                if i < at - 1 {
                    assert(comes_before(keys, order[i] as int, order[at - 1] as int));
                }
            } else {
                assert(next[j] == order[j - 1]);
            }
        } else if i == at {
            assert(next[j] == order[j - 1]);
        } else {
            assert(next[i] == order[i - 1]);
            assert(next[j] == order[j - 1]);
        }
    }
    assert forall|a: usize| a < k + 1 implies #[trigger] next.contains(a) by {
        if a == k {
            assert(next[at] == k);
        } else {
            assert(order.contains(a));
            let i = choose|i: int| 0 <= i < order.len() && order[i] == a;
            if i < at {
                assert(next[i] == a);
            } else {
                assert(next[i + 1] == a);
            }
        }
    }
}

/// There is one stable order only.
pub proof fn stable_order_is_unique(keys: Seq<Binary64>, a: Seq<usize>, b: Seq<usize>)
    requires
        keys.len() <= usize::MAX,
        is_stable_order(keys, a),
        is_stable_order(keys, b),
    ensures
        a == b,
{
    lemma_prefixes_agree(keys, a, b, a.len());
    assert(a =~= b);
}

/// The first `m` places of two stable orders agree.
proof fn lemma_prefixes_agree(keys: Seq<Binary64>, a: Seq<usize>, b: Seq<usize>, m: nat)
    requires
        keys.len() <= usize::MAX,
        is_stable_order(keys, a),
        is_stable_order(keys, b),
        m <= a.len(),
    ensures
        forall|i: int| 0 <= i < m ==> a[i] == b[i],
    decreases m,
{
    if m > 0 {
        let last = m - 1;
        lemma_prefixes_agree(keys, a, b, last as nat);
        assert(b.contains(a[last]));
        assert(a.contains(b[last]));
        let i = choose|i: int| 0 <= i < b.len() && b[i] == a[last];
        let j = choose|j: int| 0 <= j < a.len() && a[j] == b[last];
        if i < last {
            assert(a[i] == b[i]);
            assert(comes_before(keys, a[i] as int, a[last] as int));
            assert(false);
        }
        if j < last {
            assert(a[j] == b[j]);
            assert(comes_before(keys, b[j] as int, b[last] as int));
            assert(false);
        }
        if i > last && j > last {
            assert(comes_before(keys, b[last] as int, b[i] as int));
            assert(comes_before(keys, a[last] as int, a[j] as int));
            assert(false);
        }
    }
}

/// Are the numbers in ascending total order?
pub open spec fn ascending(values: Seq<Binary64>) -> bool {
    forall|i: int, j: int|
        0 <= i < j < values.len() ==> (#[trigger] values[i]).total_rank() <= (
        #[trigger] values[j]).total_rank()
}

/// The numbers, sorted by the total order of their patterns.
pub fn sorted(values: &[Binary64]) -> (r: Vec<Binary64>)
    ensures
        ascending(r@),
        r@.to_multiset() == values@.to_multiset(),
        r@.len() == values@.len(),
{
    let mut r: Vec<Binary64> = Vec::new();
    proof {
        values@.to_multiset_ensures();
        assert(values@.take(0) =~= Seq::<Binary64>::empty());
    }
    for k in 0..values.len()
        invariant
            r@.len() == k,
            ascending(r@),
            r@.to_multiset() == values@.take(k as int).to_multiset(),
    {
        let mut at: usize = k;
        while at > 0 && values[k].precedes(r[at - 1])
            invariant
                k < values@.len(),
                at <= k,
                r@.len() == k,
                ascending(r@),
                forall|j: int|
                    at <= j < k ==> values@[k as int].total_rank() < (
                    #[trigger] r@[j]).total_rank(),
            decreases at,
        {
            at = at - 1;
        }
        let ghost before = r@;
        r.insert(at, values[k]);
        proof {
            lemma_insert_value(before, at as int, values@[k as int]);
            let shorter = values@.take(k as int);
            assert(values@.take(k + 1) =~= shorter.push(values@[k as int]));
            vstd::seq_lib::to_multiset_insert(before, at as int, values@[k as int]);
            shorter.to_multiset_ensures();
        }
    }
    assert(values@.take(values@.len() as int) =~= values@);
    r
}

/// Inserting a number behind all that do not exceed it keeps the list ascending.
proof fn lemma_insert_value(values: Seq<Binary64>, at: int, value: Binary64)
    requires
        0 <= at <= values.len(),
        ascending(values),
        forall|j: int|
            at <= j < values.len() ==> value.total_rank() < (#[trigger] values[j]).total_rank(),
        at > 0 ==> !(value.total_rank() < values[at - 1].total_rank()),
    ensures
        ascending(values.insert(at, value)),
{
    let next = values.insert(at, value);
    assert forall|i: int, j: int| 0 <= i < j < next.len() implies (
    #[trigger] next[i]).total_rank() <= (#[trigger] next[j]).total_rank() by {
        if i < at {
            assert(next[i] == values[i]);
            if j < at {
                assert(next[j] == values[j]);
            } else if j == at {
                assert(values[i].total_rank() <= values[at - 1].total_rank());
            } else {
                assert(next[j] == values[j - 1]);
            }
        } else if i == at {
            assert(next[j] == values[j - 1]);
        } else {
            assert(next[i] == values[i - 1]);
            assert(next[j] == values[j - 1]);
        }
    }
}

/// A stable order names every index once, in the order of the keys, and indices of equal
/// keys in their own order.
pub proof fn stable_order_is_a_sorting(keys: &[Binary64], order: Vec<usize>, i: int, j: int)
    requires
        call_ensures(stable_order, (keys,), order),
        0 <= i < j < order@.len(),
    ensures
        order@.len() == keys@.len(),
        order@[i] < keys@.len() && order@[j] < keys@.len(),
        order@[i] != order@[j],
        keys@[order@[i] as int].total_rank() <= keys@[order@[j] as int].total_rank(),
        keys@[order@[i] as int].total_rank() == keys@[order@[j] as int].total_rank() ==> order@[i]
            < order@[j],
        keys@[order@[j] as int].below(keys@[order@[i] as int]) ==> false,
{
    assert(comes_before(keys@, order@[i] as int, order@[j] as int));
    crate::binary64::total_order_refines_numeric_order(
        keys@[order@[j] as int],
        keys@[order@[i] as int],
    );
}

/// Sorting keeps every value as often as it occurs, and puts no value behind a smaller
/// one.
pub proof fn sorting_keeps_the_values(values: &[Binary64], r: Vec<Binary64>, v: Binary64, i: int, j: int)
    requires
        call_ensures(sorted, (values,), r),
        0 <= i < j < r@.len(),
    ensures
        r@.len() == values@.len(),
        r@.to_multiset().count(v) == values@.to_multiset().count(v),
        r@[i].total_rank() <= r@[j].total_rank(),
        !r@[j].below(r@[i]),
{
    crate::binary64::total_order_refines_numeric_order(r@[j], r@[i]);
}

} // verus!
