//! The draw of structures from the default structural prior: which dimension subsets
//! there are, which one a draw picks, which coordinate laws are sampled in what order,
//! and when rejection sampling ends.

use crate::binary64::Binary64;
use crate::engine::tessellation::incoherence;
use crate::search::{first, lemma_first_holds, lemma_first_is, lemma_first_none};
use vstd::prelude::*;

verus! {

/// How many structures are drawn before a support is held to be unreachable.
pub const MAX_ATTEMPTS: usize = 100000;

/// A strictly ascending list of `d` numbers from `start` up to, not including, `p`.
pub open spec fn is_subset(s: Seq<usize>, start: int, p: int, d: nat) -> bool {
    &&& s.len() == d
    &&& forall|i: int| 0 <= i < s.len() ==> start <= #[trigger] s[i] < p
    &&& forall|i: int, j: int| 0 <= i < j < s.len() ==> #[trigger] s[i] < #[trigger] s[j]
}

/// Does `a` come before `b` in lexicographic order? For lists of one length.
pub open spec fn lexicographic(a: Seq<usize>, b: Seq<usize>) -> bool {
    exists|k: int|
        #![trigger a[k], b[k]]
        0 <= k < a.len() && k < b.len() && a[k] < b[k] && forall|i: int|
            #![trigger a[i]]
            0 <= i < k ==> a[i] == b[i]
}

/// The list holds every subset once, in lexicographic order.
pub open spec fn lists_subsets(list: Seq<Vec<usize>>, start: int, p: int, d: nat) -> bool {
    &&& forall|i: int| 0 <= i < list.len() ==> is_subset((#[trigger] list[i])@, start, p, d)
    &&& forall|s: Seq<usize>|
        #[trigger] is_subset(s, start, p, d) ==> exists|i: int|
            0 <= i < list.len() && (#[trigger] list[i])@ == s
    &&& forall|i: int, j: int|
        0 <= i < j < list.len() ==> lexicographic(
            (#[trigger] list[i])@,
            (#[trigger] list[j])@,
        )
}

/// All subsets of `d` numbers below `p`, each in ascending order, in lexicographic
/// order.
pub fn all_subsets(p: usize, d: usize) -> (r: Vec<Vec<usize>>)
    ensures
        lists_subsets(r@, 0, p as int, d as nat),
{
    subsets_from(0, p, d)
}

/// All subsets of `d` numbers from `start` up to `p`.
fn subsets_from(start: usize, p: usize, d: usize) -> (r: Vec<Vec<usize>>)
    requires
        start <= p,
    ensures
        lists_subsets(r@, start as int, p as int, d as nat),
    decreases p - start,
{
    if d == 0 {
        let empty: Vec<usize> = Vec::new();
        let mut all: Vec<Vec<usize>> = Vec::new();
        all.push(empty);
        proof {
            assert forall|s: Seq<usize>|
                #[trigger] is_subset(s, start as int, p as int, d as nat) implies exists|i: int|
                0 <= i < all@.len() && (#[trigger] all@[i])@ == s by {
                assert(all@[0]@ =~= s);
            }
        }
        return all;
    }
    if start == p {
        let all: Vec<Vec<usize>> = Vec::new();
        proof {
            assert forall|s: Seq<usize>|
                #[trigger] is_subset(s, start as int, p as int, d as nat) implies false by {
                assert(start <= s[0] < p);
            }
        }
        return all;
    }
    let tails = subsets_from(start + 1, p, d - 1);
    let others = subsets_from(start + 1, p, d);
    let with_start = prepend(start, &tails);
    let mut all = with_start;
    let ghost front = all@;
    append(&mut all, &others);
    proof {
        lemma_split(front, tails@, others@, all@, start, p, d);
    }
    all
}

/// Every list with `start` in front.
fn prepend(start: usize, tails: &Vec<Vec<usize>>) -> (r: Vec<Vec<usize>>)
    ensures
        r@.len() == tails@.len(),
        forall|i: int| 0 <= i < r@.len() ==> (#[trigger] r@[i])@ == seq![start] + tails@[i]@,
{
    let mut r: Vec<Vec<usize>> = Vec::new();
    for i in 0..tails.len()
        invariant
            r@.len() == i,
            forall|k: int| 0 <= k < i ==> (#[trigger] r@[k])@ == seq![start] + tails@[k]@,
    {
        let mut list: Vec<usize> = Vec::new();
        list.push(start);
        let tail = &tails[i];
        assert(list@ =~= seq![start] + tail@.take(0));
        for j in 0..tail.len()
            invariant
                list@ == seq![start] + tail@.take(j as int),
        {
            list.push(tail[j]);
            assert(list@ =~= seq![start] + tail@.take(j + 1));
        }
        assert(tail@.take(tail@.len() as int) =~= tail@);
        r.push(list);
    }
    r
}

/// Append copies of lists.
fn append(all: &mut Vec<Vec<usize>>, others: &Vec<Vec<usize>>)
    ensures
        final(all)@.len() == old(all)@.len() + others@.len(),
        forall|i: int|
            0 <= i < old(all)@.len() ==> #[trigger] final(all)@[i] == old(all)@[i],
        forall|i: int|
            0 <= i < others@.len() ==> (#[trigger] final(all)@[old(all)@.len() + i])@
                == others@[i]@,
{
    let ghost before = all@;
    for k in 0..others.len()
        invariant
            all@.len() == before.len() + k,
            forall|i: int| 0 <= i < before.len() ==> #[trigger] all@[i] == before[i],
            forall|i: int|
                0 <= i < k ==> (#[trigger] all@[before.len() + i])@ == others@[i]@,
    {
        let copy = others[k].clone();
        assert(copy@ =~= others@[k as int]@);
        all.push(copy);
    }
}

/// The subsets that hold `start`, then those that do not, are all subsets.
proof fn lemma_split(
    front: Seq<Vec<usize>>,
    tails: Seq<Vec<usize>>,
    others: Seq<Vec<usize>>,
    all: Seq<Vec<usize>>,
    start: usize,
    p: usize,
    d: usize,
)
    requires
        start < p,
        d > 0,
        lists_subsets(tails, start + 1, p as int, (d - 1) as nat),
        lists_subsets(others, start + 1, p as int, d as nat),
        front.len() == tails.len(),
        forall|i: int|
            0 <= i < front.len() ==> (#[trigger] front[i])@ == seq![start] + tails[i]@,
        all.len() == front.len() + others.len(),
        forall|i: int| 0 <= i < front.len() ==> #[trigger] all[i] == front[i],
        forall|i: int|
            0 <= i < others.len() ==> (#[trigger] all[front.len() + i])@ == others[i]@,
    ensures
        lists_subsets(all, start as int, p as int, d as nat),
{
    let n = front.len() as int;
    assert forall|i: int| 0 <= i < all.len() implies is_subset(
        (#[trigger] all[i])@,
        start as int,
        p as int,
        d as nat,
    ) by {
        if i < n {
            let tail = tails[i]@;
            let whole = all[i]@;
            assert(is_subset(tail, start + 1, p as int, (d - 1) as nat));
            assert(whole == seq![start] + tail);
            assert forall|a: int| 0 <= a < whole.len() implies start <= #[trigger] whole[a] < p by {
                if a > 0 {
                    assert(whole[a] == tail[a - 1]);
                }
            }
            assert forall|a: int, b: int| 0 <= a < b < whole.len() implies #[trigger] whole[a]
                < #[trigger] whole[b] by {
                assert(whole[b] == tail[b - 1]);
                if a > 0 {
                    assert(whole[a] == tail[a - 1]);
                }
            }
        } else {
            assert(all[n + (i - n)]@ == others[i - n]@);
            assert(is_subset(others[i - n]@, start + 1, p as int, d as nat));
        }
    }
    assert forall|s: Seq<usize>|
        #[trigger] is_subset(s, start as int, p as int, d as nat) implies exists|i: int|
        0 <= i < all.len() && (#[trigger] all[i])@ == s by {
        if s[0] == start {
            let tail = s.drop_first();
            assert forall|a: int| 0 <= a < tail.len() implies start + 1 <= #[trigger] tail[a]
                < p by {
                assert(tail[a] == s[a + 1]);
                assert(s[0] < s[a + 1]);
            }
            assert forall|a: int, b: int| 0 <= a < b < tail.len() implies #[trigger] tail[a]
                < #[trigger] tail[b] by {
                assert(s[a + 1] < s[b + 1]);
            }
            assert(is_subset(tail, start + 1, p as int, (d - 1) as nat));
            let i = choose|i: int| 0 <= i < tails.len() && (#[trigger] tails[i])@ == tail;
            assert(front[i]@ == seq![start] + tail);
            assert(s =~= seq![start] + tail);
            assert(all[i]@ == s);
        } else {
            assert(start <= s[0]);
            assert forall|a: int| 0 <= a < s.len() implies start + 1 <= #[trigger] s[a] < p by {
                if a > 0 {
                    assert(s[0] < s[a]);
                }
            }
            assert(is_subset(s, start + 1, p as int, d as nat));
            let i = choose|i: int| 0 <= i < others.len() && (#[trigger] others[i])@ == s;
            assert(all[n + i]@ == s);
        }
    }
    assert forall|i: int, j: int| 0 <= i < j < all.len() implies lexicographic(
        (#[trigger] all[i])@,
        (#[trigger] all[j])@,
    ) by {
        let (a, b) = (all[i]@, all[j]@);
        if j < n {
            let (x, y) = (tails[i]@, tails[j]@);
            assert(a == seq![start] + x);
            assert(b == seq![start] + y);
            assert(lexicographic(x, y));
            let k = choose|k: int|
                #![trigger x[k], y[k]]
                0 <= k < x.len() && k < y.len() && x[k] < y[k] && forall|i: int|
                    #![trigger x[i]]
                    0 <= i < k ==> x[i] == y[i];
            assert(a[k + 1] == x[k] && b[k + 1] == y[k]);
            assert forall|m: int|
                #![trigger a[m]]
                0 <= m < k + 1 implies a[m] == b[m] by {
                if m > 0 {
                    assert(a[m] == x[m - 1] && b[m] == y[m - 1]);
                }
            }
        } else if i < n {
            assert(a == seq![start] + tails[i]@);
            assert(b == others[j - n]@) by {
                assert(all[n + (j - n)]@ == others[j - n]@);
            }
            assert(is_subset(others[j - n]@, start + 1, p as int, d as nat));
            assert(a[0] < b[0]);
        } else {
            assert(all[n + (i - n)]@ == others[i - n]@);
            assert(all[n + (j - n)]@ == others[j - n]@);
            assert(lexicographic(others[i - n]@, others[j - n]@));
        }
    }
}

/// A subset occurs once only: two places of the list hold different subsets.
pub proof fn subsets_are_distinct(
    list: Seq<Vec<usize>>,
    start: int,
    p: int,
    d: nat,
    i: int,
    j: int,
)
    requires
        lists_subsets(list, start, p, d),
        0 <= i < j < list.len(),
    ensures
        list[i]@ != list[j]@,
{
    assert(lexicographic(list[i]@, list[j]@));
}

/// No list comes before another one that comes before it.
proof fn lemma_lexicographic_is_strict(a: Seq<usize>, b: Seq<usize>)
    requires
        lexicographic(a, b),
    ensures
        !lexicographic(b, a),
        a != b,
{
    let k = choose|k: int|
        #![trigger a[k], b[k]]
        0 <= k < a.len() && k < b.len() && a[k] < b[k] && forall|i: int|
            #![trigger a[i]]
            0 <= i < k ==> a[i] == b[i];
    if lexicographic(b, a) {
        let m = choose|m: int|
            #![trigger b[m], a[m]]
            0 <= m < b.len() && m < a.len() && b[m] < a[m] && forall|i: int|
                #![trigger b[i]]
                0 <= i < m ==> b[i] == a[i];
        if k < m {
            assert(b[k] == a[k]);
        } else if m < k {
            assert(a[m] == b[m]);
        }
    }
}

/// The entries of the list, as sequences.
pub open spec fn entries(list: Seq<Vec<usize>>) -> Seq<Seq<usize>> {
    list.map_values(|v: Vec<usize>| v@)
}

/// The sequences are every subset once, in lexicographic order.
spec fn enumerates(all: Seq<Seq<usize>>, start: int, p: int, d: nat) -> bool {
    &&& forall|i: int| 0 <= i < all.len() ==> is_subset(#[trigger] all[i], start, p, d)
    &&& forall|s: Seq<usize>| #[trigger] is_subset(s, start, p, d) ==> all.contains(s)
    &&& ascends(all)
}

/// Each sequence comes before the later ones.
spec fn ascends(all: Seq<Seq<usize>>) -> bool {
    forall|i: int, j: int|
        0 <= i < j < all.len() ==> lexicographic(#[trigger] all[i], #[trigger] all[j])
}

/// The entries of a list of all subsets are every subset once, in order.
proof fn lemma_entries(list: Seq<Vec<usize>>, start: int, p: int, d: nat)
    requires
        lists_subsets(list, start, p, d),
    ensures
        enumerates(entries(list), start, p, d),
{
    let all = entries(list);
    assert forall|i: int| 0 <= i < all.len() implies is_subset(#[trigger] all[i], start, p, d) by {
        assert(all[i] == list[i]@);
    }
    assert forall|s: Seq<usize>| #[trigger] is_subset(s, start, p, d) implies all.contains(s) by {
        let i = choose|i: int| 0 <= i < list.len() && (#[trigger] list[i])@ == s;
        assert(all[i] == s);
    }
    assert forall|i: int, j: int| 0 <= i < j < all.len() implies lexicographic(
        #[trigger] all[i],
        #[trigger] all[j],
    ) by {
        assert(lexicographic(list[i]@, list[j]@));
    }
}

/// The list of subsets is determined: a second one holds the same subsets at the same
/// places.
pub proof fn subset_list_is_unique(
    a: Seq<Vec<usize>>,
    b: Seq<Vec<usize>>,
    start: int,
    p: int,
    d: nat,
)
    requires
        lists_subsets(a, start, p, d),
        lists_subsets(b, start, p, d),
    ensures
        a.len() == b.len(),
        forall|i: int| 0 <= i < a.len() ==> (#[trigger] a[i])@ == b[i]@,
{
    lemma_entries(a, start, p, d);
    lemma_entries(b, start, p, d);
    lemma_enumeration_is_unique(entries(a), entries(b), start, p, d);
    assert(entries(a).len() == a.len() && entries(b).len() == b.len());
    assert forall|i: int| 0 <= i < a.len() implies (#[trigger] a[i])@ == b[i]@ by {
        assert(entries(a)[i] == a[i]@ && entries(b)[i] == b[i]@);
    }
}

/// Two enumerations of the same subsets are the same.
proof fn lemma_enumeration_is_unique(
    a: Seq<Seq<usize>>,
    b: Seq<Seq<usize>>,
    start: int,
    p: int,
    d: nat,
)
    requires
        enumerates(a, start, p, d),
        enumerates(b, start, p, d),
    ensures
        a == b,
{
    lemma_same_up_to(a, b, start, p, d, a.len());
    lemma_same_up_to(b, a, start, p, d, b.len());
    assert(a =~= b);
}

/// The first `n` subsets of one enumeration are those of the other.
proof fn lemma_same_up_to(
    a: Seq<Seq<usize>>,
    b: Seq<Seq<usize>>,
    start: int,
    p: int,
    d: nat,
    n: nat,
)
    requires
        enumerates(a, start, p, d),
        enumerates(b, start, p, d),
        n <= a.len(),
    ensures
        n <= b.len(),
        forall|i: int| 0 <= i < n ==> #[trigger] a[i] == b[i],
    decreases n,
{
    if n > 0 {
        let i = n - 1;
        lemma_same_up_to(a, b, start, p, d, i as nat);
        assert(is_subset(a[i], start, p, d));
        let j = choose|j: int| 0 <= j < b.len() && #[trigger] b[j] == a[i];
        if j < i {
            assert(a[j] == b[j]);
            lemma_lexicographic_is_strict(a[j], a[i]);
        } else if j > i {
            assert(is_subset(b[i], start, p, d));
            let k = choose|k: int| 0 <= k < a.len() && #[trigger] a[k] == b[i];
            if k < i {
                assert(a[k] == b[k]);
                lemma_lexicographic_is_strict(b[k], b[i]);
            } else if k > i {
                lemma_lexicographic_is_strict(a[i], a[k]);
                assert(lexicographic(b[i], b[j]));
            }
        }
    }
}

/// Leaving sequences out keeps the others, in order.
proof fn lemma_kept(all: Seq<Seq<usize>>, keep: spec_fn(Seq<usize>) -> bool)
    requires
        ascends(all),
    ensures
        ascends(all.filter(keep)),
        forall|i: int|
            0 <= i < all.filter(keep).len() ==> keep(#[trigger] all.filter(keep)[i])
                && all.contains(all.filter(keep)[i]),
        forall|i: int|
            0 <= i < all.len() && keep(#[trigger] all[i]) ==> all.filter(keep).contains(all[i]),
    decreases all.len(),
{
    reveal(Seq::filter);
    if all.len() > 0 {
        let front = all.drop_last();
        let last = all.last();
        lemma_kept(front, keep);
        let kept = front.filter(keep);
        let whole = all.filter(keep);
        assert forall|i: int| 0 <= i < whole.len() implies keep(#[trigger] whole[i])
            && all.contains(whole[i]) by {
            if i < kept.len() {
                assert(whole[i] == kept[i]);
                let j = choose|j: int| 0 <= j < front.len() && front[j] == kept[i];
                assert(all[j] == whole[i]);
            } else {
                assert(all[all.len() - 1] == whole[i]);
            }
        }
        assert forall|i: int| 0 <= i < all.len() && keep(#[trigger] all[i]) implies whole.contains(
            all[i],
        ) by {
            if i < front.len() {
                assert(front[i] == all[i]);
                let j = choose|j: int| 0 <= j < kept.len() && kept[j] == front[i];
                assert(whole[j] == all[i]);
            } else {
                assert(whole[kept.len() as int] == last);
            }
        }
        assert forall|i: int, j: int| 0 <= i < j < whole.len() implies lexicographic(
            #[trigger] whole[i],
            #[trigger] whole[j],
        ) by {
            assert(whole[i] == kept[i]);
            if j < kept.len() {
                assert(whole[j] == kept[j]);
            } else {
                let k = choose|k: int| 0 <= k < front.len() && front[k] == kept[i];
                assert(lexicographic(all[k], all[all.len() - 1]));
            }
        }
    }
}

/// A subset of columns below `p` either leaves the last column out, and is one of the
/// columns below it, or ends in it.
proof fn lemma_last_column(s: Seq<usize>, p: usize, d: nat)
    requires
        is_subset(s, 0, p as int, d),
        1 <= d,
        1 <= p,
    ensures
        s.contains((p - 1) as usize) <==> s.last() == p - 1,
        !s.contains((p - 1) as usize) ==> is_subset(s, 0, p - 1, d),
        s.contains((p - 1) as usize) ==> is_subset(s.drop_last(), 0, p - 1, (d - 1) as nat),
{
    let last = (p - 1) as usize;
    assert forall|i: int| 0 <= i < s.len() - 1 implies #[trigger] s[i] < p - 1 by {
        assert(s[i] < s[s.len() - 1]);
    }
    if s.contains(last) {
        let i = choose|i: int| 0 <= i < s.len() && s[i] == last;
        assert(i == s.len() - 1);
        let rest = s.drop_last();
        assert forall|i: int| 0 <= i < rest.len() implies 0 <= #[trigger] rest[i] < p - 1 by {
            assert(rest[i] == s[i]);
        }
        assert forall|i: int, j: int| 0 <= i < j < rest.len() implies #[trigger] rest[i]
            < #[trigger] rest[j] by {
            assert(s[i] < s[j]);
        }
    } else {
        assert(s[s.len() - 1] != last);
    }
}

/// The subsets of `d` of `p` columns split on the last column: those without it are, in
/// order, the subsets of `d` of the other columns, and those with it are, with it taken
/// off and in order, the subsets of one fewer of the other columns.
pub proof fn subsets_split_on_the_last_column(
    list: Seq<Vec<usize>>,
    without: Seq<Vec<usize>>,
    with_it: Seq<Vec<usize>>,
    p: usize,
    d: nat,
)
    requires
        1 <= d <= p,
        lists_subsets(list, 0, p as int, d),
        lists_subsets(without, 0, p - 1, d),
        lists_subsets(with_it, 0, p - 1, (d - 1) as nat),
    ensures
        entries(list).filter(|s: Seq<usize>| !s.contains((p - 1) as usize)) == entries(without),
        entries(list).filter(|s: Seq<usize>| s.contains((p - 1) as usize)).map_values(
            |s: Seq<usize>| s.drop_last(),
        ) == entries(with_it),
{
    let last = (p - 1) as usize;
    let all = entries(list);
    let lacks = |s: Seq<usize>| !s.contains((p - 1) as usize);
    let holds = |s: Seq<usize>| s.contains((p - 1) as usize);
    lemma_entries(list, 0, p as int, d);
    lemma_entries(without, 0, p - 1, d);
    lemma_entries(with_it, 0, p - 1, (d - 1) as nat);
    lemma_kept(all, lacks);
    lemma_kept(all, holds);
    let lacking = all.filter(lacks);
    assert forall|i: int| 0 <= i < lacking.len() implies is_subset(
        #[trigger] lacking[i],
        0,
        p - 1,
        d,
    ) by {
        lemma_last_column(lacking[i], p, d);
    }
    assert forall|s: Seq<usize>| #[trigger] is_subset(s, 0, p - 1, d) implies lacking.contains(
        s,
    ) by {
        assert(is_subset(s, 0, p as int, d));
        let i = choose|i: int| 0 <= i < all.len() && all[i] == s;
        assert(lacks(all[i]));
    }
    lemma_enumeration_is_unique(lacking, entries(without), 0, p - 1, d);
    let holding = all.filter(holds);
    let cut = holding.map_values(|s: Seq<usize>| s.drop_last());
    assert forall|i: int| 0 <= i < cut.len() implies is_subset(
        #[trigger] cut[i],
        0,
        p - 1,
        (d - 1) as nat,
    ) by {
        assert(holds(holding[i]));
        lemma_last_column(holding[i], p, d);
    }
    assert forall|s: Seq<usize>| #[trigger]
        is_subset(s, 0, p - 1, (d - 1) as nat) implies cut.contains(s) by {
        let whole = s.push(last);
        assert(is_subset(whole, 0, p as int, d)) by {
            assert forall|i: int, j: int| 0 <= i < j < whole.len() implies #[trigger] whole[i]
                < #[trigger] whole[j] by {
                if j < s.len() {
                    assert(s[i] < s[j]);
                } else {
                    assert(s[i] < p - 1);
                }
            }
        }
        let i = choose|i: int| 0 <= i < all.len() && all[i] == whole;
        assert(whole[s.len() as int] == last);
        assert(holds(all[i]));
        let j = choose|j: int| 0 <= j < holding.len() && holding[j] == all[i];
        assert(whole.drop_last() =~= s);
        assert(cut[j] == s);
    }
    assert forall|i: int, j: int| 0 <= i < j < cut.len() implies lexicographic(
        #[trigger] cut[i],
        #[trigger] cut[j],
    ) by {
        let (a, b) = (holding[i], holding[j]);
        assert(holds(a) && holds(b));
        lemma_last_column(a, p, d);
        lemma_last_column(b, p, d);
        assert(lexicographic(a, b));
        let k = choose|k: int|
            #![trigger a[k], b[k]]
            0 <= k < a.len() && k < b.len() && a[k] < b[k] && forall|i: int|
                #![trigger a[i]]
                0 <= i < k ==> a[i] == b[i];
        assert(k < d - 1);
        assert(cut[i][k] == a[k] && cut[j][k] == b[k]);
        assert forall|m: int| #![trigger cut[i][m]] 0 <= m < k implies cut[i][m] == cut[j][m] by {
            assert(a[m] == b[m]);
        }
    }
    lemma_enumeration_is_unique(cut, entries(with_it), 0, p - 1, (d - 1) as nat);
}

/// There is a subset to draw where no more dimensions are asked for than there are.
pub proof fn there_is_a_subset(list: Seq<Vec<usize>>, p: usize, d: nat)
    requires
        lists_subsets(list, 0, p as int, d),
        d <= p,
    ensures
        list.len() > 0,
{
    let s = Seq::new(d, |i: int| i as usize);
    assert(is_subset(s, 0, p as int, d));
}

/// Where the cumulative mass first exceeds the target; the last place where it never
/// does.
pub open spec fn picked(cumulative: Seq<Binary64>, target: Binary64) -> int {
    match first(cumulative.len(), |i: int| target.below(cumulative[i])) {
        Some(i) => i,
        None => cumulative.len() - 1,
    }
}

/// The dimension subset that a draw picks: of all subsets of `d` of the `p` columns,
/// the first whose cumulative mass exceeds the target, or the last one. `cumulative`
/// has one running total per subset, in the order of [`all_subsets`].
pub fn draw_weighted_subset(
    p: usize,
    d: usize,
    cumulative: &[Binary64],
    target: Binary64,
) -> (r: Option<Vec<usize>>)
    ensures
        exists|list: Seq<Vec<usize>>|
            #[trigger] lists_subsets(list, 0, p as int, d as nat) && match r {
                Some(dims) => {
                    &&& list.len() == cumulative@.len()
                    &&& list.len() > 0
                    &&& dims@ == list[picked(cumulative@, target)]@
                },
                None => list.len() != cumulative@.len() || list.len() == 0,
            },
{
    let list = all_subsets(p, d);
    if list.len() != cumulative.len() || list.len() == 0 {
        return None;
    }
    let i: usize = pick(cumulative, target);
    let dims = list[i].clone();
    assert(dims@ =~= list@[i as int]@);
    Some(dims)
}

/// The place that a draw picks.
fn pick(cumulative: &[Binary64], target: Binary64) -> (r: usize)
    requires
        cumulative@.len() > 0,
    ensures
        r == picked(cumulative@, target),
        r < cumulative@.len(),
{
    let ghost hit = |i: int| target.below(cumulative@[i]);
    for i in 0..cumulative.len()
        invariant
            hit == (|i: int| target.below(cumulative@[i])),
            forall|j: int| 0 <= j < i ==> !#[trigger] hit(j),
    {
        if target.is_below(cumulative[i]) {
            proof {
                assert(hit(i as int));
                lemma_first_is(cumulative@.len(), hit, i as int);
            }
            return i;
        }
        assert(!hit(i as int));
    }
    proof {
        lemma_first_none(cumulative@.len(), hit);
    }
    cumulative.len() - 1
}

/// The columns whose laws are sampled for the first `k` centres.
pub open spec fn plan(dims: Seq<usize>, k: nat) -> Seq<usize>
    decreases k,
{
    if k == 0 {
        Seq::empty()
    } else {
        plan(dims, (k - 1) as nat) + dims
    }
}

/// Which column's coordinate law each centre coordinate is drawn from, in the order
/// of the draws: centre by centre, and within a centre dimension by dimension.
pub fn coordinate_plan(cells: usize, dims: &Vec<usize>) -> (r: Vec<usize>)
    ensures
        r@ == plan(dims@, cells as nat),
{
    let mut columns: Vec<usize> = Vec::new();
    for c in 0..cells
        invariant
            columns@ == plan(dims@, c as nat),
    {
        let ghost so_far = columns@;
        assert(so_far + dims@.take(0) =~= so_far);
        for k in 0..dims.len()
            invariant
                columns@ == so_far + dims@.take(k as int),
        {
            columns.push(dims[k]);
            assert(columns@ =~= so_far + dims@.take(k + 1));
        }
        assert(dims@.take(dims@.len() as int) =~= dims@);
    }
    columns
}

/// There is one coordinate per centre and dimension, and coordinate `k` of centre `c`
/// is drawn from the law of dimension `k`.
pub proof fn every_centre_covers_its_dimensions(dims: Seq<usize>, cells: nat, c: nat, k: nat)
    requires
        c < cells,
        k < dims.len(),
    ensures
        plan(dims, cells).len() == cells * dims.len(),
        c * dims.len() + k < cells * dims.len(),
        plan(dims, cells)[(c * dims.len() + k) as int] == dims[k as int],
    decreases cells,
{
    let d = dims.len();
    lemma_plan_len(dims, cells);
    lemma_plan_len(dims, (cells - 1) as nat);
    assert(c * d + k < cells * d) by (nonlinear_arith)
        requires
            c < cells,
            k < d,
    ;
    if c == cells - 1 {
        assert(plan(dims, cells)[(c * d + k) as int] == dims[k as int]);
    } else {
        every_centre_covers_its_dimensions(dims, (cells - 1) as nat, c, k);
    }
}

/// How many coordinates a plan has.
proof fn lemma_plan_len(dims: Seq<usize>, k: nat)
    ensures
        plan(dims, k).len() == k * dims.len(),
    decreases k,
{
    if k > 0 {
        lemma_plan_len(dims, (k - 1) as nat);
        let d = dims.len();
        assert((k - 1) * d + d == k * d) by (nonlinear_arith);
    } else {
        assert(0 * dims.len() == 0) by (nonlinear_arith);
    }
}

/// What is drawn by the plan is coherent: a dimension subset, the coordinates of at
/// least one centre over it, and a positive number of values per cell.
pub proof fn drawn_structures_are_coherent(
    dims: Seq<usize>,
    p: int,
    cells: nat,
    width: nat,
    centres: Seq<Binary64>,
    values: Seq<Binary64>,
)
    requires
        is_subset(dims, 0, p, dims.len()),
        dims.len() >= 1,
        cells >= 1,
        width >= 1,
        centres.len() == plan(dims, cells).len(),
        values.len() == cells * width,
    ensures
        incoherence(centres, dims, values) is None,
        centres.len() / dims.len() == cells,
        values.len() / cells == width,
{
    let d = dims.len();
    lemma_plan_len(dims, cells);
    vstd::arithmetic::div_mod::lemma_div_multiples_vanish(cells as int, d as int);
    vstd::arithmetic::div_mod::lemma_mod_multiples_basic(cells as int, d as int);
    vstd::arithmetic::div_mod::lemma_div_multiples_vanish(width as int, cells as int);
    vstd::arithmetic::div_mod::lemma_mod_multiples_basic(width as int, cells as int);
    assert(cells * d >= d) by (nonlinear_arith)
        requires
            cells >= 1,
    ;
    assert(cells * width >= cells) by (nonlinear_arith)
        requires
            width >= 1,
    ;
    assert(d * cells == cells * d) by (nonlinear_arith);
    assert(cells * width == width * cells) by (nonlinear_arith);
    assert(dims.no_duplicates());
}

/// What follows a drawn structure.
#[derive(Debug, Clone, Copy, PartialEq, Eq, Structural)]
pub enum Attempt {
    /// The structure lies in the support: it is the draw.
    Accept,
    /// It does not, and another one is drawn.
    Again,
    /// It does not, and no more are drawn.
    GiveUp,
}

/// What follows the structure of the given attempt, counted from zero.
pub fn after_attempt(attempt: usize, supported: bool) -> (r: Attempt)
    ensures
        r == (if supported {
            Attempt::Accept
        } else if attempt + 1 < MAX_ATTEMPTS {
            Attempt::Again
        } else {
            Attempt::GiveUp
        }),
{
    if supported {
        Attempt::Accept
    } else if attempt < MAX_ATTEMPTS - 1 {
        Attempt::Again
    } else {
        Attempt::GiveUp
    }
}

/// The subsets of size `d` of the first `p` columns are listed: each in rising order, each
/// once, and none is missing.
pub proof fn every_subset_is_listed_once(
    p: usize,
    d: usize,
    r: Vec<Vec<usize>>,
    s: Seq<usize>,
    i: int,
    j: int,
)
    requires
        call_ensures(all_subsets, (p, d), r),
        0 <= i < j < r@.len(),
    ensures
        r@[i]@.len() == d,
        forall|k: int| 0 <= k < d ==> #[trigger] r@[i]@[k] < p,
        forall|k: int, m: int| 0 <= k < m < d ==> #[trigger] r@[i]@[k] < #[trigger] r@[i]@[m],
        r@[i]@ != r@[j]@,
        s.len() == d && (forall|k: int| 0 <= k < d ==> #[trigger] s[k] < p) && (forall|
            k: int,
            m: int,
        |
            0 <= k < m < d ==> #[trigger] s[k] < #[trigger] s[m]) ==> exists|at: int|
            0 <= at < r@.len() && (#[trigger] r@[at])@ == s,
        exists|k: int|
            #![trigger r@[i]@[k], r@[j]@[k]]
            0 <= k < d && r@[i]@[k] < r@[j]@[k] && forall|m: int|
                0 <= m < k ==> #[trigger] r@[i]@[m] == r@[j]@[m],
{
    assert(is_subset(r@[i]@, 0, p as int, d as nat));
    assert(is_subset(r@[j]@, 0, p as int, d as nat));
    assert(lexicographic(r@[i]@, r@[j]@));
    let (a, b) = (r@[i]@, r@[j]@);
    let k = choose|k: int|
        #![trigger a[k], b[k]]
        0 <= k < a.len() && k < b.len() && a[k] < b[k] && forall|m: int|
            #![trigger a[m]]
            0 <= m < k ==> a[m] == b[m];
    assert(r@[i]@[k] < r@[j]@[k]);
    subsets_are_distinct(r@, 0, p as int, d as nat, i, j);
    if s.len() == d && (forall|k: int| 0 <= k < d ==> #[trigger] s[k] < p) && (forall|
        k: int,
        m: int,
    |
        0 <= k < m < d ==> #[trigger] s[k] < #[trigger] s[m]) {
        assert(is_subset(s, 0, p as int, d as nat));
    }
}

/// A subset is drawn by its share: it is the first one whose cumulated weight lies above
/// the target, and the last one where none does. Nothing is drawn where there is not one
/// weight for each subset, or no subset.
pub proof fn drawn_subset_is_the_first_above_the_target(
    p: usize,
    d: usize,
    cumulative: &[Binary64],
    target: Binary64,
    list: Vec<Vec<usize>>,
    r: Option<Vec<usize>>,
)
    requires
        call_ensures(all_subsets, (p, d), list),
        call_ensures(draw_weighted_subset, (p, d, cumulative, target), r),
    ensures
        r is Some <==> list@.len() == cumulative@.len() && list@.len() > 0,
        r matches Some(dims) ==> exists|i: int|
            {
                &&& 0 <= i < list@.len()
                &&& dims@ == (#[trigger] list@[i])@
                &&& forall|j: int| 0 <= j < i ==> !target.below(#[trigger] cumulative@[j])
                &&& target.below(cumulative@[i]) || i == list@.len() - 1
            },
{
    let other = choose|other: Seq<Vec<usize>>|
        #[trigger] lists_subsets(other, 0, p as int, d as nat) && match r {
            Some(dims) => {
                &&& other.len() == cumulative@.len()
                &&& other.len() > 0
                &&& dims@ == other[picked(cumulative@, target)]@
            },
            None => other.len() != cumulative@.len() || other.len() == 0,
        };
    subset_list_is_unique(list@, other, 0, p as int, d as nat);
    let hit = |i: int| target.below(cumulative@[i]);
    lemma_first_holds(cumulative@.len(), hit);
    if r is Some {
        let i = picked(cumulative@, target);
        assert(list@[i]@ == other[i]@);
        assert forall|j: int| 0 <= j < i implies !target.below(#[trigger] cumulative@[j]) by {
            assert(!hit(j));
        }
        if first(cumulative@.len(), hit) is Some {
            assert(hit(i));
        }
    }
}

/// Coordinates are sampled centre by centre, and within a centre in the order of its
/// dimensions.
pub proof fn coordinates_are_planned_centre_by_centre(
    cells: usize,
    dims: &Vec<usize>,
    r: Vec<usize>,
    c: nat,
    k: nat,
)
    requires
        call_ensures(coordinate_plan, (cells, dims), r),
        c < cells,
        k < dims@.len(),
    ensures
        r@.len() == cells * dims@.len(),
        r@[(c * dims@.len() + k) as int] == dims@[k as int],
{
    every_centre_covers_its_dimensions(dims@, cells as nat, c, k);
}

/// A supported structure is accepted whatever the attempt; an unsupported one is tried
/// again up to a hundred thousand attempts in all, and then given up.
pub proof fn attempts_end_with_support_or_the_limit(attempt: usize, supported: bool, r: Attempt)
    requires
        call_ensures(after_attempt, (attempt, supported), r),
    ensures
        r is Accept <==> supported,
        r is Again <==> !supported && attempt + 1 < 100000,
        r is GiveUp <==> !supported && attempt + 1 >= 100000,
{
}

} // verus!
