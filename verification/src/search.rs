//! First positions at which a condition holds.

use vstd::prelude::*;

verus! {

/// The least index below `n` at which `p` holds, where there is one.
pub open spec fn first(n: nat, p: spec_fn(int) -> bool) -> Option<int>
    decreases n,
{
    if n == 0 {
        None
    } else {
        match first((n - 1) as nat, p) {
            Some(i) => Some(i),
            None => if p(n - 1) {
                Some(n - 1)
            } else {
                None
            },
        }
    }
}

/// An index at which `p` holds for the first time is the one `first` gives.
pub proof fn lemma_first_is(n: nat, p: spec_fn(int) -> bool, i: int)
    requires
        0 <= i < n,
        p(i),
        forall|j: int| 0 <= j < i ==> !#[trigger] p(j),
    ensures
        first(n, p) == Some(i),
    decreases n,
{
    if i < n - 1 {
        lemma_first_is((n - 1) as nat, p, i);
    } else {
        lemma_first_none((n - 1) as nat, p);
    }
}

/// Where `p` holds nowhere, `first` gives nothing.
pub proof fn lemma_first_none(n: nat, p: spec_fn(int) -> bool)
    requires
        forall|j: int| 0 <= j < n ==> !#[trigger] p(j),
    ensures
        first(n, p) is None,
    decreases n,
{
    if n > 0 {
        lemma_first_none((n - 1) as nat, p);
        assert(!p(n - 1));
    }
}

/// What `first` gives is an index at which `p` holds, and holds at none before.
pub proof fn lemma_first_holds(n: nat, p: spec_fn(int) -> bool)
    ensures
        match first(n, p) {
            Some(i) => 0 <= i < n && p(i) && forall|j: int| 0 <= j < i ==> !#[trigger] p(j),
            None => forall|j: int| 0 <= j < n ==> !#[trigger] p(j),
        },
    decreases n,
{
    if n > 0 {
        lemma_first_holds((n - 1) as nat, p);
    }
}

} // verus!
