//! How often the ensembles of a posterior split on each raw column.

use crate::engine::posterior::PosteriorSamples;
use crate::engine::tessellation::Tessellation;
use vstd::prelude::*;

verus! {

/// How many of the first `k` dimensions map to column `c`.
pub open spec fn uses_in_dims(dims: Seq<usize>, col_map: Seq<usize>, c: int, k: nat) -> nat
    decreases k,
{
    if k == 0 {
        0
    } else {
        uses_in_dims(dims, col_map, c, (k - 1) as nat) + if col_map[dims[k - 1] as int] == c {
            1nat
        } else {
            0nat
        }
    }
}

/// How often the first `k` tessellations split on column `c`.
pub open spec fn uses_in_draw(
    tessellations: Seq<Tessellation>,
    col_map: Seq<usize>,
    c: int,
    k: nat,
) -> nat
    decreases k,
{
    if k == 0 {
        0
    } else {
        uses_in_draw(tessellations, col_map, c, (k - 1) as nat) + uses_in_dims(
            tessellations[k - 1]@.dims,
            col_map,
            c,
            tessellations[k - 1]@.dims.len(),
        )
    }
}

/// How often the tessellations of the first `k` draws split on column `c`.
pub open spec fn uses_in_draws(
    draws: Seq<Vec<Tessellation>>,
    col_map: Seq<usize>,
    c: int,
    k: nat,
) -> nat
    decreases k,
{
    if k == 0 {
        0
    } else {
        uses_in_draws(draws, col_map, c, (k - 1) as nat) + uses_in_draw(
            draws[k - 1]@,
            col_map,
            c,
            draws[k - 1]@.len(),
        )
    }
}

/// How many dimensions the first `k` tessellations have.
pub open spec fn dims_in_draw(tessellations: Seq<Tessellation>, k: nat) -> nat
    decreases k,
{
    if k == 0 {
        0
    } else {
        dims_in_draw(tessellations, (k - 1) as nat) + tessellations[k - 1]@.dims.len()
    }
}

/// How many dimensions the tessellations of the first `k` draws have.
pub open spec fn dims_in_draws(draws: Seq<Vec<Tessellation>>, k: nat) -> nat
    decreases k,
{
    if k == 0 {
        0
    } else {
        dims_in_draws(draws, (k - 1) as nat) + dims_in_draw(draws[k - 1]@, draws[k - 1]@.len())
    }
}

/// Every dimension maps to a column below `n_raw`.
pub open spec fn maps_draw(
    tessellations: Seq<Tessellation>,
    col_map: Seq<usize>,
    n_raw: nat,
) -> bool {
    forall|t: int, i: int|
        0 <= t < tessellations.len() && 0 <= i < tessellations[t]@.dims.len() ==> {
            let dim = #[trigger] tessellations[t]@.dims[i];
            dim < col_map.len() && col_map[dim as int] < n_raw
        }
}

/// Every dimension of every draw maps to a column below `n_raw`.
pub open spec fn maps_draws(
    draws: Seq<Vec<Tessellation>>,
    col_map: Seq<usize>,
    n_raw: nat,
) -> bool {
    forall|d: int| 0 <= d < draws.len() ==> maps_draw(#[trigger] draws[d]@, col_map, n_raw)
}

/// No more uses than dimensions.
proof fn lemma_uses_in_dims(dims: Seq<usize>, col_map: Seq<usize>, c: int, k: nat)
    ensures
        uses_in_dims(dims, col_map, c, k) <= k,
    decreases k,
{
    if k > 0 {
        lemma_uses_in_dims(dims, col_map, c, (k - 1) as nat);
    }
}

/// No more uses than dimensions.
proof fn lemma_uses_in_draw(
    tessellations: Seq<Tessellation>,
    col_map: Seq<usize>,
    c: int,
    k: nat,
)
    ensures
        uses_in_draw(tessellations, col_map, c, k) <= dims_in_draw(tessellations, k),
    decreases k,
{
    if k > 0 {
        lemma_uses_in_draw(tessellations, col_map, c, (k - 1) as nat);
        lemma_uses_in_dims(
            tessellations[k - 1]@.dims,
            col_map,
            c,
            tessellations[k - 1]@.dims.len(),
        );
    }
}

/// No more uses than dimensions.
proof fn lemma_uses_in_draws(draws: Seq<Vec<Tessellation>>, col_map: Seq<usize>, c: int, k: nat)
    ensures
        uses_in_draws(draws, col_map, c, k) <= dims_in_draws(draws, k),
    decreases k,
{
    if k > 0 {
        lemma_uses_in_draws(draws, col_map, c, (k - 1) as nat);
        lemma_uses_in_draw(draws[k - 1]@, col_map, c, draws[k - 1]@.len());
    }
}

/// Earlier tessellations have no more dimensions than all of them.
proof fn lemma_dims_in_draw(tessellations: Seq<Tessellation>, k: nat, n: nat)
    requires
        k <= n,
    ensures
        dims_in_draw(tessellations, k) <= dims_in_draw(tessellations, n),
    decreases n,
{
    if k < n {
        lemma_dims_in_draw(tessellations, k, (n - 1) as nat);
    }
}

/// Earlier draws have no more dimensions than all of them.
proof fn lemma_dims_in_draws(draws: Seq<Vec<Tessellation>>, k: nat, n: nat)
    requires
        k <= n,
    ensures
        dims_in_draws(draws, k) <= dims_in_draws(draws, n),
    decreases n,
{
    if k < n {
        lemma_dims_in_draws(draws, k, (n - 1) as nat);
    }
}

/// Add the uses of one tessellation to the counts.
fn count_dims(counts: &mut Vec<u64>, dims: &Vec<usize>, col_map: &[usize])
    requires
        forall|i: int|
            0 <= i < dims@.len() ==> (#[trigger] dims@[i]) < col_map@.len() && col_map@[dims@[i] as int]
                < old(counts)@.len(),
        forall|c: int|
            0 <= c < old(counts)@.len() ==> (#[trigger] old(counts)@[c]) + dims@.len() <= u64::MAX,
    ensures
        final(counts)@.len() == old(counts)@.len(),
        forall|c: int|
            0 <= c < old(counts)@.len() ==> #[trigger] final(counts)@[c] == old(counts)@[c]
                + uses_in_dims(dims@, col_map@, c, dims@.len()),
{
    let ghost before = counts@;
    for i in 0..dims.len()
        invariant
            counts@.len() == before.len(),
            forall|i: int|
                0 <= i < dims@.len() ==> (#[trigger] dims@[i]) < col_map@.len() && col_map@[dims@[i] as int]
                    < before.len(),
            forall|c: int|
                0 <= c < before.len() ==> (#[trigger] before[c]) + dims@.len() <= u64::MAX,
            forall|c: int|
                0 <= c < before.len() ==> #[trigger] counts@[c] == before[c] + uses_in_dims(
                    dims@,
                    col_map@,
                    c,
                    i as nat,
                ),
    {
        assert(dims@[i as int] < col_map@.len());
        let column: usize = col_map[dims[i]];
        proof {
            lemma_uses_in_dims(dims@, col_map@, column as int, i as nat);
            assert(before[column as int] + dims@.len() <= u64::MAX);
        }
        let ghost so_far = counts@;
        let count: u64 = counts[column] + 1;
        counts.set(column, count);
        assert forall|c: int| 0 <= c < before.len() implies #[trigger] counts@[c] == before[c]
            + uses_in_dims(dims@, col_map@, c, (i + 1) as nat) by {
            assert(so_far[c] == before[c] + uses_in_dims(dims@, col_map@, c, i as nat));
        }
    }
}

/// Add the uses of one draw to the counts.
fn count_draw(counts: &mut Vec<u64>, tessellations: &Vec<Tessellation>, col_map: &[usize])
    requires
        maps_draw(tessellations@, col_map@, old(counts)@.len()),
        forall|c: int|
            0 <= c < old(counts)@.len() ==> (#[trigger] old(counts)@[c]) + dims_in_draw(
                tessellations@,
                tessellations@.len(),
            ) <= u64::MAX,
    ensures
        final(counts)@.len() == old(counts)@.len(),
        forall|c: int|
            0 <= c < old(counts)@.len() ==> #[trigger] final(counts)@[c] == old(counts)@[c]
                + uses_in_draw(tessellations@, col_map@, c, tessellations@.len()),
{
    let ghost before = counts@;
    let ghost all = dims_in_draw(tessellations@, tessellations@.len());
    for t in 0..tessellations.len()
        invariant
            counts@.len() == before.len(),
            maps_draw(tessellations@, col_map@, before.len()),
            all == dims_in_draw(tessellations@, tessellations@.len()),
            forall|c: int| 0 <= c < before.len() ==> (#[trigger] before[c]) + all <= u64::MAX,
            forall|c: int|
                0 <= c < before.len() ==> #[trigger] counts@[c] == before[c] + uses_in_draw(
                    tessellations@,
                    col_map@,
                    c,
                    t as nat,
                ),
    {
        let dims = tessellations[t].dims();
        let ghost so_far = counts@;
        proof {
            assert forall|c: int| 0 <= c < so_far.len() implies (#[trigger] so_far[c]) + dims@.len()
                <= u64::MAX by {
                lemma_uses_in_draw(tessellations@, col_map@, c, t as nat);
                lemma_dims_in_draw(tessellations@, (t + 1) as nat, tessellations@.len());
                assert(before[c] + all <= u64::MAX);
            }
            assert forall|i: int| 0 <= i < dims@.len() implies (#[trigger] dims@[i]) < col_map@.len()
                && col_map@[dims@[i] as int] < so_far.len() by {
                assert(tessellations@[t as int]@.dims[i] < col_map@.len());
            }
        }
        count_dims(counts, dims, col_map);
        assert forall|c: int| 0 <= c < before.len() implies #[trigger] counts@[c] == before[c]
            + uses_in_draw(tessellations@, col_map@, c, (t + 1) as nat) by {
            assert(so_far[c] == before[c] + uses_in_draw(tessellations@, col_map@, c, t as nat));
        }
    }
}

/// How often the ensembles of the posterior split on each of `n_raw` columns; the
/// encoded columns of a one-hot group count for their source column.
pub fn inclusion_counts(posterior: &PosteriorSamples, col_map: &[usize], n_raw: usize) -> (r: Vec<
    u64,
>)
    requires
        maps_draws(posterior@.draws, col_map@, n_raw as nat),
        dims_in_draws(posterior@.draws, posterior@.draws.len()) <= u64::MAX,
    ensures
        r@.len() == n_raw,
        forall|c: int|
            0 <= c < n_raw ==> #[trigger] r@[c] == uses_in_draws(
                posterior@.draws,
                col_map@,
                c,
                posterior@.draws.len(),
            ),
{
    let ghost draws = posterior@.draws;
    let mut counts: Vec<u64> = Vec::new();
    for c in 0..n_raw
        invariant
            counts@.len() == c,
            forall|j: int| 0 <= j < c ==> counts@[j] == 0,
    {
        counts.push(0);
    }
    let n: usize = posterior.n_draws();
    for d in 0..n
        invariant
            n == draws.len(),
            draws == posterior@.draws,
            maps_draws(draws, col_map@, n_raw as nat),
            dims_in_draws(draws, draws.len()) <= u64::MAX,
            counts@.len() == n_raw,
            forall|c: int|
                0 <= c < n_raw ==> #[trigger] counts@[c] == uses_in_draws(
                    draws,
                    col_map@,
                    c,
                    d as nat,
                ),
    {
        let tessellations = posterior.tessellations(d);
        let ghost so_far = counts@;
        proof {
            assert(maps_draw(draws[d as int]@, col_map@, n_raw as nat));
            assert forall|c: int| 0 <= c < so_far.len() implies (#[trigger] so_far[c])
                + dims_in_draw(tessellations@, tessellations@.len()) <= u64::MAX by {
                lemma_uses_in_draws(draws, col_map@, c, d as nat);
                lemma_dims_in_draws(draws, (d + 1) as nat, draws.len());
            }
        }
        count_draw(&mut counts, tessellations, col_map);
        assert forall|c: int| 0 <= c < n_raw implies #[trigger] counts@[c] == uses_in_draws(
            draws,
            col_map@,
            c,
            (d + 1) as nat,
        ) by {
            assert(so_far[c] == uses_in_draws(draws, col_map@, c, d as nat));
        }
    }
    counts
}

/// How many dimensions one draw has.
fn draw_dims(tessellations: &Vec<Tessellation>) -> (r: u64)
    requires
        dims_in_draw(tessellations@, tessellations@.len()) <= u64::MAX,
    ensures
        r == dims_in_draw(tessellations@, tessellations@.len()),
{
    let mut total: u64 = 0;
    for t in 0..tessellations.len()
        invariant
            dims_in_draw(tessellations@, tessellations@.len()) <= u64::MAX,
            total == dims_in_draw(tessellations@, t as nat),
    {
        proof {
            lemma_dims_in_draw(tessellations@, (t + 1) as nat, tessellations@.len());
        }
        total = total + tessellations[t].dims().len() as u64;
    }
    total
}

/// How many dimensions the tessellations of the posterior have.
pub fn total_dims(posterior: &PosteriorSamples) -> (r: u64)
    requires
        dims_in_draws(posterior@.draws, posterior@.draws.len()) <= u64::MAX,
    ensures
        r == dims_in_draws(posterior@.draws, posterior@.draws.len()),
{
    let ghost draws = posterior@.draws;
    let mut total: u64 = 0;
    let n: usize = posterior.n_draws();
    for d in 0..n
        invariant
            n == draws.len(),
            draws == posterior@.draws,
            dims_in_draws(draws, draws.len()) <= u64::MAX,
            total == dims_in_draws(draws, d as nat),
    {
        proof {
            lemma_dims_in_draws(draws, (d + 1) as nat, draws.len());
        }
        total = total + draw_dims(posterior.tessellations(d));
    }
    total
}

/// The uses of the first `n` columns, summed.
pub open spec fn total_uses(draws: Seq<Vec<Tessellation>>, col_map: Seq<usize>, n: nat) -> nat
    decreases n,
{
    if n == 0 {
        0
    } else {
        total_uses(draws, col_map, (n - 1) as nat) + uses_in_draws(
            draws,
            col_map,
            n - 1,
            draws.len(),
        )
    }
}

/// Every dimension counts for one column, so the uses of all columns sum to the
/// number of dimensions: shares of it sum to one.
pub proof fn uses_sum_to_the_dimensions(
    draws: Seq<Vec<Tessellation>>,
    col_map: Seq<usize>,
    n_raw: nat,
)
    requires
        maps_draws(draws, col_map, n_raw),
    ensures
        total_uses(draws, col_map, n_raw) == dims_in_draws(draws, draws.len()),
{
    lemma_total_is_sum(draws, col_map, n_raw);
    lemma_sum_in_draws(draws, col_map, n_raw, draws.len());
}

/// A function of columns, summed over the first `n`.
spec fn sum(f: spec_fn(int) -> nat, n: nat) -> nat
    decreases n,
{
    if n == 0 {
        0
    } else {
        sum(f, (n - 1) as nat) + f(n - 1)
    }
}

/// Sums add up.
proof fn lemma_sum_add(
    f: spec_fn(int) -> nat,
    g: spec_fn(int) -> nat,
    h: spec_fn(int) -> nat,
    n: nat,
)
    requires
        forall|c: int| 0 <= c < n ==> #[trigger] h(c) == f(c) + g(c),
    ensures
        sum(h, n) == sum(f, n) + sum(g, n),
    decreases n,
{
    if n > 0 {
        lemma_sum_add(f, g, h, (n - 1) as nat);
        assert(h(n - 1) == f(n - 1) + g(n - 1));
    }
}

/// A sum of zeros.
proof fn lemma_sum_zero(f: spec_fn(int) -> nat, n: nat)
    requires
        forall|c: int| 0 <= c < n ==> #[trigger] f(c) == 0,
    ensures
        sum(f, n) == 0,
    decreases n,
{
    if n > 0 {
        lemma_sum_zero(f, (n - 1) as nat);
        assert(f(n - 1) == 0);
    }
}

/// A sum with a single one.
proof fn lemma_sum_one(f: spec_fn(int) -> nat, n: nat, at: int)
    requires
        0 <= at < n,
        forall|c: int| 0 <= c < n ==> #[trigger] f(c) == if c == at {
            1nat
        } else {
            0nat
        },
    ensures
        sum(f, n) == 1,
    decreases n,
{
    assert(f(n - 1) == if n - 1 == at {
        1nat
    } else {
        0nat
    });
    if at == n - 1 {
        lemma_sum_zero(f, (n - 1) as nat);
    } else {
        lemma_sum_one(f, (n - 1) as nat, at);
    }
}

/// The summed uses as a sum over columns.
proof fn lemma_total_is_sum(draws: Seq<Vec<Tessellation>>, col_map: Seq<usize>, n: nat)
    ensures
        total_uses(draws, col_map, n) == sum(
            |c: int| uses_in_draws(draws, col_map, c, draws.len()),
            n,
        ),
    decreases n,
{
    let f = |c: int| uses_in_draws(draws, col_map, c, draws.len());
    if n > 0 {
        lemma_total_is_sum(draws, col_map, (n - 1) as nat);
        assert(f(n - 1) == uses_in_draws(draws, col_map, n - 1, draws.len()));
    }
}

/// The uses of all columns in one tessellation sum to its dimensions.
proof fn lemma_sum_in_dims(dims: Seq<usize>, col_map: Seq<usize>, n_raw: nat, k: nat)
    requires
        k <= dims.len(),
        forall|i: int|
            0 <= i < dims.len() ==> (#[trigger] dims[i]) < col_map.len() && col_map[dims[i] as int]
                < n_raw,
    ensures
        sum(|c: int| uses_in_dims(dims, col_map, c, k), n_raw) == k,
    decreases k,
{
    let h = |c: int| uses_in_dims(dims, col_map, c, k);
    if k == 0 {
        lemma_sum_zero(h, n_raw);
    } else {
        let f = |c: int| uses_in_dims(dims, col_map, c, (k - 1) as nat);
        let at = col_map[dims[k - 1] as int] as int;
        let g = |c: int|
            if c == at {
                1nat
            } else {
                0nat
            };
        lemma_sum_in_dims(dims, col_map, n_raw, (k - 1) as nat);
        assert(dims[k - 1] < col_map.len());
        lemma_sum_one(g, n_raw, at);
        lemma_sum_add(f, g, h, n_raw);
    }
}

/// The uses of all columns in one draw sum to its dimensions.
proof fn lemma_sum_in_draw(
    tessellations: Seq<Tessellation>,
    col_map: Seq<usize>,
    n_raw: nat,
    k: nat,
)
    requires
        k <= tessellations.len(),
        maps_draw(tessellations, col_map, n_raw),
    ensures
        sum(|c: int| uses_in_draw(tessellations, col_map, c, k), n_raw) == dims_in_draw(
            tessellations,
            k,
        ),
    decreases k,
{
    let h = |c: int| uses_in_draw(tessellations, col_map, c, k);
    if k == 0 {
        lemma_sum_zero(h, n_raw);
    } else {
        let dims = tessellations[k - 1]@.dims;
        let f = |c: int| uses_in_draw(tessellations, col_map, c, (k - 1) as nat);
        let g = |c: int| uses_in_dims(dims, col_map, c, dims.len());
        lemma_sum_in_draw(tessellations, col_map, n_raw, (k - 1) as nat);
        assert forall|i: int| 0 <= i < dims.len() implies (#[trigger] dims[i]) < col_map.len()
            && col_map[dims[i] as int] < n_raw by {
            assert(tessellations[k - 1]@.dims[i] < col_map.len());
        }
        lemma_sum_in_dims(dims, col_map, n_raw, dims.len());
        lemma_sum_add(f, g, h, n_raw);
    }
}

/// The uses of all columns in the draws sum to their dimensions.
proof fn lemma_sum_in_draws(
    draws: Seq<Vec<Tessellation>>,
    col_map: Seq<usize>,
    n_raw: nat,
    k: nat,
)
    requires
        k <= draws.len(),
        maps_draws(draws, col_map, n_raw),
    ensures
        sum(|c: int| uses_in_draws(draws, col_map, c, k), n_raw) == dims_in_draws(draws, k),
    decreases k,
{
    let h = |c: int| uses_in_draws(draws, col_map, c, k);
    if k == 0 {
        lemma_sum_zero(h, n_raw);
    } else {
        let ts = draws[k - 1]@;
        let f = |c: int| uses_in_draws(draws, col_map, c, (k - 1) as nat);
        let g = |c: int| uses_in_draw(ts, col_map, c, ts.len());
        lemma_sum_in_draws(draws, col_map, n_raw, (k - 1) as nat);
        assert(maps_draw(draws[k - 1]@, col_map, n_raw));
        lemma_sum_in_draw(ts, col_map, n_raw, ts.len());
        lemma_sum_add(f, g, h, n_raw);
    }
}

/// The places at which the tessellations of the draws split on column `c`: draw,
/// tessellation, position among its dimensions.
pub open spec fn split_places(
    draws: Seq<Vec<Tessellation>>,
    col_map: Seq<usize>,
    c: int,
) -> Set<(int, int, int)> {
    Set::new(
        |at: (int, int, int)|
            {
                &&& 0 <= at.0 < draws.len()
                &&& 0 <= at.1 < draws[at.0]@.len()
                &&& 0 <= at.2 < draws[at.0]@[at.1]@.dims.len()
                &&& col_map[draws[at.0]@[at.1]@.dims[at.2] as int] == c
            },
    )
}

/// The positions among the first `k` dimensions that map to column `c`.
spec fn positions(dims: Seq<usize>, col_map: Seq<usize>, c: int, k: nat) -> Set<int> {
    Set::new(|i: int| 0 <= i < k && col_map[dims[i] as int] == c)
}

/// The split places of the first `k` tessellations of draw `d`.
spec fn places_in_draw(
    tessellations: Seq<Tessellation>,
    col_map: Seq<usize>,
    c: int,
    d: int,
    k: nat,
) -> Set<(int, int, int)> {
    Set::new(
        |at: (int, int, int)|
            {
                &&& at.0 == d
                &&& 0 <= at.1 < k
                &&& 0 <= at.2 < tessellations[at.1]@.dims.len()
                &&& col_map[tessellations[at.1]@.dims[at.2] as int] == c
            },
    )
}

/// The split places of the first `k` draws.
spec fn places_in_draws(
    draws: Seq<Vec<Tessellation>>,
    col_map: Seq<usize>,
    c: int,
    k: nat,
) -> Set<(int, int, int)> {
    Set::new(
        |at: (int, int, int)|
            {
                &&& 0 <= at.0 < k
                &&& 0 <= at.1 < draws[at.0]@.len()
                &&& 0 <= at.2 < draws[at.0]@[at.1]@.dims.len()
                &&& col_map[draws[at.0]@[at.1]@.dims[at.2] as int] == c
            },
    )
}

/// The uses in one tessellation are its positions.
proof fn lemma_positions(dims: Seq<usize>, col_map: Seq<usize>, c: int, k: nat)
    ensures
        positions(dims, col_map, c, k).finite(),
        positions(dims, col_map, c, k).len() == uses_in_dims(dims, col_map, c, k),
    decreases k,
{
    let all = positions(dims, col_map, c, k);
    if k == 0 {
        assert(all =~= Set::empty());
    } else {
        let fewer = positions(dims, col_map, c, (k - 1) as nat);
        lemma_positions(dims, col_map, c, (k - 1) as nat);
        if col_map[dims[k - 1] as int] == c {
            assert(all =~= fewer.insert(k - 1));
        } else {
            assert(all =~= fewer);
        }
    }
}

/// The uses in one draw are its places.
proof fn lemma_places_in_draw(
    tessellations: Seq<Tessellation>,
    col_map: Seq<usize>,
    c: int,
    d: int,
    k: nat,
)
    ensures
        places_in_draw(tessellations, col_map, c, d, k).finite(),
        places_in_draw(tessellations, col_map, c, d, k).len() == uses_in_draw(
            tessellations,
            col_map,
            c,
            k,
        ),
    decreases k,
{
    let all = places_in_draw(tessellations, col_map, c, d, k);
    if k == 0 {
        assert(all =~= Set::empty());
    } else {
        let fewer = places_in_draw(tessellations, col_map, c, d, (k - 1) as nat);
        let dims = tessellations[k - 1]@.dims;
        let own = positions(dims, col_map, c, dims.len());
        let place = |i: int| (d, k - 1, i);
        let last = own.map(place);
        lemma_places_in_draw(tessellations, col_map, c, d, (k - 1) as nat);
        lemma_positions(dims, col_map, c, dims.len());
        vstd::set_lib::lemma_map_size(own, last, place);
        assert forall|at: (int, int, int)| all.contains(at) implies (fewer + last).contains(
            at,
        ) by {
            if at.1 == k - 1 {
                assert(own.contains(at.2));
                assert(place(at.2) == at);
            }
        }
        assert(all =~= fewer + last);
        assert(fewer.disjoint(last));
        vstd::set_lib::lemma_set_disjoint_lens(fewer, last);
    }
}

/// The uses in the draws are their places.
proof fn lemma_places_in_draws(
    draws: Seq<Vec<Tessellation>>,
    col_map: Seq<usize>,
    c: int,
    k: nat,
)
    ensures
        places_in_draws(draws, col_map, c, k).finite(),
        places_in_draws(draws, col_map, c, k).len() == uses_in_draws(draws, col_map, c, k),
    decreases k,
{
    let all = places_in_draws(draws, col_map, c, k);
    if k == 0 {
        assert(all =~= Set::empty());
    } else {
        let fewer = places_in_draws(draws, col_map, c, (k - 1) as nat);
        let last = places_in_draw(draws[k - 1]@, col_map, c, k - 1, draws[k - 1]@.len());
        lemma_places_in_draws(draws, col_map, c, (k - 1) as nat);
        lemma_places_in_draw(draws[k - 1]@, col_map, c, k - 1, draws[k - 1]@.len());
        assert(all =~= fewer + last);
        assert(fewer.disjoint(last));
        vstd::set_lib::lemma_set_disjoint_lens(fewer, last);
    }
}

/// The count of a column is the number of places (draw, tessellation, position) whose
/// dimension maps to it: it is positive exactly where some dimension of some
/// tessellation maps to the column.
pub proof fn counts_are_split_places(
    posterior: &PosteriorSamples,
    col_map: &[usize],
    n_raw: usize,
    r: Vec<u64>,
    c: int,
)
    requires
        call_ensures(inclusion_counts, (posterior, col_map, n_raw), r),
        0 <= c < n_raw,
    ensures
        r@.len() == n_raw,
        split_places(posterior@.draws, col_map@, c).finite(),
        r@[c] == split_places(posterior@.draws, col_map@, c).len(),
        forall|d: int, t: int, i: int|
            split_places(posterior@.draws, col_map@, c).contains((d, t, i)) <==> 0 <= d
                < posterior@.draws.len() && 0 <= t < posterior@.draws[d]@.len() && 0 <= i
                < posterior@.draws[d]@[t]@.dims.len() && col_map@[#[trigger] posterior@.draws[d]@[t]@.dims[i] as int]
                == c,
        r@[c] > 0 <==> exists|d: int, t: int, i: int|
            0 <= d < posterior@.draws.len() && 0 <= t < posterior@.draws[d]@.len() && 0 <= i
                < posterior@.draws[d]@[t]@.dims.len() && col_map@[#[trigger] posterior@.draws[d]@[t]@.dims[i] as int]
                == c,
{
    let draws = posterior@.draws;
    let places = split_places(draws, col_map@, c);
    lemma_places_in_draws(draws, col_map@, c, draws.len());
    assert(places =~= places_in_draws(draws, col_map@, c, draws.len()));
    if places.len() > 0 {
        let at = places.choose();
        assert(places.contains(at));
        assert(col_map@[draws[at.0]@[at.1]@.dims[at.2] as int] == c);
    }
    if exists|d: int, t: int, i: int|
        0 <= d < draws.len() && 0 <= t < draws[d]@.len() && 0 <= i < draws[d]@[t]@.dims.len()
            && col_map@[#[trigger] draws[d]@[t]@.dims[i] as int] == c {
        let (d, t, i) = choose|d: int, t: int, i: int|
            0 <= d < draws.len() && 0 <= t < draws[d]@.len() && 0 <= i < draws[d]@[t]@.dims.len()
                && col_map@[#[trigger] draws[d]@[t]@.dims[i] as int] == c;
        assert(places.contains((d, t, i)));
        if places.len() == 0 {
            assert(places =~= Set::empty());
        }
    }
}

/// The tessellations that are active in dimension `dim`: draw and tessellation.
pub open spec fn active_in(draws: Seq<Vec<Tessellation>>, dim: usize) -> Set<(int, int)> {
    Set::new(
        |at: (int, int)|
            {
                &&& 0 <= at.0 < draws.len()
                &&& 0 <= at.1 < draws[at.0]@.len()
                &&& draws[at.0]@[at.1]@.dims.contains(dim)
            },
    )
}

/// Where no two dimensions share a column and no tessellation names a dimension twice,
/// every tessellation counts once for the column of each of its dimensions, and for no
/// other column: the count of a dimension's column is the number of tessellations that
/// are active in the dimension.
pub proof fn each_active_dimension_counts_once(
    posterior: &PosteriorSamples,
    col_map: &[usize],
    n_raw: usize,
    r: Vec<u64>,
    dim: usize,
)
    requires
        call_ensures(inclusion_counts, (posterior, col_map, n_raw), r),
        maps_draws(posterior@.draws, col_map@, n_raw as nat),
        dim < col_map@.len(),
        col_map@[dim as int] < n_raw,
        forall|a: int, b: int|
            0 <= a < b < col_map@.len() ==> #[trigger] col_map@[a] != #[trigger] col_map@[b],
        forall|d: int, t: int|
            0 <= d < posterior@.draws.len() && 0 <= t < posterior@.draws[d]@.len() ==> (
            #[trigger] posterior@.draws[d]@[t])@.dims.no_duplicates(),
    ensures
        r@[col_map@[dim as int] as int] == active_in(posterior@.draws, dim).len(),
{
    let draws = posterior@.draws;
    let c = col_map@[dim as int] as int;
    let places = split_places(draws, col_map@, c);
    let pair = |at: (int, int, int)| (at.0, at.1);
    counts_are_split_places(posterior, col_map, n_raw, r, c);
    assert forall|at: (int, int, int)| #[trigger] places.contains(at) implies draws[at.0]@[at.1]@.dims[at.2]
        == dim by {
        assert(maps_draw(draws[at.0]@, col_map@, n_raw as nat));
        let other = draws[at.0]@[at.1]@.dims[at.2];
        assert(other < col_map@.len());
        if other < dim {
            assert(col_map@[other as int] != col_map@[dim as int]);
        } else if dim < other {
            assert(col_map@[dim as int] != col_map@[other as int]);
        }
    }
    assert forall|a: (int, int, int), b: (int, int, int)|
        places.contains(a) && places.contains(b) && #[trigger] pair(a) == #[trigger] pair(
            b,
        ) implies a == b by {
        assert(draws[a.0]@[a.1]@.dims.no_duplicates());
    }
    let active = active_in(draws, dim);
    assert forall|at: (int, int)| active.contains(at) implies places.map(pair).contains(at) by {
        let i = draws[at.0]@[at.1]@.dims.index_of(dim);
        assert(draws[at.0]@[at.1]@.dims[i] == dim);
        assert(places.contains((at.0, at.1, i)));
        assert(pair((at.0, at.1, i)) == at);
    }
    assert(places.map(pair) =~= active);
    vstd::set_lib::lemma_map_size(places, active, pair);
}

/// Swapping what two columns stand for swaps their counts, and the order in which a
/// tessellation names its dimensions does not matter: the counts of two posteriors agree
/// on a column wherever their split places on it can be matched one to one.
pub proof fn counts_follow_the_places(
    a: (&PosteriorSamples, &[usize], usize),
    b: (&PosteriorSamples, &[usize], usize),
    r: Vec<u64>,
    s: Vec<u64>,
    c: int,
    e: int,
    matched: spec_fn((int, int, int)) -> (int, int, int),
)
    requires
        call_ensures(inclusion_counts, a, r),
        call_ensures(inclusion_counts, b, s),
        0 <= c < a.2,
        0 <= e < b.2,
        vstd::relations::injective_on(matched, split_places(a.0@.draws, a.1@, c)),
        split_places(a.0@.draws, a.1@, c).map(matched) == split_places(b.0@.draws, b.1@, e),
    ensures
        r@[c] == s@[e],
{
    counts_are_split_places(a.0, a.1, a.2, r, c);
    counts_are_split_places(b.0, b.1, b.2, s, e);
    vstd::set_lib::lemma_map_size(
        split_places(a.0@.draws, a.1@, c),
        split_places(b.0@.draws, b.1@, e),
        matched,
    );
}

/// All places at which a tessellation of the draws has a dimension.
pub open spec fn dimension_places(draws: Seq<Vec<Tessellation>>) -> Set<(int, int, int)> {
    Set::new(
        |at: (int, int, int)|
            {
                &&& 0 <= at.0 < draws.len()
                &&& 0 <= at.1 < draws[at.0]@.len()
                &&& 0 <= at.2 < draws[at.0]@[at.1]@.dims.len()
            },
    )
}

/// The number of dimensions is the number of places at which some tessellation has one.
pub proof fn total_dims_are_dimension_places(posterior: &PosteriorSamples, r: u64)
    requires
        call_ensures(total_dims, (posterior,), r),
    ensures
        dimension_places(posterior@.draws).finite(),
        r == dimension_places(posterior@.draws).len(),
{
    let draws = posterior@.draws;
    let to_one = Seq::new((usize::MAX + 1) as nat, |i: int| 0usize);
    assert(maps_draws(draws, to_one, 1));
    uses_sum_to_the_dimensions(draws, to_one, 1);
    reveal_with_fuel(total_uses, 2);
    lemma_places_in_draws(draws, to_one, 0, draws.len());
    assert(dimension_places(draws) =~= places_in_draws(draws, to_one, 0, draws.len()));
}

} // verus!
