//! Checks of pairwise distances: finite and repeatable keys, minimal self-keys, a
//! true fast-path claim.

use crate::binary64::Binary64;
use crate::conformance::texts::{
    centre_beats_self_message, centre_beats_self_text, false_fast_path_message,
    false_fast_path_text, key_digest_message, key_digest_text, key_not_finite_message,
    key_not_finite_text, keys_differ_message, keys_differ_text, keys_repeat_message,
    keys_repeat_text, no_fast_path_message, no_fast_path_text, self_is_minimal_message,
    self_is_minimal_text, true_fast_path_message, true_fast_path_text,
};
use crate::conformance::{
    all_pass, bit_digest, digest_of, fails, lemma_results_pass, only, passes, quadruple, same_bits, verdicts,
    CheckResult, Verdict,
};
use crate::engine::data::{first_non_finite, Data, Matrix};
use crate::engine::tessellation::{lemma_centre_bounds, Partition, Tessellation};
use crate::extensions::PairwiseDistance;
use crate::search::{first, lemma_first_holds, lemma_first_is, lemma_first_none};
use vstd::prelude::*;

verus! {

/// A row whose first `k` active dimensions are replaced by the centre's
/// coordinates.
pub open spec fn overwritten(
    row: Seq<Binary64>,
    dims: Seq<usize>,
    centre: Seq<Binary64>,
    k: nat,
) -> Seq<Binary64>
    decreases k,
{
    if k == 0 {
        row
    } else {
        overwritten(row, dims, centre, (k - 1) as nat).update(dims[k - 1] as int, centre[k - 1])
    }
}

/// The row that a metric sees in place of a centre: the observation's own row with
/// the active dimensions replaced by the centre's coordinates.
pub fn synthesised_row(row: &[Binary64], tessellation: &Tessellation, cell: usize) -> (r: Vec<
    Binary64,
>)
    requires
        cell < tessellation@.n_cells,
        forall|i: int|
            0 <= i < tessellation@.dims.len() ==> (#[trigger] tessellation@.dims[i]) < row@.len(),
    ensures
        r@ == overwritten(
            row@,
            tessellation@.dims,
            tessellation@.centre(cell as int),
            tessellation@.dims.len(),
        ),
        r@.len() == row@.len(),
{
    let dims = tessellation.dims();
    let centres = tessellation.centres();
    let d: usize = dims.len();
    let ghost centre = tessellation@.centre(cell as int);
    proof {
        lemma_centre_bounds(tessellation@, cell as int);
        assert(centres@.len() == centres.len());
    }
    let mut r: Vec<Binary64> = Vec::new();
    for i in 0..row.len()
        invariant
            r@ == row@.take(i as int),
    {
        r.push(row[i]);
        assert(r@ =~= row@.take(i + 1));
    }
    assert(row@.take(row@.len() as int) =~= row@);
    for k in 0..d
        invariant
            d == dims@.len(),
            dims@ == tessellation@.dims,
            centres@ == tessellation@.centres,
            centre == tessellation@.centre(cell as int),
            cell * d + d <= centres@.len() <= usize::MAX,
            (cell + 1) * d == cell * d + d,
            0 <= cell * d,
            forall|i: int| 0 <= i < dims@.len() ==> (#[trigger] dims@[i]) < row@.len(),
            r@.len() == row@.len(),
            r@ == overwritten(row@, dims@, centre, k as nat),
    {
        let coordinate = centres[cell * d + k];
        assert(coordinate == centre[k as int]);
        assert(dims@[k as int] < row@.len());
        r.set(dims[k], coordinate);
    }
    r
}

/// Dimensions that are not active keep the row's own values.
pub proof fn inactive_dimensions_are_kept(
    row: Seq<Binary64>,
    dims: Seq<usize>,
    centre: Seq<Binary64>,
    k: nat,
    c: int,
)
    requires
        k <= dims.len(),
        0 <= c < row.len(),
        forall|i: int| 0 <= i < k ==> (#[trigger] dims[i]) < row.len() && dims[i] != c,
    ensures
        overwritten(row, dims, centre, k).len() == row.len(),
        overwritten(row, dims, centre, k)[c] == row[c],
    decreases k,
{
    if k > 0 {
        inactive_dimensions_are_kept(row, dims, centre, (k - 1) as nat, c);
        assert(dims[k - 1] < row.len() && dims[k - 1] != c);
    }
}

/// Active dimensions hold the centre's coordinates.
pub proof fn active_dimensions_are_replaced(
    row: Seq<Binary64>,
    dims: Seq<usize>,
    centre: Seq<Binary64>,
    k: nat,
    a: int,
)
    requires
        0 <= a < k <= dims.len(),
        dims.no_duplicates(),
        forall|i: int| 0 <= i < k ==> (#[trigger] dims[i]) < row.len(),
    ensures
        overwritten(row, dims, centre, k).len() == row.len(),
        overwritten(row, dims, centre, k)[dims[a] as int] == centre[a],
    decreases k,
{
    lemma_overwritten_len(row, dims, centre, (k - 1) as nat);
    assert(dims[k - 1] < row.len());
    if a < k - 1 {
        active_dimensions_are_replaced(row, dims, centre, (k - 1) as nat, a);
        assert(dims[a] != dims[k - 1]);
    }
}

/// Replacing values keeps the length.
proof fn lemma_overwritten_len(
    row: Seq<Binary64>,
    dims: Seq<usize>,
    centre: Seq<Binary64>,
    k: nat,
)
    requires
        k <= dims.len(),
        forall|i: int| 0 <= i < k ==> (#[trigger] dims[i]) < row.len(),
    ensures
        overwritten(row, dims, centre, k).len() == row.len(),
    decreases k,
{
    if k > 0 {
        lemma_overwritten_len(row, dims, centre, (k - 1) as nat);
        assert(dims[k - 1] < row.len());
    }
}

/// What a metric returned on a fixture. It is asked for no more than the verdicts rest
/// on: not again where a key is not finite, for nothing else where the keys do not
/// repeat, and for no further self-key after one that a centre comes before.
#[derive(Debug)]
pub struct DistanceRecord {
    /// The key of every observation against every centre, observation by
    /// observation.
    pub keys: Vec<Binary64>,
    /// The same keys, asked again.
    pub repeat: Vec<Binary64>,
    /// The keys of the first observations against themselves.
    pub self_keys: Vec<Binary64>,
    /// Does the metric claim the all-Euclidean fast path?
    pub all_euclidean: bool,
}

impl DistanceRecord {
    /// Every key is finite.
    pub open spec fn finite_keys(self) -> bool {
        first(self.keys@.len(), |k: int| !self.keys@[k].finite()) is None
    }

    /// Every key is finite and came back.
    pub open spec fn repeats(self) -> bool {
        self.finite_keys() && self.keys@ == self.repeat@
    }

    /// One key per observation and centre; the same number again where all are finite;
    /// and where they came back one self-key per observation, up to the first one that
    /// a centre comes before.
    pub open spec fn covers(self, n_rows: nat, n_cells: nat) -> bool {
        &&& self.keys@.len() == n_rows * n_cells
        &&& self.repeat@.len() == if self.finite_keys() {
            n_rows * n_cells
        } else {
            0
        }
        &&& self.self_keys@.len() <= n_rows
        &&& if self.repeats() {
            &&& self.self_keys@.len() == n_rows || self.beaten(n_cells, self.self_keys@.len() - 1)
            &&& forall|i: int|
                0 <= i < self.self_keys@.len() - 1 ==> !#[trigger] self.beaten(n_cells, i)
        } else {
            self.self_keys@.len() == 0
        }
    }

    /// Does the key at `k` come before its observation's key against itself?
    pub open spec fn beats_self(self, n_cells: nat, k: int) -> bool {
        &&& (k / n_cells as int) < self.self_keys@.len()
        &&& self.keys@[k].total_rank() < self.self_keys@[k / n_cells as int].total_rank()
    }

    /// Does a centre come before observation `i` itself?
    pub open spec fn beaten(self, n_cells: nat, i: int) -> bool {
        is_ahead(self.keys@, self.self_keys@[i], n_cells, i)
    }
}

/// Does a key of observation `i` come before the given self-key?
pub open spec fn is_ahead(keys: Seq<Binary64>, self_key: Binary64, n_cells: nat, i: int) -> bool {
    exists|cell: int|
        0 <= cell < n_cells && (#[trigger] keys[i * n_cells + cell]).total_rank()
            < self_key.total_rank()
}

/// The verdict on the self-keys.
pub open spec fn self_verdict(record: DistanceRecord, n_cells: nat) -> Verdict {
    match first(record.keys@.len(), |k: int| record.beats_self(n_cells, k)) {
        Some(k) => fails(
            "self_key_minimal"@,
            centre_beats_self_text(
                k % n_cells as int,
                record.keys@[k],
                k / n_cells as int,
                record.self_keys@[k / n_cells as int],
            ),
        ),
        None => passes("self_key_minimal"@, self_is_minimal_text()),
    }
}

/// The verdict on the fast-path claim, given the sums of squared active
/// differences.
pub open spec fn claim_verdict(
    record: DistanceRecord,
    n_cells: nat,
    squared: Seq<Binary64>,
) -> Verdict {
    if !record.all_euclidean {
        passes("all_euclidean_claim"@, no_fast_path_text())
    } else {
        match first(record.keys@.len(), |k: int| record.keys@[k] != squared[k]) {
            Some(k) => fails(
                "all_euclidean_claim"@,
                false_fast_path_text(
                    k / n_cells as int,
                    k % n_cells as int,
                    record.keys@[k],
                    squared[k],
                ),
            ),
            None => passes("all_euclidean_claim"@, true_fast_path_text()),
        }
    }
}

/// The verdicts on what a metric returned.
pub open spec fn distance_verdicts(
    record: DistanceRecord,
    n_cells: nat,
    squared: Seq<Binary64>,
) -> Seq<Verdict> {
    let count = record.keys@.len();
    match first(count, |k: int| !record.keys@[k].finite()) {
        Some(k) => seq![
            fails("keys_finite"@, key_not_finite_text(k / n_cells as int, k % n_cells as int)),
        ],
        None => if record.keys@ != record.repeat@ {
            seq![fails("distance_deterministic"@, keys_differ_text())]
        } else {
            seq![
                passes("distance_deterministic"@, keys_repeat_text(count as int)),
                self_verdict(record, n_cells),
                claim_verdict(record, n_cells, squared),
                passes("key_digest"@, key_digest_text(count as int, digest_of(record.keys@))),
            ]
        },
    }
}

/// An offset into a list of one key per observation and centre names an
/// observation.
proof fn lemma_offset(k: int, n_rows: nat, n_cells: nat)
    requires
        0 <= k < n_rows * n_cells,
    ensures
        n_cells > 0,
        0 <= k / (n_cells as int),
        k / (n_cells as int) < n_rows,
{
    assert(n_cells > 0) by (nonlinear_arith)
        requires
            0 <= k < n_rows * n_cells,
    ;
    vstd::arithmetic::div_mod::lemma_multiply_divide_lt(k, n_cells as int, n_rows as int);
    assert(k / n_cells as int >= 0) by (nonlinear_arith)
        requires
            k >= 0,
            n_cells > 0,
    ;
}

/// The result on the self-keys.
fn check_self_keys(record: &DistanceRecord, n_cells: usize, Ghost(n_rows): Ghost<nat>) -> (r:
    CheckResult)
    requires
        record.covers(n_rows, n_cells as nat),
    ensures
        r@ == self_verdict(*record, n_cells as nat),
{
    let ghost bad = |k: int| record.beats_self(n_cells as nat, k);
    for k in 0..record.keys.len()
        invariant
            record.covers(n_rows, n_cells as nat),
            bad == (|k: int| record.beats_self(n_cells as nat, k)),
            forall|j: int| 0 <= j < k ==> !#[trigger] bad(j),
    {
        proof {
            lemma_offset(k as int, n_rows, n_cells as nat);
        }
        let row: usize = k / n_cells;
        if row < record.self_keys.len() {
            let key = record.keys[k];
            let self_key = record.self_keys[row];
            if key.precedes(self_key) {
                proof {
                    assert(bad(k as int));
                    lemma_first_is(record.keys@.len(), bad, k as int);
                }
                return CheckResult::fail(
                    "self_key_minimal",
                    centre_beats_self_message(k % n_cells, key, row, self_key),
                );
            }
        }
        assert(!bad(k as int));
    }
    proof {
        lemma_first_none(record.keys@.len(), bad);
    }
    CheckResult::pass("self_key_minimal", self_is_minimal_message())
}

/// The result on the fast-path claim.
fn check_claim(
    record: &DistanceRecord,
    n_cells: usize,
    squared: &Vec<Binary64>,
    Ghost(n_rows): Ghost<nat>,
) -> (r: CheckResult)
    requires
        record.covers(n_rows, n_cells as nat),
        squared@.len() == record.keys@.len(),
    ensures
        r@ == claim_verdict(*record, n_cells as nat, squared@),
{
    if !record.all_euclidean {
        return CheckResult::pass("all_euclidean_claim", no_fast_path_message());
    }
    let ghost bad = |k: int| record.keys@[k] != squared@[k];
    for k in 0..record.keys.len()
        invariant
            record.all_euclidean,
            record.covers(n_rows, n_cells as nat),
            squared@.len() == record.keys@.len(),
            bad == (|k: int| record.keys@[k] != squared@[k]),
            forall|j: int| 0 <= j < k ==> !#[trigger] bad(j),
    {
        proof {
            lemma_offset(k as int, n_rows, n_cells as nat);
        }
        if record.keys[k] != squared[k] {
            proof {
                assert(bad(k as int));
                lemma_first_is(record.keys@.len(), bad, k as int);
            }
            return CheckResult::fail(
                "all_euclidean_claim",
                false_fast_path_message(k / n_cells, k % n_cells, record.keys[k], squared[k]),
            );
        }
        assert(!bad(k as int));
    }
    proof {
        lemma_first_none(record.keys@.len(), bad);
    }
    CheckResult::pass("all_euclidean_claim", true_fast_path_message())
}

/// The results on what a metric returned for `n_rows` observations and `n_cells`
/// centres. `squared` holds the sum of squared active differences of each of them.
pub fn assess_distance(
    record: &DistanceRecord,
    n_rows: usize,
    n_cells: usize,
    squared: &Vec<Binary64>,
) -> (r: Vec<CheckResult>)
    requires
        record.covers(n_rows as nat, n_cells as nat),
        squared@.len() == record.keys@.len(),
    ensures
        verdicts(r@) == distance_verdicts(*record, n_cells as nat, squared@),
{
    if let Some(k) = first_non_finite(record.keys.as_slice()) {
        proof {
            lemma_offset(k as int, n_rows as nat, n_cells as nat);
        }
        return only(
            CheckResult::fail("keys_finite", key_not_finite_message(k / n_cells, k % n_cells)),
        );
    }
    if !same_bits(record.keys.as_slice(), record.repeat.as_slice()) {
        return only(CheckResult::fail("distance_deterministic", keys_differ_message()));
    }
    let count: usize = record.keys.len();
    quadruple(
        CheckResult::pass("distance_deterministic", keys_repeat_message(count)),
        check_self_keys(record, n_cells, Ghost(n_rows as nat)),
        check_claim(record, n_cells, squared, Ghost(n_rows as nat)),
        CheckResult::pass(
            "key_digest",
            key_digest_message(count, bit_digest(record.keys.as_slice())),
        ),
    )
}

/// The number is what the metric answers for an observation's row and another row.
pub open spec fn answers<D: PairwiseDistance>(
    metric: &D,
    row: Seq<Binary64>,
    other: Seq<Binary64>,
    dims: Seq<usize>,
    key: Binary64,
) -> bool {
    exists|a: &[Binary64], b: &[Binary64], d: &[usize]|
        a@ == row && b@ == other && d@ == dims && #[trigger] call_ensures(
            D::distance,
            (metric, a, b, d),
            key,
        )
}

/// The row that stands for a centre.
pub open spec fn centre_row(x: Matrix, t: Partition, i: int, cell: int) -> Seq<Binary64> {
    overwritten(x.row(i), t.dims, t.centre(cell), t.dims.len())
}

/// The keys are what the metric answers for each observation and centre,
/// observation by observation.
pub open spec fn key_answers<D: PairwiseDistance>(
    metric: &D,
    x: Matrix,
    t: Partition,
    keys: Seq<Binary64>,
) -> bool {
    forall|i: int, cell: int|
        0 <= cell < t.n_cells && 0 <= i && 0 <= i * t.n_cells + cell < keys.len()
            ==> #[trigger] answers(
            metric,
            x.row(i),
            centre_row(x, t, i, cell),
            t.dims,
            keys[i * t.n_cells + cell],
        )
}

/// The record holds what the metric answers on a fixture; it is asked for its claim
/// where the keys are finite and came back.
pub open spec fn answered<D: PairwiseDistance>(
    metric: &D,
    x: Matrix,
    t: Partition,
    record: DistanceRecord,
) -> bool {
    &&& key_answers(metric, x, t, record.keys@)
    &&& key_answers(metric, x, t, record.repeat@)
    &&& forall|i: int|
        0 <= i < record.self_keys@.len() ==> answers(
            metric,
            x.row(i),
            x.row(i),
            t.dims,
            #[trigger] record.self_keys@[i],
        )
    &&& record.repeats() ==> call_ensures(D::all_euclidean, (metric,), record.all_euclidean)
}

/// One more key, of the next observation and centre, is the metric's answer too.
proof fn lemma_keys_grow<D: PairwiseDistance>(
    metric: &D,
    x: Matrix,
    t: Partition,
    keys: Seq<Binary64>,
    i: int,
    cell: int,
    key: Binary64,
)
    requires
        0 <= i,
        0 <= cell < t.n_cells,
        keys.len() == i * t.n_cells + cell,
        key_answers(metric, x, t, keys),
        answers(metric, x.row(i), centre_row(x, t, i, cell), t.dims, key),
    ensures
        key_answers(metric, x, t, keys.push(key)),
{
    let n = t.n_cells as int;
    assert forall|j: int, c: int|
        0 <= c < t.n_cells && 0 <= j && 0 <= j * t.n_cells + c < keys.push(key).len() implies
        #[trigger] answers(
        metric,
        x.row(j),
        centre_row(x, t, j, c),
        t.dims,
        keys.push(key)[j * t.n_cells + c],
    ) by {
        if j * n + c == keys.len() {
            assert(j == i && c == cell) by (nonlinear_arith)
                requires
                    j * n + c == i * n + cell,
                    0 <= c < n,
                    0 <= cell < n,
            ;
        } else {
            assert(keys.push(key)[j * n + c] == keys[j * n + c]);
        }
    }
}

/// One pass over every observation and centre, observation by observation.
fn keys_pass<D: PairwiseDistance>(metric: &D, x: &Data, tessellation: &Tessellation) -> (r: Vec<
    Binary64,
>)
    requires
        forall|i: int|
            0 <= i < tessellation@.dims.len() ==> (#[trigger] tessellation@.dims[i])
                < x@.n_cols,
    ensures
        r@.len() == x@.n_rows * tessellation@.n_cells,
        key_answers(metric, x@, tessellation@, r@),
{
    let n_cells: usize = tessellation.n_cells();
    let mut keys: Vec<Binary64> = Vec::new();
    let n_rows: usize = x.n_rows();
    assert(0 * n_cells == 0);
    for i in 0..n_rows
        invariant
            n_rows == x@.n_rows,
            n_cells == tessellation@.n_cells,
            forall|i: int|
                0 <= i < tessellation@.dims.len() ==> (#[trigger] tessellation@.dims[i])
                    < x@.n_cols,
            keys@.len() == i * n_cells,
            key_answers(metric, x@, tessellation@, keys@),
    {
        let row = x.row(i);
        for cell in 0..n_cells
            invariant
                n_cells == tessellation@.n_cells,
                row@.len() == x@.n_cols,
                row@ == x@.row(i as int),
                key_answers(metric, x@, tessellation@, keys@),
                forall|i: int|
                    0 <= i < tessellation@.dims.len() ==> (#[trigger] tessellation@.dims[i])
                        < x@.n_cols,
                keys@.len() == i * n_cells + cell,
        {
            let other = synthesised_row(row, tessellation, cell);
            let stand_in = other.as_slice();
            let dims = tessellation.dims().as_slice();
            let key = metric.distance(row, stand_in, dims);
            let ghost before = keys@;
            keys.push(key);
            proof {
                assert(call_ensures(D::distance, (metric, row, stand_in, dims), key));
                lemma_keys_grow(metric, x@, tessellation@, before, i as int, cell as int, key);
            }
        }
        assert((i + 1) * n_cells == i * n_cells + n_cells) by (nonlinear_arith);
    }
    keys
}

/// Does a key of observation `i` come before the given self-key?
fn find_ahead(keys: &Vec<Binary64>, self_key: Binary64, n_cells: usize, i: usize) -> (r: bool)
    requires
        (i + 1) * n_cells <= keys@.len(),
    ensures
        r == is_ahead(keys@, self_key, n_cells as nat, i as int),
{
    proof {
        assert((i + 1) * n_cells == i * n_cells + n_cells) by (nonlinear_arith);
        assert(0 <= i * n_cells) by (nonlinear_arith);
    }
    for cell in 0..n_cells
        invariant
            0 <= i * n_cells,
            i * n_cells + n_cells <= keys@.len(),
            forall|c: int|
                0 <= c < cell ==> !((#[trigger] keys@[i * n_cells + c]).total_rank()
                    < self_key.total_rank()),
    {
        assert(keys@.len() == keys.len());
        if keys[i * n_cells + cell].precedes(self_key) {
            assert(keys@[i * n_cells + cell].total_rank() < self_key.total_rank());
            return true;
        }
    }
    false
}

/// Ask a metric for the self-keys of the observations in order, up to the first one
/// that a centre comes before.
fn ask_self_keys<D: PairwiseDistance>(
    metric: &D,
    x: &Data,
    tessellation: &Tessellation,
    keys: &Vec<Binary64>,
) -> (r: Vec<Binary64>)
    requires
        keys@.len() == x@.n_rows * tessellation@.n_cells,
    ensures
        r@.len() <= x@.n_rows,
        x@.n_rows > 0 ==> r@.len() > 0,
        forall|j: int|
            0 <= j < r@.len() ==> answers(
                metric,
                x@.row(j),
                x@.row(j),
                tessellation@.dims,
                #[trigger] r@[j],
            ),
        r@.len() == x@.n_rows || is_ahead(
            keys@,
            r@[r@.len() - 1],
            tessellation@.n_cells as nat,
            r@.len() - 1,
        ),
        forall|i: int|
            0 <= i < r@.len() - 1 ==> !is_ahead(
                keys@,
                #[trigger] r@[i],
                tessellation@.n_cells as nat,
                i,
            ),
{
    let n_cells: usize = tessellation.n_cells();
    let n_rows: usize = x.n_rows();
    let mut self_keys: Vec<Binary64> = Vec::new();
    for i in 0..n_rows
        invariant
            n_rows == x@.n_rows,
            n_cells == tessellation@.n_cells,
            keys@.len() == n_rows * n_cells,
            self_keys@.len() == i,
            forall|j: int|
                0 <= j < i ==> answers(
                    metric,
                    x@.row(j),
                    x@.row(j),
                    tessellation@.dims,
                    #[trigger] self_keys@[j],
                ),
            forall|j: int|
                0 <= j < i ==> !is_ahead(keys@, #[trigger] self_keys@[j], n_cells as nat, j),
    {
        let row = x.row(i);
        let dims = tessellation.dims().as_slice();
        let key = metric.distance(row, row, dims);
        assert(call_ensures(D::distance, (metric, row, row, dims), key));
        self_keys.push(key);
        assert((i + 1) * n_cells <= n_rows * n_cells) by (nonlinear_arith)
            requires
                i + 1 <= n_rows,
        ;
        if find_ahead(keys, key, n_cells, i) {
            return self_keys;
        }
    }
    self_keys
}

/// Ask a metric for every key of a fixture; where all are finite, once more; where they
/// came back, for the self-keys up to the first one that a centre comes before, and for
/// its claim.
fn observe<D: PairwiseDistance>(metric: &D, x: &Data, tessellation: &Tessellation) -> (r:
    DistanceRecord)
    requires
        forall|i: int|
            0 <= i < tessellation@.dims.len() ==> (#[trigger] tessellation@.dims[i])
                < x@.n_cols,
    ensures
        r.covers(x@.n_rows as nat, tessellation@.n_cells as nat),
        x@.n_rows > 0 && r.repeats() ==> r.self_keys@.len() > 0,
        answered(metric, x@, tessellation@, r),
{
    let keys = keys_pass(metric, x, tessellation);
    if first_non_finite(keys.as_slice()).is_some() {
        return DistanceRecord {
            keys,
            repeat: Vec::new(),
            self_keys: Vec::new(),
            all_euclidean: false,
        };
    }
    let repeat = keys_pass(metric, x, tessellation);
    if !same_bits(keys.as_slice(), repeat.as_slice()) {
        return DistanceRecord { keys, repeat, self_keys: Vec::new(), all_euclidean: false };
    }
    let self_keys = ask_self_keys(metric, x, tessellation, &keys);
    DistanceRecord { keys, repeat, self_keys, all_euclidean: metric.all_euclidean() }
}

/// Check a pairwise distance on a fixture: finite keys that repeat bit for bit, no
/// centre ahead of an observation's key against itself, and, where the fast path is
/// claimed, keys that are the given sums of squared active differences. The digest
/// of the keys is reported for comparison across platforms.
pub fn check_distance<D: PairwiseDistance>(
    metric: &D,
    x: &Data,
    tessellation: &Tessellation,
    squared: &Vec<Binary64>,
) -> (r: Vec<CheckResult>)
    requires
        forall|i: int|
            0 <= i < tessellation@.dims.len() ==> (#[trigger] tessellation@.dims[i])
                < x@.n_cols,
        squared@.len() == x@.n_rows * tessellation@.n_cells,
    ensures
        exists|record: DistanceRecord|
            record.covers(x@.n_rows as nat, tessellation@.n_cells as nat) && (x@.n_rows > 0
                && record.repeats() ==> record.self_keys@.len() > 0) && #[trigger] answered(
                metric,
                x@,
                tessellation@,
                record,
            ) && verdicts(r@) == distance_verdicts(
                record,
                tessellation@.n_cells as nat,
                squared@,
            ),
{
    let record = observe(metric, x, tessellation);
    let r = assess_distance(&record, x.n_rows(), tessellation.n_cells(), squared);
    assert(answered(metric, x@, tessellation@, record));
    r
}

/// The row of a cell's centre holds the centre's coordinates in the active dimensions and
/// the observation's own values everywhere else.
pub proof fn centre_rows_differ_in_active_dimensions_alone(
    row: &[Binary64],
    t: &Tessellation,
    cell: usize,
    r: Vec<Binary64>,
    a: int,
    c: int,
)
    requires
        t@.coherent(),
        cell < t@.n_cells,
        forall|i: int| 0 <= i < t@.dims.len() ==> (#[trigger] t@.dims[i]) < row@.len(),
        call_ensures(synthesised_row, (row, t, cell), r),
        0 <= a < t@.dims.len(),
        0 <= c < row@.len(),
    ensures
        r@.len() == row@.len(),
        r@[t@.dims[a] as int] == t@.centres[cell * t@.dims.len() + a],
        (forall|i: int| 0 <= i < t@.dims.len() ==> #[trigger] t@.dims[i] != c) ==> r@[c] == row@[c],
{
    let (dims, centre) = (t@.dims, t@.centre(cell as int));
    lemma_centre_bounds(t@, cell as int);
    active_dimensions_are_replaced(row@, dims, centre, dims.len(), a);
    if forall|i: int| 0 <= i < dims.len() ==> #[trigger] dims[i] != c {
        inactive_dimensions_are_kept(row@, dims, centre, dims.len(), c);
    }
    assert(centre[a] == t@.centres[cell * t@.dims.len() + a]);
}

/// A distance passes exactly where every key is finite and comes out the same twice, no
/// centre is nearer to an observation than the observation itself, and, where it claims
/// to be Euclidean, every key is the squared distance to the last bit.
pub proof fn distance_passes_exactly_when_sound(
    record: &DistanceRecord,
    n_rows: usize,
    n_cells: usize,
    squared: &Vec<Binary64>,
    r: Vec<CheckResult>,
)
    requires
        record.covers(n_rows as nat, n_cells as nat),
        squared@.len() == record.keys@.len(),
        call_ensures(assess_distance, (record, n_rows, n_cells, squared), r),
    ensures
        (forall|i: int| 0 <= i < r@.len() ==> (#[trigger] r@[i]).passed) <==> {
            &&& forall|k: int| 0 <= k < record.keys@.len() ==> (#[trigger] record.keys@[k]).finite()
            &&& record.keys@ == record.repeat@
            &&& forall|k: int|
                #![trigger record.keys@[k]]
                0 <= k < record.keys@.len() && k / (n_cells as int) < record.self_keys@.len()
                    ==> record.self_keys@[k / n_cells as int].total_rank()
                    <= record.keys@[k].total_rank()
            &&& record.all_euclidean ==> forall|k: int|
                0 <= k < record.keys@.len() ==> #[trigger] record.keys@[k] == squared@[k]
        },
        r@.len() == 1 || r@.len() == 4,
{
    let list = distance_verdicts(*record, n_cells as nat, squared@);
    lemma_results_pass(r@);
    let keys = record.keys@;
    let unfit = |k: int| !keys[k].finite();
    let beaten = |k: int| record.beats_self(n_cells as nat, k);
    let off = |k: int| keys[k] != squared@[k];
    lemma_first_holds(keys.len(), unfit);
    lemma_first_holds(keys.len(), beaten);
    lemma_first_holds(keys.len(), off);
    if first(keys.len(), unfit) is Some {
        let k = first(keys.len(), unfit)->0;
        assert(unfit(k));
        assert(!keys[k].finite());
        assert(!list[0].passed);
    } else {
        assert forall|k: int| 0 <= k < keys.len() implies (#[trigger] keys[k]).finite() by {
            assert(!unfit(k));
        }
        if keys != record.repeat@ {
            assert(!list[0].passed);
        } else {
            assert(list[0].passed && list[3].passed);
            assert(list[1] == self_verdict(*record, n_cells as nat));
            assert(list[2] == claim_verdict(*record, n_cells as nat, squared@));
            if first(keys.len(), beaten) is Some {
                let k = first(keys.len(), beaten)->0;
                assert(beaten(k));
                assert(keys[k].total_rank() < record.self_keys@[k / n_cells as int].total_rank());
                assert(!list[1].passed);
            } else {
                assert forall|k: int|
                    #![trigger keys[k]]
                    0 <= k < keys.len() && k / (n_cells as int)
                        < record.self_keys@.len() implies record.self_keys@[k
                    / n_cells as int].total_rank() <= keys[k].total_rank() by {
                    assert(!beaten(k));
                }
                assert(list[1].passed);
            }
            if record.all_euclidean {
                if first(keys.len(), off) is Some {
                    let k = first(keys.len(), off)->0;
                    assert(off(k));
                    assert(keys[k] != squared@[k]);
                    assert(!list[2].passed);
                } else {
                    assert forall|k: int| 0 <= k < keys.len() implies #[trigger] keys[k]
                        == squared@[k] by {
                        assert(!off(k));
                    }
                    assert(list[2].passed);
                }
            }
        }
    }
}

/// A metric that passes answered every observation and centre with a finite key, and
/// ranks no centre before the observation itself.
pub proof fn passing_metric_ranks_the_observation_first<D: PairwiseDistance>(
    metric: &D,
    x: &Data,
    t: &Tessellation,
    squared: &Vec<Binary64>,
    r: Vec<CheckResult>,
    i: int,
    cell: int,
)
    requires
        t@.coherent(),
        forall|k: int| 0 <= k < t@.dims.len() ==> (#[trigger] t@.dims[k]) < x@.n_cols,
        squared@.len() == x@.n_rows * t@.n_cells,
        call_ensures(check_distance::<D>, (metric, x, t, squared), r),
        forall|k: int| 0 <= k < r@.len() ==> (#[trigger] r@[k]).passed,
        0 <= i < x@.n_rows,
        0 <= cell < t@.n_cells,
    ensures
        exists|key: Binary64, own: Binary64|
            {
                &&& #[trigger] answers(metric, x@.row(i), centre_row(x@, t@, i, cell), t@.dims, key)
                &&& #[trigger] answers(metric, x@.row(i), x@.row(i), t@.dims, own)
                &&& key.finite()
                &&& own.total_rank() <= key.total_rank()
            },
{
    let n_cells = t@.n_cells as nat;
    let record = choose|record: DistanceRecord|
        record.covers(x@.n_rows as nat, n_cells) && (x@.n_rows > 0 && record.repeats()
            ==> record.self_keys@.len() > 0) && #[trigger] answered(metric, x@, t@, record)
            && verdicts(r@) == distance_verdicts(record, n_cells, squared@);
    lemma_results_pass(r@);
    let k = i * n_cells + cell;
    lemma_key_of(i, cell, x@.n_rows as int, n_cells);
    lemma_passing_keys(record, x@.n_rows as nat, n_cells, squared@);
    assert(answers(metric, x@.row(i), centre_row(x@, t@, i, cell), t@.dims, record.keys@[k]));
    assert(answers(metric, x@.row(i), x@.row(i), t@.dims, record.self_keys@[i]));
    assert(record.self_keys@[k / n_cells as int].total_rank() <= record.keys@[k].total_rank());
}

/// Where the key of an observation and a centre stands.
proof fn lemma_key_of(i: int, cell: int, n_rows: int, n_cells: nat)
    requires
        0 <= i < n_rows,
        0 <= cell < n_cells,
    ensures
        0 <= i * n_cells,
        i * n_cells + cell < n_rows * n_cells,
        (i * n_cells + cell) / n_cells as int == i,
{
    assert(0 <= i * n_cells && i * n_cells + n_cells <= n_rows * n_cells) by (nonlinear_arith)
        requires
            0 <= i < n_rows,
            0 <= n_cells,
    ;
    vstd::arithmetic::div_mod::lemma_fundamental_div_mod_converse(
        i * n_cells + cell,
        n_cells as int,
        i,
        cell,
    );
}

/// A record that passes holds a self-key for every observation and no key before it.
proof fn lemma_passing_keys(
    record: DistanceRecord,
    n_rows: nat,
    n_cells: nat,
    squared: Seq<Binary64>,
)
    requires
        n_rows > 0,
        n_cells > 0,
        record.covers(n_rows, n_cells),
        record.repeats() ==> record.self_keys@.len() > 0,
        all_pass(distance_verdicts(record, n_cells, squared)),
    ensures
        record.self_keys@.len() == n_rows,
        forall|k: int| 0 <= k < record.keys@.len() ==> (#[trigger] record.keys@[k]).finite(),
        forall|k: int|
            #![trigger record.keys@[k]]
            0 <= k < record.keys@.len() && k / (n_cells as int) < n_rows
                ==> record.self_keys@[k / n_cells as int].total_rank()
                <= record.keys@[k].total_rank(),
{
    let list = distance_verdicts(record, n_cells, squared);
    let keys = record.keys@;
    let unfit = |k: int| !keys[k].finite();
    let beaten = |k: int| record.beats_self(n_cells, k);
    lemma_first_holds(keys.len(), unfit);
    lemma_first_holds(keys.len(), beaten);
    assert(list[0].passed);
    assert forall|k: int| 0 <= k < keys.len() implies (#[trigger] keys[k]).finite() by {
        assert(!unfit(k));
    }
    assert(record.repeats());
    assert(list[1] == self_verdict(record, n_cells));
    assert(list[1].passed);
    let last = record.self_keys@.len() - 1;
    if record.self_keys@.len() < n_rows {
        assert(record.beaten(n_cells, last));
        let c = choose|c: int|
            0 <= c < n_cells && (#[trigger] keys[last * n_cells + c]).total_rank()
                < record.self_keys@[last].total_rank();
        lemma_key_of(last, c, n_rows as int, n_cells);
        assert(beaten(last * n_cells + c));
    }
    assert forall|k: int|
        #![trigger keys[k]]
        0 <= k < keys.len() && k / (n_cells as int) < n_rows implies record.self_keys@[k
        / n_cells as int].total_rank() <= keys[k].total_rank() by {
        assert(!beaten(k));
    }
}

/// A key is what the metric answers for these two rows and these dimensions.
pub proof fn keys_are_the_metrics_answers<D: PairwiseDistance>(
    metric: &D,
    row: Seq<Binary64>,
    other: Seq<Binary64>,
    dims: Seq<usize>,
    key: Binary64,
)
    requires
        answers(metric, row, other, dims, key),
    ensures
        exists|a: &[Binary64], b: &[Binary64], d: &[usize]|
            a@ == row && b@ == other && d@ == dims && #[trigger] call_ensures(
                D::distance,
                (metric, a, b, d),
                key,
            ),
{
}

/// Each result on keys that are finite and came back bears the name of what it was checked
/// for, and passes exactly on that.
pub proof fn distance_results_stand_for_themselves(
    record: &DistanceRecord,
    n_rows: usize,
    n_cells: usize,
    squared: &Vec<Binary64>,
    r: Vec<CheckResult>,
)
    requires
        record.covers(n_rows as nat, n_cells as nat),
        squared@.len() == record.keys@.len(),
        call_ensures(assess_distance, (record, n_rows, n_cells, squared), r),
        forall|k: int| 0 <= k < record.keys@.len() ==> (#[trigger] record.keys@[k]).finite(),
        record.keys@ == record.repeat@,
    ensures
        r@.len() == 4,
        r@[0].name@ == "distance_deterministic"@ && r@[1].name@ == "self_key_minimal"@,
        r@[2].name@ == "all_euclidean_claim"@ && r@[3].name@ == "key_digest"@,
        r@[0].passed && r@[3].passed,
        r@[2].passed <==> (record.all_euclidean ==> forall|k: int|
            0 <= k < record.keys@.len() ==> #[trigger] record.keys@[k] == squared@[k]),
{
    let keys = record.keys@;
    let unfit = |k: int| !keys[k].finite();
    let off = |k: int| keys[k] != squared@[k];
    lemma_first_holds(keys.len(), unfit);
    lemma_first_holds(keys.len(), off);
    let list = distance_verdicts(*record, n_cells as nat, squared@);
    if first(keys.len(), unfit) is Some {
        assert(unfit(first(keys.len(), unfit)->0));
    }
    assert(verdicts(r@).len() == r@.len());
    assert(list[0] == r@[0]@ && list[1] == r@[1]@ && list[2] == r@[2]@ && list[3] == r@[3]@);
    match first(keys.len(), off) {
        Some(k) => {
            assert(off(k));
            assert(keys[k] != squared@[k]);
        },
        None => {
            assert forall|k: int| 0 <= k < keys.len() implies #[trigger] record.keys@[k]
                == squared@[k] by {
                assert(!off(k));
            }
        },
    }
}

} // verus!
