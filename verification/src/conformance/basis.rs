//! Checks of cell bases: rows that are written whole, that repeat, and that read no
//! column beyond the declared one.

use crate::binary64::Binary64;
use crate::conformance::texts::{
    basis_empty_message, basis_empty_text, basis_unwritten_message, basis_unwritten_text,
    basis_written_message, basis_written_text, columns_beyond_none_message,
    columns_beyond_none_text, columns_beyond_some_message, columns_beyond_some_text,
    columns_none_message, columns_none_text, columns_within_message, columns_within_text,
    row_digest_message, row_digest_text, rows_differ_message, rows_differ_text,
    rows_repeat_message, rows_repeat_text,
};
use crate::conformance::{
    all_pass, bit_digest, digest_of, fails, fresh_buffer, holds, lemma_results_pass, only, passes,
    quadruple, same_bits, unwritten, verdicts, CheckResult, Verdict,
};
use crate::engine::data::first_non_finite;
use crate::extensions::CellBasis;
use crate::search::{first, lemma_first_holds};
use vstd::prelude::*;

verus! {

/// What a basis returned on a fixture.
#[derive(Debug)]
pub struct BasisRecord {
    /// The declared width.
    pub q: usize,
    /// The basis row of every design row, one after the other.
    pub rows: Vec<Binary64>,
    /// The same rows, asked again.
    pub repeat: Vec<Binary64>,
    /// The largest column that the basis declares to read.
    pub declared: Option<usize>,
    /// The columns beyond it that change the basis row, in ascending order.
    pub read_beyond: Vec<usize>,
}

impl BasisRecord {
    /// One basis row per design row, both times.
    pub open spec fn covers(self, n_rows: nat) -> bool {
        &&& self.rows@.len() == n_rows * self.q
        &&& self.repeat@.len() == n_rows * self.q
    }
}

/// Does the declaration leave the column out?
pub open spec fn beyond(declared: Option<usize>, column: int) -> bool {
    match declared {
        Some(max) => column > max,
        None => true,
    }
}

/// The verdict on the width.
pub open spec fn width_verdict(record: BasisRecord) -> Verdict {
    match first(record.rows@.len(), |k: int| !record.rows@[k].finite()) {
        Some(k) => fails(
            "basis_width"@,
            basis_unwritten_text(
                k % record.q as int,
                k / record.q as int,
                record.rows@[k],
                record.q as int,
            ),
        ),
        None => passes("basis_width"@, basis_written_text(record.q as int)),
    }
}

/// The verdict on the declared column.
pub open spec fn column_verdict(record: BasisRecord) -> Verdict {
    let name = "max_column_claim_exact"@;
    if record.read_beyond@.len() == 0 {
        passes(
            name,
            match record.declared {
                Some(max) => columns_within_text(max as int),
                None => columns_none_text(),
            },
        )
    } else {
        fails(
            name,
            match record.declared {
                Some(max) => columns_beyond_some_text(record.read_beyond@, max as int),
                None => columns_beyond_none_text(record.read_beyond@),
            },
        )
    }
}

/// The verdicts on what a basis returned.
pub open spec fn basis_verdicts(record: BasisRecord) -> Seq<Verdict> {
    if record.q == 0 {
        seq![fails("basis_width"@, basis_empty_text())]
    } else {
        seq![
            width_verdict(record),
            if record.rows@ == record.repeat@ {
                passes("row_deterministic"@, rows_repeat_text())
            } else {
                fails("row_deterministic"@, rows_differ_text())
            },
            column_verdict(record),
            passes(
                "row_digest"@,
                row_digest_text(record.rows@.len() as int, digest_of(record.rows@)),
            ),
        ]
    }
}

/// The result on the width.
fn check_width(record: &BasisRecord) -> (r: CheckResult)
    requires
        record.q > 0,
    ensures
        r@ == width_verdict(*record),
{
    match first_non_finite(record.rows.as_slice()) {
        Some(k) => CheckResult::fail(
            "basis_width",
            basis_unwritten_message(k % record.q, k / record.q, record.rows[k], record.q),
        ),
        None => CheckResult::pass("basis_width", basis_written_message(record.q)),
    }
}

/// The result on purity.
fn check_repeat(record: &BasisRecord) -> (r: CheckResult)
    ensures
        r@ == (if record.rows@ == record.repeat@ {
            passes("row_deterministic"@, rows_repeat_text())
        } else {
            fails("row_deterministic"@, rows_differ_text())
        }),
{
    if same_bits(record.rows.as_slice(), record.repeat.as_slice()) {
        CheckResult::pass("row_deterministic", rows_repeat_message())
    } else {
        CheckResult::fail("row_deterministic", rows_differ_message())
    }
}

/// The result on the declared column.
fn check_columns(record: &BasisRecord) -> (r: CheckResult)
    ensures
        r@ == column_verdict(*record),
{
    let name = "max_column_claim_exact";
    if record.read_beyond.len() == 0 {
        match record.declared {
            Some(max) => CheckResult::pass(name, columns_within_message(max)),
            None => CheckResult::pass(name, columns_none_message()),
        }
    } else {
        match record.declared {
            Some(max) => CheckResult::fail(
                name,
                columns_beyond_some_message(record.read_beyond.as_slice(), max),
            ),
            None => CheckResult::fail(
                name,
                columns_beyond_none_message(record.read_beyond.as_slice()),
            ),
        }
    }
}

/// The results on what a basis returned.
pub fn assess_basis(record: &BasisRecord) -> (r: Vec<CheckResult>)
    ensures
        verdicts(r@) == basis_verdicts(*record),
{
    if record.q == 0 {
        return only(CheckResult::fail("basis_width", basis_empty_message()));
    }
    quadruple(
        check_width(record),
        check_repeat(record),
        check_columns(record),
        CheckResult::pass(
            "row_digest",
            row_digest_message(record.rows.len(), bit_digest(record.rows.as_slice())),
        ),
    )
}

/// The basis row of a design row, written into a buffer that nothing has been
/// written to.
pub fn evaluate<B: CellBasis>(basis: &B, x_row: &[Binary64], q: usize) -> (r: Vec<Binary64>)
    ensures
        r@.len() == q,
        exists|out: &mut [Binary64]|
            holds((*out)@, unwritten(q as nat)) && holds((*final(out))@, r@)
                && #[trigger] call_ensures(B::row, (basis, x_row, out), ()),
{
    let mut buffer = fresh_buffer(q);
    let out = buffer.as_mut_slice();
    basis.row(x_row, out);
    buffer
}

/// The numbers are what the basis writes for a design row.
pub open spec fn evaluates<B: CellBasis>(
    basis: &B,
    x_row: Seq<Binary64>,
    q: usize,
    row: Seq<Binary64>,
) -> bool {
    exists|a: &[Binary64], r: Vec<Binary64>|
        a@ == x_row && r@ == row && #[trigger] call_ensures(evaluate::<B>, (basis, a, q), r)
}

/// Basis row `i` of a list of basis rows.
pub open spec fn basis_row(rows: Seq<Binary64>, q: nat, i: int) -> Seq<Binary64> {
    rows.subrange(i * q, i * q + q)
}

/// A block of a list of blocks lies in it.
proof fn lemma_block(i: int, n: int, q: int)
    requires
        0 <= i < n,
        0 <= q,
    ensures
        0 <= i * q,
        i * q + q <= n * q,
        (i + 1) * q == i * q + q,
{
    assert(0 <= i * q) by (nonlinear_arith)
        requires
            0 <= i,
            0 <= q,
    ;
    assert((i + 1) * q == i * q + q) by (nonlinear_arith);
    assert((i + 1) * q <= n * q) by (nonlinear_arith)
        requires
            i + 1 <= n,
            0 <= q,
    ;
}

/// Appending a block keeps the blocks before it.
proof fn lemma_blocks_kept(rows: Seq<Binary64>, more: Seq<Binary64>, q: nat, k: nat)
    requires
        rows.len() == k * q,
        more.len() == q,
    ensures
        (rows + more).len() == (k + 1) * q,
        basis_row(rows + more, q, k as int) == more,
        forall|i: int|
            0 <= i < k ==> #[trigger] basis_row(rows + more, q, i) == basis_row(rows, q, i),
{
    assert((k + 1) * q == k * q + q) by (nonlinear_arith);
    assert(basis_row(rows + more, q, k as int) =~= more);
    assert forall|i: int| 0 <= i < k implies #[trigger] basis_row(rows + more, q, i) == basis_row(
        rows,
        q,
        i,
    ) by {
        lemma_block(i, k as int, q as int);
        assert(basis_row(rows + more, q, i) =~= basis_row(rows, q, i));
    }
}

/// The rows are what the basis writes for the design rows, one after the other.
pub open spec fn row_answers<B: CellBasis>(
    basis: &B,
    x_rows: Seq<Vec<Binary64>>,
    q: usize,
    rows: Seq<Binary64>,
) -> bool {
    forall|i: int|
        0 <= i < x_rows.len() ==> evaluates(
            basis,
            x_rows[i]@,
            q,
            #[trigger] basis_row(rows, q as nat, i),
        )
}

/// The basis rows of all design rows, one after the other.
fn evaluate_all<B: CellBasis>(basis: &B, x_rows: &Vec<Vec<Binary64>>, q: usize) -> (r: Vec<
    Binary64,
>)
    ensures
        r@.len() == x_rows@.len() * q,
        row_answers(basis, x_rows@, q, r@),
{
    let mut rows: Vec<Binary64> = Vec::new();
    assert(0 * q == 0);
    for k in 0..x_rows.len()
        invariant
            rows@.len() == k * q,
            forall|i: int|
                0 <= i < k ==> evaluates(
                    basis,
                    x_rows@[i]@,
                    q,
                    #[trigger] basis_row(rows@, q as nat, i),
                ),
    {
        let mut more = evaluate(basis, x_rows[k].as_slice(), q);
        let ghost row = more@;
        let ghost before = rows@;
        assert(evaluates(basis, x_rows@[k as int]@, q, row));
        rows.append(&mut more);
        proof {
            assert(rows@ =~= before + row);
            lemma_blocks_kept(before, row, q as nat, k as nat);
        }
    }
    rows
}

/// A design row with one column replaced.
pub open spec fn probe(x_row: Seq<Binary64>, column: int, value: Binary64) -> Seq<Binary64> {
    x_row.update(column, value)
}

/// A design row with one column replaced.
fn make_probe(x_row: &Vec<Binary64>, column: usize, value: Binary64) -> (r: Vec<Binary64>)
    requires
        column < x_row@.len(),
    ensures
        r@ == probe(x_row@, column as int, value),
{
    let mut r: Vec<Binary64> = Vec::new();
    for i in 0..x_row.len()
        invariant
            r@ == x_row@.take(i as int),
    {
        r.push(x_row[i]);
        assert(r@ =~= x_row@.take(i + 1));
    }
    assert(x_row@.take(x_row@.len() as int) =~= x_row@);
    r.set(column, value);
    r
}

/// Every row has `p` columns.
pub open spec fn rectangular(rows: Seq<Vec<Binary64>>, n_rows: nat, p: nat) -> bool {
    &&& rows.len() == n_rows
    &&& forall|i: int| 0 <= i < n_rows ==> (#[trigger] rows[i])@.len() == p
}

/// Moving the column of design row `i` gives a basis row other than `row`.
pub open spec fn changes<B: CellBasis>(
    basis: &B,
    x_row: Seq<Binary64>,
    column: int,
    value: Binary64,
    q: usize,
    row: Seq<Binary64>,
) -> bool {
    exists|other: Seq<Binary64>|
        other != row && #[trigger] evaluates(basis, probe(x_row, column, value), q, other)
}

/// Moving the column changes the basis row of some design row.
pub open spec fn sensitive<B: CellBasis>(
    basis: &B,
    x_rows: Seq<Vec<Binary64>>,
    moved: Seq<Vec<Binary64>>,
    rows: Seq<Binary64>,
    q: usize,
    column: int,
) -> bool {
    exists|i: int|
        0 <= i < x_rows.len() && changes(
            basis,
            x_rows[i]@,
            column,
            moved[i]@[column],
            q,
            #[trigger] basis_row(rows, q as nat, i),
        )
}

/// Moving the column gives the basis row back for every design row.
pub open spec fn insensitive<B: CellBasis>(
    basis: &B,
    x_rows: Seq<Vec<Binary64>>,
    moved: Seq<Vec<Binary64>>,
    rows: Seq<Binary64>,
    q: usize,
    column: int,
) -> bool {
    forall|i: int|
        0 <= i < x_rows.len() ==> evaluates(
            basis,
            probe(x_rows[i]@, column, moved[i]@[column]),
            q,
            #[trigger] basis_row(rows, q as nat, i),
        )
}

/// Does replacing a column by its moved values change the basis row of some design
/// row? The rows are asked in order, up to the first that changes.
fn is_sensitive<B: CellBasis>(
    basis: &B,
    x_rows: &Vec<Vec<Binary64>>,
    moved: &Vec<Vec<Binary64>>,
    rows: &Vec<Binary64>,
    q: usize,
    column: usize,
) -> (r: bool)
    requires
        x_rows@.len() >= 1,
        rectangular(x_rows@, x_rows@.len(), x_rows@[0]@.len()),
        rectangular(moved@, x_rows@.len(), x_rows@[0]@.len()),
        column < x_rows@[0]@.len(),
        rows@.len() == x_rows@.len() * q,
    ensures
        r ==> sensitive(basis, x_rows@, moved@, rows@, q, column as int),
        !r ==> insensitive(basis, x_rows@, moved@, rows@, q, column as int),
{
    for k in 0..x_rows.len()
        invariant
            x_rows@.len() >= 1,
            rectangular(x_rows@, x_rows@.len(), x_rows@[0]@.len()),
            rectangular(moved@, x_rows@.len(), x_rows@[0]@.len()),
            column < x_rows@[0]@.len(),
            rows@.len() == x_rows@.len() * q,
            forall|i: int|
                0 <= i < k ==> evaluates(
                    basis,
                    probe(x_rows@[i]@, column as int, moved@[i]@[column as int]),
                    q,
                    #[trigger] basis_row(rows@, q as nat, i),
                ),
    {
        assert(x_rows@[k as int]@.len() == x_rows@[0]@.len());
        assert(moved@[k as int]@.len() == x_rows@[0]@.len());
        let changed = make_probe(&x_rows[k], column, moved[k][column]);
        let row = evaluate(basis, changed.as_slice(), q);
        proof {
            assert(evaluates(basis, changed@, q, row@));
            lemma_block(k as int, x_rows@.len() as int, q as int);
            assert(rows@.len() == rows.len());
        }
        if !matches_block(rows, k * q, &row) {
            assert(changes(
                basis,
                x_rows@[k as int]@,
                column as int,
                moved@[k as int]@[column as int],
                q,
                basis_row(rows@, q as nat, k as int),
            ));
            return true;
        }
        assert(row@ == basis_row(rows@, q as nat, k as int));
    }
    false
}

/// Does the list hold the row from `start` on?
fn matches_block(rows: &Vec<Binary64>, start: usize, row: &Vec<Binary64>) -> (r: bool)
    requires
        start + row@.len() <= rows@.len(),
    ensures
        r == (row@ == rows@.subrange(start as int, start + row@.len())),
{
    let ghost block = rows@.subrange(start as int, start + row@.len());
    for j in 0..row.len()
        invariant
            start + row@.len() <= rows@.len(),
            block == rows@.subrange(start as int, start + row@.len()),
            forall|i: int| 0 <= i < j ==> row@[i] == block[i],
    {
        assert(rows@.len() == rows.len());
        if row[j] != rows[start + j] {
            assert(row@[j as int] != block[j as int]);
            return false;
        }
    }
    assert(row@ =~= block);
    true
}

/// The columns beyond the declared one that change a basis row when they are moved
/// up or down, in ascending order; moving any other of them up or down gives every
/// basis row back.
pub open spec fn reads_beyond<B: CellBasis>(
    basis: &B,
    x_rows: Seq<Vec<Binary64>>,
    raised: Seq<Vec<Binary64>>,
    lowered: Seq<Vec<Binary64>>,
    record: BasisRecord,
    p: nat,
) -> bool {
    let read = record.read_beyond@;
    &&& forall|j: int, k: int| 0 <= j < k < read.len() ==> read[j] < read[k]
    &&& forall|k: int|
        0 <= k < read.len() ==> {
            let c = #[trigger] read[k] as int;
            &&& c < p
            &&& beyond(record.declared, c)
            &&& sensitive(basis, x_rows, raised, record.rows@, record.q, c) || sensitive(
                basis,
                x_rows,
                lowered,
                record.rows@,
                record.q,
                c,
            )
        }
    &&& forall|c: usize|
        c < p && beyond(record.declared, c as int) && !(#[trigger] read.contains(c)) ==> {
            &&& insensitive(basis, x_rows, raised, record.rows@, record.q, c as int)
            &&& insensitive(basis, x_rows, lowered, record.rows@, record.q, c as int)
        }
}

/// The record holds what the basis answers on a fixture. A basis of width zero is
/// asked for nothing more.
pub open spec fn answered<B: CellBasis>(
    basis: &B,
    x_rows: Seq<Vec<Binary64>>,
    raised: Seq<Vec<Binary64>>,
    lowered: Seq<Vec<Binary64>>,
    record: BasisRecord,
) -> bool {
    &&& record.covers(x_rows.len())
    &&& call_ensures(B::q, (basis,), record.q)
    &&& record.q > 0 ==> {
        &&& row_answers(basis, x_rows, record.q, record.rows@)
        &&& row_answers(basis, x_rows, record.q, record.repeat@)
        &&& call_ensures(B::max_column, (basis,), record.declared)
        &&& reads_beyond(basis, x_rows, raised, lowered, record, x_rows[0]@.len())
    }
}

/// The columns beyond the declared one that change a basis row.
fn find_reads<B: CellBasis>(
    basis: &B,
    x_rows: &Vec<Vec<Binary64>>,
    raised: &Vec<Vec<Binary64>>,
    lowered: &Vec<Vec<Binary64>>,
    rows: &Vec<Binary64>,
    q: usize,
    declared: Option<usize>,
) -> (read: Vec<usize>)
    requires
        x_rows@.len() >= 1,
        rectangular(x_rows@, x_rows@.len(), x_rows@[0]@.len()),
        rectangular(raised@, x_rows@.len(), x_rows@[0]@.len()),
        rectangular(lowered@, x_rows@.len(), x_rows@[0]@.len()),
        rows@.len() == x_rows@.len() * q,
    ensures
        forall|record: BasisRecord|
            record.rows@ == rows@ && record.q == q && record.declared == declared
                && record.read_beyond@ == read@ ==> #[trigger] reads_beyond(
                basis,
                x_rows@,
                raised@,
                lowered@,
                record,
                x_rows@[0]@.len(),
            ),
{
    let p: usize = x_rows[0].len();
    let mut read: Vec<usize> = Vec::new();
    for column in 0..p
        invariant
            p == x_rows@[0]@.len(),
            x_rows@.len() >= 1,
            rectangular(x_rows@, x_rows@.len(), x_rows@[0]@.len()),
            rectangular(raised@, x_rows@.len(), x_rows@[0]@.len()),
            rectangular(lowered@, x_rows@.len(), x_rows@[0]@.len()),
            rows@.len() == x_rows@.len() * q,
            forall|j: int, k: int| 0 <= j < k < read@.len() ==> read@[j] < read@[k],
            forall|k: int|
                0 <= k < read@.len() ==> {
                    let c = #[trigger] read@[k] as int;
                    &&& c < column
                    &&& beyond(declared, c)
                    &&& sensitive(basis, x_rows@, raised@, rows@, q, c) || sensitive(
                        basis,
                        x_rows@,
                        lowered@,
                        rows@,
                        q,
                        c,
                    )
                },
            forall|c: usize|
                c < column && beyond(declared, c as int) && !(#[trigger] read@.contains(c)) ==> {
                    &&& insensitive(basis, x_rows@, raised@, rows@, q, c as int)
                    &&& insensitive(basis, x_rows@, lowered@, rows@, q, c as int)
                },
    {
        let within = match declared {
            Some(max) => column <= max,
            None => false,
        };
        if !within {
            let changes = is_sensitive(basis, x_rows, raised, rows, q, column) || is_sensitive(
                basis,
                x_rows,
                lowered,
                rows,
                q,
                column,
            );
            if changes {
                let ghost before = read@;
                read.push(column);
                assert(forall|c: usize| before.contains(c) ==> #[trigger] read@.contains(c)) by {
                    assert forall|c: usize| before.contains(c) implies #[trigger] read@.contains(
                        c,
                    ) by {
                        let i = choose|i: int| 0 <= i < before.len() && before[i] == c;
                        assert(read@[i] == c);
                    }
                }
                assert(read@[read@.len() - 1] == column);
            }
        }
    }
    read
}

/// Ask a basis for its width, for every basis row, twice, for the column that it
/// declares, and for what every column beyond that does.
fn observe_basis<B: CellBasis>(
    basis: &B,
    x_rows: &Vec<Vec<Binary64>>,
    raised: &Vec<Vec<Binary64>>,
    lowered: &Vec<Vec<Binary64>>,
) -> (r: BasisRecord)
    requires
        x_rows@.len() >= 1,
        rectangular(x_rows@, x_rows@.len(), x_rows@[0]@.len()),
        rectangular(raised@, x_rows@.len(), x_rows@[0]@.len()),
        rectangular(lowered@, x_rows@.len(), x_rows@[0]@.len()),
    ensures
        answered(basis, x_rows@, raised@, lowered@, r),
{
    let q: usize = basis.q();
    if q == 0 {
        assert(x_rows@.len() * 0 == 0);
        return BasisRecord {
            q,
            rows: Vec::new(),
            repeat: Vec::new(),
            declared: None,
            read_beyond: Vec::new(),
        };
    }
    let rows = evaluate_all(basis, x_rows, q);
    let repeat = evaluate_all(basis, x_rows, q);
    let declared = basis.max_column();
    let read_beyond = find_reads(basis, x_rows, raised, lowered, &rows, q, declared);
    BasisRecord { q, rows, repeat, declared, read_beyond }
}

/// Check a cell basis on a fixture of design rows: every basis row is written whole
/// and finite, it repeats bit for bit, and no column beyond the declared one changes
/// it. `raised` and `lowered` hold the design rows with every entry moved up and
/// down; a column is probed by moving that column only, up and then down. The digest
/// of the basis rows is reported for comparison across platforms.
pub fn check_cell_basis<B: CellBasis>(
    basis: &B,
    x_rows: &Vec<Vec<Binary64>>,
    raised: &Vec<Vec<Binary64>>,
    lowered: &Vec<Vec<Binary64>>,
) -> (r: Vec<CheckResult>)
    requires
        x_rows@.len() >= 1,
        rectangular(x_rows@, x_rows@.len(), x_rows@[0]@.len()),
        rectangular(raised@, x_rows@.len(), x_rows@[0]@.len()),
        rectangular(lowered@, x_rows@.len(), x_rows@[0]@.len()),
    ensures
        exists|record: BasisRecord|
            #[trigger] answered(basis, x_rows@, raised@, lowered@, record) && verdicts(r@)
                == basis_verdicts(record),
{
    let record = observe_basis(basis, x_rows, raised, lowered);
    let r = assess_basis(&record);
    assert(answered(basis, x_rows@, raised@, lowered@, record));
    r
}

/// A basis passes every assessment exactly when its rows have a width, every value of
/// every row was written, a second evaluation gave the same values, and no column beyond
/// the declared one was read.
pub proof fn basis_passes_exactly_when_sound(record: &BasisRecord, r: Vec<CheckResult>)
    requires
        call_ensures(assess_basis, (record,), r),
    ensures
        (forall|i: int| 0 <= i < r@.len() ==> (#[trigger] r@[i]).passed) <==> {
            &&& record.q > 0
            &&& forall|k: int| 0 <= k < record.rows@.len() ==> (#[trigger] record.rows@[k]).finite()
            &&& record.rows@ == record.repeat@
            &&& record.read_beyond@.len() == 0
        },
{
    let list = basis_verdicts(*record);
    let bad = |k: int| !record.rows@[k].finite();
    lemma_results_pass(r@);
    lemma_first_holds(record.rows@.len(), bad);
    if record.q == 0 {
        assert(!list[0].passed);
    } else {
        assert(list[0] == width_verdict(*record));
        assert(list[2] == column_verdict(*record));
        if all_pass(list) {
            assert(list[0].passed && list[1].passed && list[2].passed);
            assert forall|k: int| 0 <= k < record.rows@.len() implies (
            #[trigger] record.rows@[k]).finite() by {
                assert(!bad(k));
            }
        }
        if forall|k: int| 0 <= k < record.rows@.len() ==> (#[trigger] record.rows@[k]).finite() {
            if first(record.rows@.len(), bad) is Some {
                assert(bad(first(record.rows@.len(), bad)->0));
            }
        }
    }
}

/// A basis that passes has a width, and answers each row, wherever any column beyond the
/// declared one is moved to, with the same finite values.
pub proof fn passing_basis_reads_declared_columns<B: CellBasis>(
    basis: &B,
    x_rows: &Vec<Vec<Binary64>>,
    raised: &Vec<Vec<Binary64>>,
    lowered: &Vec<Vec<Binary64>>,
    r: Vec<CheckResult>,
    i: int,
    c: usize,
)
    requires
        call_ensures(check_cell_basis::<B>, (basis, x_rows, raised, lowered), r),
        forall|k: int| 0 <= k < r@.len() ==> (#[trigger] r@[k]).passed,
        0 <= i < x_rows@.len(),
        c < x_rows@[0]@.len(),
    ensures
        exists|q: usize, declared: Option<usize>, row: Seq<Binary64>|
            {
                &&& call_ensures(B::q, (basis,), q)
                &&& call_ensures(B::max_column, (basis,), declared)
                &&& q > 0
                &&& row.len() == q
                &&& forall|k: int| 0 <= k < q ==> (#[trigger] row[k]).finite()
                &&& #[trigger] evaluates(basis, x_rows@[i]@, q, row)
                &&& #[trigger] stays_within(declared, c) || {
                    &&& evaluates(
                        basis,
                        x_rows@[i]@.update(c as int, raised@[i]@[c as int]),
                        q,
                        row,
                    )
                    &&& evaluates(
                        basis,
                        x_rows@[i]@.update(c as int, lowered@[i]@[c as int]),
                        q,
                        row,
                    )
                }
            },
{
    let record = choose|record: BasisRecord|
        #[trigger] answered(basis, x_rows@, raised@, lowered@, record) && verdicts(r@)
            == basis_verdicts(record);
    let list = basis_verdicts(record);
    let bad = |k: int| !record.rows@[k].finite();
    lemma_results_pass(r@);
    lemma_first_holds(record.rows@.len(), bad);
    assert(list[0].passed);
    assert(list[2] == column_verdict(record) && list[2].passed);
    let q = record.q as nat;
    let row = basis_row(record.rows@, q, i);
    lemma_block(i, x_rows@.len() as int, q as int);
    assert forall|k: int| 0 <= k < q implies (#[trigger] row[k]).finite() by {
        assert(!bad(i * q + k));
    }
    assert(evaluates(basis, x_rows@[i]@, record.q, row));
    assert(stays_within(record.declared, c) == !beyond(record.declared, c as int));
    if beyond(record.declared, c as int) {
        assert(!record.read_beyond@.contains(c));
        assert(probe(x_rows@[i]@, c as int, raised@[i]@[c as int]) == x_rows@[i]@.update(
            c as int,
            raised@[i]@[c as int],
        ));
        assert(probe(x_rows@[i]@, c as int, lowered@[i]@[c as int]) == x_rows@[i]@.update(
            c as int,
            lowered@[i]@[c as int],
        ));
    }
}

/// Does the column not lie beyond the highest that a basis declares?
pub open spec fn stays_within(declared: Option<usize>, column: usize) -> bool {
    declared matches Some(max) && column <= max
}

/// A basis row is what the basis wrote into a buffer of its width in which no value was a
/// number before.
pub proof fn rows_are_what_the_basis_wrote<B: CellBasis>(
    basis: &B,
    x_row: &[Binary64],
    q: usize,
    r: Vec<Binary64>,
)
    requires
        call_ensures(evaluate::<B>, (basis, x_row, q), r),
    ensures
        r@.len() == q,
        exists|out: &mut [Binary64]|
            {
                &&& #[trigger] call_ensures(B::row, (basis, x_row, out), ())
                &&& (*out)@.len() == q
                &&& forall|i: int| 0 <= i < q ==> (#[trigger] (*out)@[i]).nan()
                &&& (*final(out))@ == r@
            },
{
    let out = choose|out: &mut [Binary64]|
        holds((*out)@, unwritten(q as nat)) && holds((*final(out))@, r@)
            && #[trigger] call_ensures(B::row, (basis, x_row, out), ());
    assert(call_ensures(B::row, (basis, x_row, out), ()));
}

/// Each result on a basis that has a width bears the name of what it was checked for, and
/// passes exactly on that.
pub proof fn basis_results_stand_for_themselves(record: &BasisRecord, r: Vec<CheckResult>)
    requires
        call_ensures(assess_basis, (record,), r),
        record.q > 0,
    ensures
        r@.len() == 4,
        r@[0].name@ == "basis_width"@ && r@[1].name@ == "row_deterministic"@,
        r@[2].name@ == "max_column_claim_exact"@ && r@[3].name@ == "row_digest"@,
        r@[0].passed <==> forall|k: int|
            0 <= k < record.rows@.len() ==> (#[trigger] record.rows@[k]).finite(),
        r@[1].passed <==> record.rows@ == record.repeat@,
        r@[2].passed <==> record.read_beyond@.len() == 0,
        r@[3].passed,
{
    let list = basis_verdicts(*record);
    let bad = |k: int| !record.rows@[k].finite();
    lemma_first_holds(record.rows@.len(), bad);
    assert(verdicts(r@).len() == r@.len());
    assert(list[0] == r@[0]@ && list[1] == r@[1]@ && list[2] == r@[2]@ && list[3] == r@[3]@);
    match first(record.rows@.len(), bad) {
        Some(k) => {
            assert(bad(k));
        },
        None => {
            assert forall|k: int| 0 <= k < record.rows@.len() implies (
            #[trigger] record.rows@[k]).finite() by {
                assert(!bad(k));
            }
        },
    }
}

} // verus!
