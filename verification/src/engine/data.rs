//! The input matrix, per-column metrics, warnings, and the boundary validation
//! shared by fit and predict.
//!
//! Callers pass raw, unscaled data; everything here works in the caller's
//! coordinate system.

use crate::binary64::{minus_pi, nearest_count, pi, rank_orders_values, Binary64};
use crate::engine::column::{degenerate_exactly_when_constant, semantics_for, ColumnSemantics};
use crate::engine::error::{invalid, invalid_hyperparameter, AddiVortesError, Failure, Result};
use crate::message::{text, Message, Style, Text};
use crate::search::{first, lemma_first_holds, lemma_first_is, lemma_first_none};
use crate::value::{same_numbers, Value};
use vstd::arithmetic::power2::pow2;
use vstd::prelude::*;

verus! {

/// How a caller-visible column is treated by scaling, validation, and the
/// built-in distance. One entry per raw column.
#[derive(Debug, Clone, Copy, PartialEq, Eq, Hash, Structural)]
pub enum Metric {
    /// Ordinary real-valued column: scaled to [-0.5, 0.5], Euclidean distance
    /// group, constant columns rejected at fit.
    Euclidean,
    /// Angle in radians on [-pi, pi]: not scaled, validated against that domain,
    /// joins the great-circle distance group.
    Spherical,
    /// Categorical level codes, one-hot encoded.
    Categorical,
    /// Caller-prepared column: validated for finiteness only, never rescaled.
    Prepared,
}

/// A non-fatal condition noticed at fit time.
#[derive(Debug, Clone, Copy, PartialEq, Eq, Structural)]
pub enum Warning {
    /// More features than observations: the fit proceeds, but the model is weakly
    /// identified. Counts are in caller columns.
    MoreFeaturesThanObservations { p: usize, n: usize },
}

impl Warning {
    /// The user-facing message.
    pub fn message(&self) -> (r: Message)
        ensures
            r@ == match *self {
                Warning::MoreFeaturesThanObservations { p, n } => text("more features ("@).count(
                    p as int,
                ).text(") than observations ("@).count(n as int).text(")"@),
            },
    {
        match *self {
            Warning::MoreFeaturesThanObservations { p, n } => Message::of("more features (").count(
                p,
            ).text(") than observations (").count(n).text(")"),
        }
    }
}

/// A row-major matrix: observations as rows, features as columns, in the caller's
/// raw coordinates.
#[derive(Debug)]
pub struct Data {
    values: Vec<Binary64>,
    n_rows: usize,
    n_cols: usize,
}

/// The mathematical model of a [`Data`].
#[verifier::ext_equal]
pub struct Matrix {
    /// The values in row-major order.
    pub values: Seq<Binary64>,
    /// Number of observations.
    pub n_rows: usize,
    /// Number of features.
    pub n_cols: usize,
}

impl Matrix {
    /// The values fill the shape.
    pub open spec fn well_formed(self) -> bool {
        self.values.len() == self.n_rows * self.n_cols
    }

    /// The value in row `r` and column `c`.
    pub open spec fn entry(self, r: int, c: int) -> Binary64 {
        self.values[r * self.n_cols + c]
    }

    /// The same shape with equal numbers.
    pub open spec fn same(self, other: Self) -> bool {
        &&& self.n_rows == other.n_rows
        &&& self.n_cols == other.n_cols
        &&& same_numbers(self.values, other.values)
    }

    /// Row `i`.
    pub open spec fn row(self, i: int) -> Seq<Binary64> {
        self.values.subrange(i * self.n_cols, (i + 1) * self.n_cols)
    }
}

impl View for Data {
    type V = Matrix;

    closed spec fn view(&self) -> Matrix {
        Matrix { values: self.values@, n_rows: self.n_rows, n_cols: self.n_cols }
    }
}

/// A row of a well-formed matrix lies within its values.
pub proof fn lemma_row_bounds(x: Matrix, i: int)
    requires
        x.well_formed(),
        0 <= i < x.n_rows,
    ensures
        0 <= i * x.n_cols <= (i + 1) * x.n_cols <= x.values.len(),
        (i + 1) * x.n_cols == i * x.n_cols + x.n_cols,
{
    assert((i + 1) * x.n_cols == i * x.n_cols + x.n_cols) by (nonlinear_arith);
    assert(0 <= i * x.n_cols) by (nonlinear_arith)
        requires
            i >= 0,
    ;
    assert((i + 1) * x.n_cols <= x.n_rows * x.n_cols) by (nonlinear_arith)
        requires
            i + 1 <= x.n_rows,
    ;
}

/// Why a buffer of `len` values cannot form the shape.
pub open spec fn shape_reason(len: nat, n_rows: usize, n_cols: usize) -> Text {
    if n_rows * n_cols > usize::MAX {
        text(""@).count(n_rows as int).text(" by "@).count(n_cols as int).text(
            " matrix overflows usize"@,
        )
    } else {
        text(""@).count(len as int).text(" values cannot form a "@).count(n_rows as int).text(
            " by "@,
        ).count(n_cols as int).text(" matrix"@)
    }
}

/// The column count that the first row fixes.
pub open spec fn first_width(rows: Seq<Vec<Binary64>>) -> int {
    if rows.len() == 0 {
        0
    } else {
        rows[0]@.len() as int
    }
}

/// The first row whose length differs from that of row 0.
pub open spec fn ragged_row(rows: Seq<Vec<Binary64>>) -> Option<int> {
    first(rows.len(), |i: int| rows[i]@.len() != first_width(rows))
}

/// Why row `i` makes the rows ragged.
pub open spec fn ragged_reason(rows: Seq<Vec<Binary64>>, i: int) -> Text {
    text("row "@).count(i).text(" has "@).count(rows[i]@.len() as int).text(
        " values but row 0 has "@,
    ).count(first_width(rows))
}

/// The values are the first `k` rows, one after the other, each `width` long.
spec fn holds_rows(
    values: Seq<Binary64>,
    rows: Seq<Vec<Binary64>>,
    k: int,
    width: int,
) -> bool {
    &&& values.len() == k * width
    &&& forall|j: int|
        0 <= j < k ==> values.subrange(j * width, (j + 1) * width) == (#[trigger] rows[j])@
}

/// Appending row `k` to the first `k` rows gives the first `k + 1`.
proof fn lemma_append_row(
    values: Seq<Binary64>,
    rows: Seq<Vec<Binary64>>,
    k: int,
    width: int,
)
    requires
        0 <= k < rows.len(),
        rows[k]@.len() == width,
        holds_rows(values, rows, k, width),
    ensures
        holds_rows(values + rows[k]@, rows, k + 1, width),
{
    let longer = values + rows[k]@;
    assert((k + 1) * width == k * width + width) by (nonlinear_arith);
    assert forall|j: int| 0 <= j < k + 1 implies longer.subrange(j * width, (j + 1) * width) == (
    #[trigger] rows[j])@ by {
        assert((j + 1) * width == j * width + width) by (nonlinear_arith);
        if j < k {
            assert(0 <= j * width && (j + 1) * width <= k * width) by (nonlinear_arith)
                requires
                    0 <= j,
                    j + 1 <= k,
                    0 <= width,
            ;
            assert(values.subrange(j * width, (j + 1) * width) == rows[j]@);
            assert(longer.subrange(j * width, (j + 1) * width) =~= values.subrange(
                j * width,
                (j + 1) * width,
            ));
        } else {
            assert(longer.subrange(j * width, (j + 1) * width) =~= rows[k]@);
        }
    }
}

impl Data {
    #[verifier::type_invariant]
    spec fn fills_its_shape(self) -> bool {
        self.values@.len() == self.n_rows * self.n_cols
    }

    /// Build a matrix from a row-major buffer and its shape. Values are not
    /// inspected here; finiteness and domain checks happen at the fit and predict
    /// boundaries.
    pub fn new(values: Vec<Binary64>, n_rows: usize, n_cols: usize) -> (r: Result<Self>)
        ensures
            match r {
                Ok(x) => values@.len() == n_rows * n_cols && x@ == (Matrix {
                    values: values@,
                    n_rows,
                    n_cols,
                }) && x@.well_formed(),
                Err(e) => values@.len() != n_rows * n_cols && e@ == (Failure::InvalidDataShape {
                    reason: shape_reason(values@.len(), n_rows, n_cols),
                }),
            },
    {
        match n_rows.checked_mul(n_cols) {
            None => {
                assert(values@.len() == values.len());
                let reason = Message::of("").count(n_rows).text(" by ").count(n_cols).text(
                    " matrix overflows usize",
                );
                Err(AddiVortesError::InvalidDataShape { reason })
            },
            Some(expected) => {
                if values.len() != expected {
                    let reason = Message::of("").count(values.len()).text(
                        " values cannot form a ",
                    ).count(n_rows).text(" by ").count(n_cols).text(" matrix");
                    return Err(AddiVortesError::InvalidDataShape { reason });
                }
                Ok(Data { values, n_rows, n_cols })
            },
        }
    }

    /// Build a matrix from one list per row. The first row fixes the column count;
    /// no rows give the matrix without rows and columns.
    pub fn from_rows(rows: &[Vec<Binary64>]) -> (r: Result<Self>)
        ensures
            match r {
                Ok(x) => {
                    &&& ragged_row(rows@) is None
                    &&& x@.well_formed()
                    &&& x@.n_rows == rows@.len()
                    &&& x@.n_cols == first_width(rows@)
                    &&& forall|i: int|
                        0 <= i < rows@.len() ==> x@.row(i) == (#[trigger] rows@[i])@
                },
                Err(e) => {
                    &&& ragged_row(rows@) is Some
                    &&& e@ == (Failure::InvalidDataShape {
                        reason: ragged_reason(rows@, ragged_row(rows@)->0),
                    })
                },
            },
    {
        let n_rows: usize = rows.len();
        let n_cols: usize = if n_rows == 0 {
            0
        } else {
            rows[0].len()
        };
        let ghost p = |i: int| rows@[i]@.len() != first_width(rows@);
        let mut values: Vec<Binary64> = Vec::new();
        assert(0 * n_cols == 0);
        for i in 0..n_rows
            invariant
                n_rows == rows@.len(),
                n_cols == first_width(rows@),
                p == (|i: int| rows@[i]@.len() != first_width(rows@)),
                forall|j: int| 0 <= j < i ==> !#[trigger] p(j),
                holds_rows(values@, rows@, i as int, n_cols as int),
        {
            let row = &rows[i];
            if row.len() != n_cols {
                proof {
                    assert(p(i as int));
                    lemma_first_is(rows@.len(), p, i as int);
                }
                let reason = Message::of("row ").count(i).text(" has ").count(row.len()).text(
                    " values but row 0 has ",
                ).count(n_cols);
                return Err(AddiVortesError::InvalidDataShape { reason });
            }
            let ghost before = values@;
            for c in 0..row.len()
                invariant
                    values@ == before + row@.take(c as int),
            {
                values.push(row[c]);
                assert(values@ =~= before + row@.take(c + 1));
            }
            proof {
                assert(row@.take(row@.len() as int) =~= row@);
                lemma_append_row(before, rows@, i as int, n_cols as int);
                assert(!p(i as int));
            }
        }
        proof {
            lemma_first_none(rows@.len(), p);
        }
        Ok(Data { values, n_rows, n_cols })
    }

    /// Number of observations.
    pub fn n_rows(&self) -> (r: usize)
        ensures
            r == self@.n_rows,
    {
        self.n_rows
    }

    /// Number of features.
    pub fn n_cols(&self) -> (r: usize)
        ensures
            r == self@.n_cols,
    {
        self.n_cols
    }

    /// Observation `i` as a slice of its feature values.
    pub fn row(&self, i: usize) -> (r: &[Binary64])
        requires
            i < self@.n_rows,
        ensures
            r@ == self@.row(i as int),
            r@.len() == self@.n_cols,
    {
        proof {
            use_type_invariant(self);
            lemma_row_bounds(self@, i as int);
            assert(self.values@.len() == self.values.len());
        }
        vstd::slice::slice_subrange(
            self.values.as_slice(),
            i * self.n_cols,
            i * self.n_cols + self.n_cols,
        )
    }

    /// The whole row-major buffer.
    pub fn values(&self) -> (r: &[Binary64])
        ensures
            r@ == self@.values,
            self@.well_formed(),
    {
        proof {
            use_type_invariant(self);
        }
        self.values.as_slice()
    }

    /// Decompose into values, row count and column count.
    pub fn into_parts(self) -> (r: (Vec<Binary64>, usize, usize))
        ensures
            r.0@ == self@.values,
            r.1 == self@.n_rows,
            r.2 == self@.n_cols,
            self@.well_formed(),
    {
        proof {
            use_type_invariant(&self);
        }
        (self.values, self.n_rows, self.n_cols)
    }
}

impl Value for Metric {
    open spec fn equal(self, other: Self) -> bool {
        self == other
    }

    open spec fn copy_of(self, other: Self) -> bool {
        self == other
    }

    fn equals(&self, other: &Self) -> (r: bool) {
        *self == *other
    }

    fn duplicate(&self) -> (r: Self) {
        *self
    }
}

impl Value for Warning {
    open spec fn equal(self, other: Self) -> bool {
        self == other
    }

    open spec fn copy_of(self, other: Self) -> bool {
        self == other
    }

    fn equals(&self, other: &Self) -> (r: bool) {
        *self == *other
    }

    fn duplicate(&self) -> (r: Self) {
        *self
    }
}

impl Value for Data {
    open spec fn equal(self, other: Self) -> bool {
        self@.same(other@)
    }

    open spec fn copy_of(self, other: Self) -> bool {
        self@ == other@
    }

    fn equals(&self, other: &Self) -> (r: bool) {
        self.n_rows == other.n_rows && self.n_cols == other.n_cols && self.values.equals(
            &other.values,
        )
    }

    fn duplicate(&self) -> (r: Self) {
        proof {
            use_type_invariant(self);
        }
        let values = self.values.duplicate();
        assert(values@ =~= self.values@);
        Data { values, n_rows: self.n_rows, n_cols: self.n_cols }
    }
}

impl PartialEq for Data {
    fn eq(&self, other: &Self) -> (r: bool) {
        self.equals(other)
    }
}

impl vstd::std_specs::cmp::PartialEqSpecImpl for Data {
    open spec fn obeys_eq_spec() -> bool {
        true
    }

    open spec fn eq_spec(&self, other: &Self) -> bool {
        self.equal(*other)
    }
}

impl Clone for Data {
    fn clone(&self) -> (r: Self)
        ensures
            r.copy_of(*self),
    {
        self.duplicate()
    }
}

/// The first non-finite value of a matrix in row-major order, as a failure.
pub open spec fn finite_failure(x: Matrix) -> Option<Failure> {
    match first(x.values.len(), |k: int| !x.values[k].finite()) {
        Some(k) => Some(
            Failure::NonFiniteFeature {
                row: (k / x.n_cols as int) as usize,
                col: (k % x.n_cols as int) as usize,
            },
        ),
        None => None,
    }
}

/// Does the value at offset `k` lie outside the domain of its column's metric?
pub open spec fn outside_domain(x: Matrix, metrics: Seq<Metric>, k: int) -> bool {
    let col = k % x.n_cols as int;
    col < metrics.len() && !semantics_for(metrics[col]).domain(x.values[k])
}

/// The first value of a matrix, in row-major order, outside the domain of its
/// column, as a failure.
pub open spec fn domain_failure(x: Matrix, metrics: Seq<Metric>) -> Option<Failure> {
    match first(x.values.len(), |k: int| outside_domain(x, metrics, k)) {
        Some(k) => Some(
            Failure::SphericalOutOfDomain {
                row: (k / x.n_cols as int) as usize,
                col: (k % x.n_cols as int) as usize,
                value: x.values[k],
            },
        ),
        None => None,
    }
}

/// Is column `c` constant?
pub open spec fn constant_column(x: Matrix, c: int) -> bool {
    forall|r: int| 1 <= r < x.n_rows ==> (#[trigger] x.entry(r, c)).same(x.entry(0, c))
}

/// Is `c` a Euclidean column that is constant?
pub open spec fn degenerate_column(x: Matrix, metrics: Seq<Metric>, c: int) -> bool {
    metrics[c] == Metric::Euclidean && constant_column(x, c)
}

/// How many columns carry a metric.
pub open spec fn scanned_columns(x: Matrix, metrics: Seq<Metric>) -> nat {
    if metrics.len() <= x.n_cols {
        metrics.len()
    } else {
        x.n_cols as nat
    }
}

/// Does `omega` reach the feature count `p`, as binary64 numbers?
pub open spec fn reaches_count(omega: Binary64, p: nat) -> bool {
    !omega.nan() && if omega.finite() {
        omega.value() >= nearest_count(p) * pow2(1074)
    } else {
        !omega.negative()
    }
}

/// The reason for refusing an `omega` that is not below `p`.
pub open spec fn omega_reason(p: usize, omega: Binary64) -> Text {
    text("must be less than the number of features p = "@).count(p as int).text(
        ", got "@,
    ).number(omega, Style::Plain)
}

/// The first failure of the fit boundary in its canonical order, where there is
/// one.
pub open spec fn fit_failure(
    x: Matrix,
    y: Seq<Binary64>,
    metrics: Seq<Metric>,
    omega: Binary64,
) -> Option<Failure> {
    let bad_response = first(y.len(), |i: int| !y[i].finite());
    let bad_column = first(
        scanned_columns(x, metrics),
        |c: int| degenerate_column(x, metrics, c),
    );
    if y.len() != x.n_rows {
        Some(Failure::RowCountMismatch { y_len: y.len() as usize, x_rows: x.n_rows })
    } else if x.n_rows < 2 {
        Some(Failure::InsufficientObservations { found: x.n_rows, required: 2 })
    } else if bad_response is Some {
        Some(Failure::NonFiniteResponse { row: bad_response->0 as usize })
    } else if finite_failure(x) is Some {
        finite_failure(x)
    } else if forall|i: int| 0 <= i < y.len() ==> (#[trigger] y[i]).same(y[0]) {
        Some(Failure::DegenerateResponse {  })
    } else if bad_column is Some {
        Some(Failure::DegenerateFeature { col: bad_column->0 as usize })
    } else if domain_failure(x, metrics) is Some {
        domain_failure(x, metrics)
    } else if metrics.len() != x.n_cols {
        Some(
            Failure::MetricLengthMismatch { metric_len: metrics.len() as usize, x_cols: x.n_cols },
        )
    } else if x.n_cols >= 2 && (omega.nan() || reaches_count(omega, x.n_cols as nat)) {
        Some(invalid("omega"@, omega_reason(x.n_cols, omega)))
    } else {
        None
    }
}

/// The first failure of the predict boundary in its canonical order, where there
/// is one.
pub open spec fn predict_failure(
    x: Matrix,
    expected_cols: usize,
    metrics: Seq<Metric>,
) -> Option<Failure> {
    if x.n_cols != expected_cols {
        Some(Failure::FeatureCountMismatch { expected: expected_cols, found: x.n_cols })
    } else if finite_failure(x) is Some {
        finite_failure(x)
    } else {
        domain_failure(x, metrics)
    }
}

/// What the fit boundary admits, the predict boundary of that fit admits too.
pub proof fn what_fits_predicts(
    x: Matrix,
    y: Seq<Binary64>,
    metrics: Seq<Metric>,
    omega: Binary64,
)
    requires
        fit_failure(x, y, metrics, omega) is None,
    ensures
        predict_failure(x, x.n_cols, metrics) is None,
        metrics.len() == x.n_cols,
        y.len() == x.n_rows,
{
}

/// The index of the first value that is not finite.
pub fn first_non_finite(values: &[Binary64]) -> (r: Option<usize>)
    ensures
        match r {
            Some(i) => first(values@.len(), |k: int| !values@[k].finite()) == Some(i as int),
            None => first(values@.len(), |k: int| !values@[k].finite()) is None,
        },
        r matches Some(i) ==> i < values@.len() && !values@[i as int].finite(),
        r is None ==> forall|i: int| 0 <= i < values@.len() ==> #[trigger] values@[i].finite(),
{
    let ghost p = |k: int| !values@[k].finite();
    for i in 0..values.len()
        invariant
            p == (|k: int| !values@[k].finite()),
            forall|j: int| 0 <= j < i ==> !#[trigger] p(j),
    {
        if !values[i].is_finite() {
            proof {
                assert(p(i as int));
                lemma_first_is(values@.len(), p, i as int);
            }
            return Some(i);
        }
    }
    proof {
        lemma_first_none(values@.len(), p);
        assert forall|i: int| 0 <= i < values@.len() implies #[trigger] values@[i].finite() by {
            assert(!p(i));
        }
    }
    None
}

/// Row-major scan for the first non-finite feature value.
fn scan_finite(x: &Data) -> (r: Result<()>)
    ensures
        match r {
            Ok(_) => finite_failure(x@) is None,
            Err(e) => finite_failure(x@) == Some(e@),
        },
{
    proof {
        use_type_invariant(x);
    }
    match first_non_finite(x.values.as_slice()) {
        Some(offset) => {
            assert(x.n_cols > 0) by (nonlinear_arith)
                requires
                    offset < x.n_rows * x.n_cols,
            ;
            Err(
                AddiVortesError::NonFiniteFeature {
                    row: offset / x.n_cols,
                    col: offset % x.n_cols,
                },
            )
        },
        None => Ok(()),
    }
}

/// Row-major scan of every column against its domain.
fn scan_domains(x: &Data, metrics: &[Metric]) -> (r: Result<()>)
    ensures
        match r {
            Ok(_) => domain_failure(x@, metrics@) is None,
            Err(e) => domain_failure(x@, metrics@) == Some(e@),
        },
{
    proof {
        use_type_invariant(x);
    }
    let ghost p = |k: int| outside_domain(x@, metrics@, k);
    for offset in 0..x.values.len()
        invariant
            x.values@.len() == x.n_rows * x.n_cols,
            p == (|k: int| outside_domain(x@, metrics@, k)),
            forall|j: int| 0 <= j < offset ==> !#[trigger] p(j),
    {
        assert(x.n_cols > 0) by (nonlinear_arith)
            requires
                offset < x.n_rows * x.n_cols,
        ;
        let row: usize = offset / x.n_cols;
        let col: usize = offset % x.n_cols;
        let value = x.values[offset];
        if col < metrics.len() && !semantics_for(metrics[col]).in_domain(value) {
            proof {
                assert(p(offset as int));
                lemma_first_is(x@.values.len(), p, offset as int);
            }
            return Err(AddiVortesError::SphericalOutOfDomain { row, col, value });
        }
        assert(!p(offset as int));
    }
    proof {
        lemma_first_none(x@.values.len(), p);
    }
    Ok(())
}

/// Is every value of column `col` equal to its first one?
fn is_constant_column(x: &Data, col: usize) -> (r: bool)
    requires
        col < x@.n_cols,
        x@.n_rows >= 1,
    ensures
        r == constant_column(x@, col as int),
{
    proof {
        use_type_invariant(x);
        lemma_row_bounds(x@, 0);
    }
    let head = x.values[col];
    for r in 1..x.n_rows
        invariant
            x.values@.len() == x.n_rows * x.n_cols,
            col < x.n_cols,
            head == x@.entry(0, col as int),
            forall|q: int| 1 <= q < r ==> (#[trigger] x@.entry(q, col as int)).same(head),
    {
        proof {
            lemma_row_bounds(x@, r as int);
            assert(x.values@.len() == x.values.len());
        }
        let value = x.values[r * x.n_cols + col];
        assert(value == x@.entry(r as int, col as int));
        if !value.is_same(head) {
            return false;
        }
    }
    true
}

/// The first constant Euclidean column.
fn first_degenerate_column(x: &Data, metrics: &[Metric]) -> (r: Option<usize>)
    requires
        x@.n_rows >= 1,
    ensures
        match r {
            Some(c) => first(
                scanned_columns(x@, metrics@),
                |c: int| degenerate_column(x@, metrics@, c),
            ) == Some(c as int),
            None => first(
                scanned_columns(x@, metrics@),
                |c: int| degenerate_column(x@, metrics@, c),
            ) is None,
        },
{
    let ghost p = |c: int| degenerate_column(x@, metrics@, c);
    let limit: usize = if metrics.len() <= x.n_cols {
        metrics.len()
    } else {
        x.n_cols
    };
    for c in 0..limit
        invariant
            x@.n_rows >= 1,
            limit == scanned_columns(x@, metrics@),
            p == (|c: int| degenerate_column(x@, metrics@, c)),
            forall|j: int| 0 <= j < c ==> !#[trigger] p(j),
    {
        if metrics[c] == Metric::Euclidean && is_constant_column(x, c) {
            proof {
                assert(p(c as int));
                lemma_first_is(limit as nat, p, c as int);
            }
            return Some(c);
        }
        assert(!p(c as int));
    }
    proof {
        lemma_first_none(limit as nat, p);
    }
    None
}

/// Are all values equal to the first one?
fn is_constant(y: &[Binary64]) -> (r: bool)
    ensures
        r == forall|i: int| 0 <= i < y@.len() ==> (#[trigger] y@[i]).same(y@[0]),
{
    for i in 0..y.len()
        invariant
            forall|j: int| 0 <= j < i ==> (#[trigger] y@[j]).same(y@[0]),
    {
        if !y[i].is_same(y[0]) {
            return false;
        }
    }
    true
}

/// Is `omega` at least `p`, as binary64 numbers?
fn reaches(omega: Binary64, p: usize) -> (r: bool)
    ensures
        r == reaches_count(omega, p as nat),
{
    let bound = Binary64::from_count(p);
    proof {
        if omega.finite() {
            rank_orders_values(omega, bound);
        }
    }
    bound.is_at_most(omega)
}

/// Shared fit-boundary validation, in the canonical order: row counts, number of
/// observations, finite response, finite features, constant response, constant
/// Euclidean columns, domains, length of the metric list, and `omega` below the
/// number of features where there are two or more.
///
/// The two scans that read metrics run before the length of the list is checked;
/// they look at the columns that carry a metric.
pub fn validate_fit(x: &Data, y: &[Binary64], metrics: &[Metric], omega: Binary64) -> (r: Result<
    (),
>)
    ensures
        match r {
            Ok(_) => fit_failure(x@, y@, metrics@, omega) is None,
            Err(e) => fit_failure(x@, y@, metrics@, omega) == Some(e@),
        },
{
    if y.len() != x.n_rows {
        return Err(AddiVortesError::RowCountMismatch { y_len: y.len(), x_rows: x.n_rows });
    }
    if x.n_rows < 2 {
        return Err(AddiVortesError::InsufficientObservations { found: x.n_rows, required: 2 });
    }
    if let Some(row) = first_non_finite(y) {
        return Err(AddiVortesError::NonFiniteResponse { row });
    }
    if let Err(e) = scan_finite(x) {
        return Err(e);
    }
    if is_constant(y) {
        return Err(AddiVortesError::DegenerateResponse {  });
    }
    if let Some(col) = first_degenerate_column(x, metrics) {
        return Err(AddiVortesError::DegenerateFeature { col });
    }
    if let Err(e) = scan_domains(x, metrics) {
        return Err(e);
    }
    if metrics.len() != x.n_cols {
        return Err(
            AddiVortesError::MetricLengthMismatch { metric_len: metrics.len(), x_cols: x.n_cols },
        );
    }
    let p: usize = x.n_cols;
    if p >= 2 && (omega.is_nan() || reaches(omega, p)) {
        let reason = Message::of("must be less than the number of features p = ").count(p).text(
            ", got ",
        ).number(omega, Style::Plain);
        return Err(invalid_hyperparameter("omega", reason));
    }
    Ok(())
}

/// Shared predict-boundary validation, in the canonical order: feature count,
/// finite features, domains. A matrix without rows is valid.
pub fn validate_predict(x: &Data, expected_cols: usize, metrics: &[Metric]) -> (r: Result<()>)
    ensures
        match r {
            Ok(_) => predict_failure(x@, expected_cols, metrics@) is None,
            Err(e) => predict_failure(x@, expected_cols, metrics@) == Some(e@),
        },
{
    if x.n_cols != expected_cols {
        return Err(
            AddiVortesError::FeatureCountMismatch { expected: expected_cols, found: x.n_cols },
        );
    }
    if let Err(e) = scan_finite(x) {
        return Err(e);
    }
    scan_domains(x, metrics)
}

/// The warnings of a fit on `x`.
pub open spec fn warnings_for(x: Matrix) -> Seq<Warning> {
    if x.n_cols > x.n_rows {
        seq![Warning::MoreFeaturesThanObservations { p: x.n_cols, n: x.n_rows }]
    } else {
        Seq::empty()
    }
}

/// Fit-time warnings: more features than observations.
pub fn fit_warnings(x: &Data) -> (r: Vec<Warning>)
    ensures
        r@ == warnings_for(x@),
{
    let mut warnings: Vec<Warning> = Vec::new();
    if x.n_cols > x.n_rows {
        warnings.push(Warning::MoreFeaturesThanObservations { p: x.n_cols, n: x.n_rows });
    }
    assert(warnings@ =~= warnings_for(x@));
    warnings
}

/// Row and column of an offset.
proof fn lemma_offset(x: Matrix, r: int, c: int)
    requires
        x.well_formed(),
        0 <= r < x.n_rows,
        0 <= c < x.n_cols,
    ensures
        0 <= r * x.n_cols + c < x.values.len(),
        (r * x.n_cols + c) / x.n_cols as int == r,
        (r * x.n_cols + c) % x.n_cols as int == c,
{
    lemma_row_bounds(x, r);
    vstd::arithmetic::div_mod::lemma_fundamental_div_mod_converse(
        r * x.n_cols + c,
        x.n_cols as int,
        r,
        c,
    );
}

/// The offset of a row and column.
proof fn lemma_place(x: Matrix, k: int)
    requires
        x.well_formed(),
        0 <= k < x.values.len(),
    ensures
        x.n_cols > 0,
        0 <= k / x.n_cols as int,
        k / (x.n_cols as int) < x.n_rows,
        0 <= k % x.n_cols as int,
        k % (x.n_cols as int) < x.n_cols,
        x.entry(k / x.n_cols as int, k % x.n_cols as int) == x.values[k],
{
    assert(x.n_cols > 0) by (nonlinear_arith)
        requires
            0 <= k < x.n_rows * x.n_cols,
    ;
    let n = x.n_cols as int;
    vstd::arithmetic::div_mod::lemma_fundamental_div_mod(k, n);
    vstd::arithmetic::div_mod::lemma_mod_bound(k, n);
    vstd::arithmetic::div_mod::lemma_div_pos_is_pos(k, n);
    assert(n * (k / n) == (k / n) * n) by (nonlinear_arith);
    assert(k / n < x.n_rows) by (nonlinear_arith)
        requires
            n > 0,
            (k / n) * n <= k,
            k < x.n_rows * n,
    ;
}

/// Every entry of the matrix is finite.
pub open spec fn all_finite(x: Matrix) -> bool {
    forall|r: int, c: int|
        0 <= r < x.n_rows && 0 <= c < x.n_cols ==> (#[trigger] x.entry(r, c)).finite()
}

/// Two rows of the column hold different numbers.
pub open spec fn column_varies(x: Matrix, c: int) -> bool {
    exists|r: int, s: int|
        0 <= r < x.n_rows && 0 <= s < x.n_rows && !(#[trigger] x.entry(r, c)).same(
            #[trigger] x.entry(s, c),
        )
}

/// Every angle of the matrix lies between minus pi and pi.
pub open spec fn angles_lie_on_the_circle(x: Matrix, metrics: Seq<Metric>) -> bool {
    forall|r: int, c: int|
        0 <= r < x.n_rows && 0 <= c < x.n_cols && c < metrics.len() && metrics[c]
            == Metric::Spherical ==> minus_pi().at_most(#[trigger] x.entry(r, c)) && x.entry(
            r,
            c,
        ).at_most(pi())
}

/// The finiteness scan finds the first entry in reading order that is not finite.
proof fn lemma_finite_scan(x: Matrix)
    requires
        x.well_formed(),
    ensures
        finite_failure(x) is None <==> all_finite(x),
        finite_failure(x) is Some ==> finite_failure(x)->0 is NonFiniteFeature && {
            let (r, c) = (
                finite_failure(x)->0->NonFiniteFeature_row as int,
                finite_failure(x)->0->NonFiniteFeature_col as int,
            );
            &&& r < x.n_rows
            &&& c < x.n_cols
            &&& !x.entry(r, c).finite()
        },
{
    let p = |k: int| !x.values[k].finite();
    lemma_first_holds(x.values.len(), p);
    if finite_failure(x) is None {
        assert forall|r: int, c: int| 0 <= r < x.n_rows && 0 <= c < x.n_cols implies (
        #[trigger] x.entry(r, c)).finite() by {
            lemma_offset(x, r, c);
            assert(!p(r * x.n_cols + c));
        }
    } else {
        let k = first(x.values.len(), p)->0;
        assert(p(k));
        lemma_place(x, k);
    }
}

/// The domain scan finds the first angle in reading order that is not on the circle.
proof fn lemma_domain_scan(x: Matrix, metrics: Seq<Metric>)
    requires
        x.well_formed(),
    ensures
        domain_failure(x, metrics) is None <==> angles_lie_on_the_circle(x, metrics),
        domain_failure(x, metrics) is Some ==> domain_failure(x, metrics)->0
            is SphericalOutOfDomain && {
            let failure = domain_failure(x, metrics)->0;
            let r = failure->SphericalOutOfDomain_row as int;
            let c = failure->SphericalOutOfDomain_col as int;
            &&& r < x.n_rows
            &&& c < x.n_cols
            &&& c < metrics.len()
            &&& metrics[c] == Metric::Spherical
            &&& failure->SphericalOutOfDomain_value == x.entry(r, c)
            &&& !(minus_pi().at_most(x.entry(r, c)) && x.entry(r, c).at_most(pi()))
        },
{
    let p = |k: int| outside_domain(x, metrics, k);
    lemma_first_holds(x.values.len(), p);
    if domain_failure(x, metrics) is None {
        assert forall|r: int, c: int|
            0 <= r < x.n_rows && 0 <= c < x.n_cols && c < metrics.len() && metrics[c]
                == Metric::Spherical implies minus_pi().at_most(#[trigger] x.entry(r, c))
            && x.entry(r, c).at_most(pi()) by {
            lemma_offset(x, r, c);
            assert(!p(r * x.n_cols + c));
        }
    } else {
        let k = first(x.values.len(), p)->0;
        assert(p(k));
        lemma_place(x, k);
        let (r, c) = (k / x.n_cols as int, k % x.n_cols as int);
        assert(metrics[c] == Metric::Spherical);
        assert(!(minus_pi().at_most(x.entry(r, c)) && x.entry(r, c).at_most(pi())));
    }
}

/// Numbers of a finite column differ from its first one where any two of them differ.
proof fn lemma_varies(x: Matrix, c: int)
    requires
        x.well_formed(),
        all_finite(x),
        x.n_rows >= 1,
        0 <= c < x.n_cols,
    ensures
        constant_column(x, c) <==> !column_varies(x, c),
{
    assert(x.entry(0, c).finite());
    if constant_column(x, c) {
        assert forall|r: int, s: int| 0 <= r < x.n_rows && 0 <= s < x.n_rows implies (
        #[trigger] x.entry(r, c)).same(#[trigger] x.entry(s, c)) by {
            assert(r >= 1 ==> x.entry(r, c).same(x.entry(0, c)));
            assert(s >= 1 ==> x.entry(s, c).same(x.entry(0, c)));
        }
    } else {
        let r = choose|r: int| 1 <= r < x.n_rows && !(#[trigger] x.entry(r, c)).same(x.entry(0, c));
        assert(!x.entry(r, c).same(x.entry(0, c)));
    }
}

/// The fit boundary accepts data exactly where they can be fitted: as many responses as
/// rows, at least two of them, every number finite, two different responses, two
/// different numbers in every Euclidean column, every angle on the circle, one metric
/// for each column, and an `omega` below the number of columns where there are two or
/// more.
pub proof fn fit_accepts_exactly_usable_data(
    x: &Data,
    y: &[Binary64],
    metrics: &[Metric],
    omega: Binary64,
    r: Result<()>,
)
    requires
        x@.well_formed(),
        x@.n_cols < 0x20_0000_0000_0000,
        call_ensures(validate_fit, (x, y, metrics, omega), r),
    ensures
        r is Ok <==> {
            &&& y@.len() == x@.n_rows
            &&& x@.n_rows >= 2
            &&& forall|i: int| 0 <= i < y@.len() ==> (#[trigger] y@[i]).finite()
            &&& all_finite(x@)
            &&& exists|i: int, j: int|
                0 <= i < y@.len() && 0 <= j < y@.len() && !(#[trigger] y@[i]).same(
                    #[trigger] y@[j],
                )
            &&& forall|c: int|
                0 <= c < x@.n_cols && c < metrics@.len() && (#[trigger] metrics@[c])
                    == Metric::Euclidean ==> column_varies(x@, c)
            &&& angles_lie_on_the_circle(x@, metrics@)
            &&& metrics@.len() == x@.n_cols
            &&& x@.n_cols >= 2 ==> !omega.nan() && (if omega.finite() {
                omega.value() < x@.n_cols * pow2(1074)
            } else {
                omega.negative()
            })
        },
{
    let unfit = |i: int| !y@[i].finite();
    lemma_first_holds(y@.len(), unfit);
    lemma_finite_scan(x@);
    lemma_domain_scan(x@, metrics@);
    let p = |c: int| degenerate_column(x@, metrics@, c);
    lemma_first_holds(scanned_columns(x@, metrics@), p);
    assert(nearest_count(x@.n_cols as nat) == x@.n_cols);
    if x@.n_rows >= 2 && all_finite(x@) {
        assert forall|c: int| 0 <= c < scanned_columns(x@, metrics@) implies p(c) == (metrics@[c]
            == Metric::Euclidean && !column_varies(x@, c)) by {
            lemma_varies(x@, c);
        }
    }
    assert(forall|i: int| 0 <= i < y@.len() ==> unfit(i) == !(#[trigger] y@[i]).finite());
    if forall|i: int| 0 <= i < y@.len() ==> (#[trigger] y@[i]).finite() {
        assert forall|i: int| 0 <= i < y@.len() implies !#[trigger] unfit(i) by {}
        if exists|i: int| 0 <= i < y@.len() && !(#[trigger] y@[i]).same(y@[0]) {
            let i = choose|i: int| 0 <= i < y@.len() && !(#[trigger] y@[i]).same(y@[0]);
            assert(!y@[i].same(y@[0]));
        }
    }
    if r is Ok {
        assert forall|i: int| 0 <= i < y@.len() implies (#[trigger] y@[i]).finite() by {
            assert(!unfit(i));
        }
        let i = choose|i: int| 0 <= i < y@.len() && !(#[trigger] y@[i]).same(y@[0]);
        assert(!y@[i].same(y@[0]));
        assert forall|c: int|
            0 <= c < x@.n_cols && c < metrics@.len() && (#[trigger] metrics@[c])
                == Metric::Euclidean implies column_varies(x@, c) by {
            assert(!p(c));
        }
    }
}

/// Every refusal of the fit boundary names a fault that the data have, and nothing that
/// comes earlier in the order of the checks is at fault.
pub proof fn fit_refusals_name_the_fault(
    x: &Data,
    y: &[Binary64],
    metrics: &[Metric],
    omega: Binary64,
    e: AddiVortesError,
)
    requires
        x@.well_formed(),
        x@.n_cols < 0x20_0000_0000_0000,
        y@.len() <= usize::MAX,
        metrics@.len() <= usize::MAX,
        call_ensures(validate_fit, (x, y, metrics, omega), Err(e)),
    ensures
        match e@ {
            Failure::RowCountMismatch { y_len, x_rows } => y_len == y@.len() && x_rows == x@.n_rows
                && y_len != x_rows,
            Failure::InsufficientObservations { found, required } => found == x@.n_rows && found < 2
                && required == 2 && y@.len() == found,
            Failure::NonFiniteResponse { row } => x@.n_rows >= 2 && row < y@.len()
                && !y@[row as int].finite() && forall|i: int|
                0 <= i < row ==> (#[trigger] y@[i]).finite(),
            Failure::NonFiniteFeature { row, col } => row < x@.n_rows && col < x@.n_cols
                && !x@.entry(row as int, col as int).finite() && forall|i: int|
                0 <= i < y@.len() ==> (#[trigger] y@[i]).finite(),
            Failure::DegenerateResponse {  } => all_finite(x@) && forall|i: int, j: int|
                0 <= i < y@.len() && 0 <= j < y@.len() ==> (#[trigger] y@[i]).same(#[trigger] y@[j]),
            Failure::DegenerateFeature { col } => {
                &&& all_finite(x@)
                &&& col < x@.n_cols
                &&& col < metrics@.len()
                &&& metrics@[col as int] == Metric::Euclidean
                &&& forall|r: int, s: int|
                    0 <= r < x@.n_rows && 0 <= s < x@.n_rows ==> (#[trigger] x@.entry(
                        r,
                        col as int,
                    )).same(#[trigger] x@.entry(s, col as int))
                &&& forall|c: int|
                    0 <= c < col && (#[trigger] metrics@[c]) == Metric::Euclidean ==> column_varies(
                        x@,
                        c,
                    )
            },
            Failure::SphericalOutOfDomain { row, col, value } => {
                &&& row < x@.n_rows
                &&& col < x@.n_cols
                &&& col < metrics@.len()
                &&& metrics@[col as int] == Metric::Spherical
                &&& value == x@.entry(row as int, col as int)
                &&& value.finite()
                &&& value.below(minus_pi()) || pi().below(value)
            },
            Failure::MetricLengthMismatch { metric_len, x_cols } => metric_len == metrics@.len()
                && x_cols == x@.n_cols && metric_len != x_cols && angles_lie_on_the_circle(
                x@,
                metrics@,
            ),
            other => {
                &&& x@.n_cols >= 2
                &&& metrics@.len() == x@.n_cols
                &&& omega.nan() || (if omega.finite() {
                    omega.value() >= x@.n_cols * pow2(1074)
                } else {
                    !omega.negative()
                })
                &&& other == invalid(
                    "omega"@,
                    text("must be less than the number of features p = "@).count(
                        x@.n_cols as int,
                    ).text(", got "@).number(omega, Style::Plain),
                )
            },
        },
{
    let unfit = |i: int| !y@[i].finite();
    lemma_first_holds(y@.len(), unfit);
    lemma_finite_scan(x@);
    lemma_domain_scan(x@, metrics@);
    let p = |c: int| degenerate_column(x@, metrics@, c);
    lemma_first_holds(scanned_columns(x@, metrics@), p);
    assert(nearest_count(x@.n_cols as nat) == x@.n_cols);
    if first(y@.len(), unfit) is None {
        assert forall|i: int| 0 <= i < y@.len() implies (#[trigger] y@[i]).finite() by {
            assert(!unfit(i));
        }
    } else {
        let row = first(y@.len(), unfit)->0;
        assert(unfit(row));
        assert forall|i: int| 0 <= i < row implies (#[trigger] y@[i]).finite() by {
            assert(!unfit(i));
        }
    }
    if e@ is DegenerateResponse {
        assert forall|i: int, j: int| 0 <= i < y@.len() && 0 <= j < y@.len() implies (
        #[trigger] y@[i]).same(#[trigger] y@[j]) by {
            assert(y@[i].same(y@[0]) && y@[j].same(y@[0]));
        }
    }
    if e@ is DegenerateFeature {
        let col = e@->DegenerateFeature_col as int;
        assert(p(col));
        lemma_varies(x@, col);
        assert forall|c: int| 0 <= c < col && (#[trigger] metrics@[c])
            == Metric::Euclidean implies column_varies(x@, c) by {
            assert(!p(c));
            lemma_varies(x@, c);
        }
    }
    if e@ is SphericalOutOfDomain {
        let (row, col) = (
            e@->SphericalOutOfDomain_row as int,
            e@->SphericalOutOfDomain_col as int,
        );
        assert(x@.entry(row, col).finite());
    }
}

/// For finite data the refusal of a Euclidean column agrees with its scaling range: it
/// has none exactly where the column, read from top to bottom, holds one number only.
pub proof fn degenerate_columns_have_no_range(x: Matrix, c: int, column: Seq<Binary64>)
    requires
        x.well_formed(),
        all_finite(x),
        x.n_rows >= 1,
        0 <= c < x.n_cols,
        column == Seq::new(x.n_rows as nat, |r: int| x.entry(r, c)),
    ensures
        constant_column(x, c) <==> ColumnSemantics::Real.range(column) is None,
        constant_column(x, c) <==> !column_varies(x, c),
{
    lemma_varies(x, c);
    assert forall|i: int| 0 <= i < column.len() implies #[trigger] column[i].finite() by {
        assert(x.entry(i, c).finite());
    }
    degenerate_exactly_when_constant(column);
    assert(x.entry(0, c).finite());
    if constant_column(x, c) {
        assert forall|i: int| 0 <= i < column.len() implies (#[trigger] column[i]).same(
            column[0],
        ) by {
            assert(i >= 1 ==> x.entry(i, c).same(x.entry(0, c)));
        }
    } else {
        let r = choose|r: int| 1 <= r < x.n_rows && !(#[trigger] x.entry(r, c)).same(x.entry(0, c));
        assert(!column[r].same(column[0]));
    }
}

/// Which rows the predict boundary admits.
pub proof fn lemma_predict_admits(x: Matrix, expected_cols: usize, metrics: Seq<Metric>)
    requires
        x.well_formed(),
    ensures
        predict_failure(x, expected_cols, metrics) is None <==> x.n_cols == expected_cols
            && all_finite(x) && angles_lie_on_the_circle(x, metrics),
{
    lemma_finite_scan(x);
    lemma_domain_scan(x, metrics);
}

/// The predict boundary accepts rows exactly where they have the expected number of
/// columns, every number is finite and every angle is on the circle; no row at all is in
/// order.
pub proof fn predict_accepts_exactly_usable_rows(
    x: &Data,
    expected_cols: usize,
    metrics: &[Metric],
    r: Result<()>,
)
    requires
        x@.well_formed(),
        call_ensures(validate_predict, (x, expected_cols, metrics), r),
    ensures
        r is Ok <==> x@.n_cols == expected_cols && all_finite(x@) && angles_lie_on_the_circle(
            x@,
            metrics@,
        ),
        x@.n_rows == 0 ==> (r is Ok <==> x@.n_cols == expected_cols),
        r is Err ==> match r->Err_0@ {
            Failure::FeatureCountMismatch { expected, found } => expected == expected_cols && found
                == x@.n_cols && expected != found,
            Failure::NonFiniteFeature { row, col } => x@.n_cols == expected_cols && row
                < x@.n_rows && col < x@.n_cols && !x@.entry(row as int, col as int).finite(),
            Failure::SphericalOutOfDomain { row, col, value } => {
                &&& all_finite(x@)
                &&& row < x@.n_rows
                &&& col < x@.n_cols
                &&& col < metrics@.len()
                &&& metrics@[col as int] == Metric::Spherical
                &&& value == x@.entry(row as int, col as int)
                &&& value.below(minus_pi()) || pi().below(value)
            },
            _ => false,
        },
{
    lemma_finite_scan(x@);
    lemma_domain_scan(x@, metrics@);
    if r is Err && r->Err_0@ is SphericalOutOfDomain {
        let (row, col) = (
            r->Err_0@->SphericalOutOfDomain_row as int,
            r->Err_0@->SphericalOutOfDomain_col as int,
        );
        assert(x@.entry(row, col).finite());
    }
}

/// A fit warns once, and exactly where there are more columns than rows; the warning
/// carries both numbers.
pub proof fn warning_exactly_for_wide_data(x: &Data, r: Vec<Warning>)
    requires
        call_ensures(fit_warnings, (x,), r),
    ensures
        r@.len() == 1 <==> x@.n_cols > x@.n_rows,
        r@.len() <= 1,
        r@.len() == 1 ==> (r@[0] matches Warning::MoreFeaturesThanObservations { p, n } && p
            == x@.n_cols && n == x@.n_rows),
{
}

/// A matrix built from rows reads back entry by entry, and what it was built from is
/// what a buffer in reading order gives.
pub proof fn rows_read_back(rows: &[Vec<Binary64>], x: Data, r: int, c: int)
    requires
        call_ensures(Data::from_rows, (rows,), Ok(x)),
        0 <= r < rows@.len(),
        0 <= c < rows@[r]@.len(),
    ensures
        x@.n_rows == rows@.len(),
        x@.n_cols == rows@[r]@.len(),
        x@.entry(r, c) == rows@[r]@[c],
{
    let p = |i: int| rows@[i]@.len() != first_width(rows@);
    lemma_first_holds(rows@.len(), p);
    assert(!p(r));
    lemma_row_bounds(x@, r);
    assert(x@.row(r) == rows@[r]@);
    assert(x@.row(r)[c] == x@.entry(r, c));
}

/// Rows form a matrix exactly where all of them are equally long; otherwise the first
/// one that differs from the first row is named.
pub proof fn rows_must_be_equally_long(rows: &[Vec<Binary64>], r: Result<Data>)
    requires
        call_ensures(Data::from_rows, (rows,), r),
    ensures
        r is Ok <==> forall|i: int, j: int|
            0 <= i < rows@.len() && 0 <= j < rows@.len() ==> (#[trigger] rows@[i])@.len() == (
            #[trigger] rows@[j])@.len(),
        r is Err ==> exists|i: int|
            {
                &&& 0 < i < rows@.len()
                &&& (#[trigger] rows@[i])@.len() != rows@[0]@.len()
                &&& forall|j: int| 0 <= j < i ==> (#[trigger] rows@[j])@.len() == rows@[0]@.len()
                &&& r->Err_0@ == (Failure::InvalidDataShape {
                    reason: text("row "@).count(i).text(" has "@).count(
                        rows@[i]@.len() as int,
                    ).text(" values but row 0 has "@).count(rows@[0]@.len() as int),
                })
            },
{
    let p = |i: int| rows@[i]@.len() != first_width(rows@);
    lemma_first_holds(rows@.len(), p);
    if r is Ok {
        assert forall|i: int, j: int| 0 <= i < rows@.len() && 0 <= j < rows@.len() implies (
        #[trigger] rows@[i])@.len() == (#[trigger] rows@[j])@.len() by {
            assert(!p(i) && !p(j));
        }
    } else {
        let i = first(rows@.len(), p)->0;
        assert(p(i));
        assert(rows@[i]@.len() != rows@[0]@.len());
        assert forall|j: int| 0 <= j < i implies (#[trigger] rows@[j])@.len()
            == rows@[0]@.len() by {
            assert(!p(j));
        }
    }
}

/// A data set is read back as it was put in, value by value: the value in row `i` and
/// column `c` stands at `i` times the number of columns, plus `c`.
pub proof fn data_read_back(
    values: Vec<Binary64>,
    rows: usize,
    cols: usize,
    x: Result<Data>,
    read: &[Binary64],
    n_rows: usize,
    n_cols: usize,
    i: usize,
    row: &[Binary64],
    c: int,
    parts: (Vec<Binary64>, usize, usize),
)
    requires
        call_ensures(Data::new, (values, rows, cols), x),
        x is Ok ==> {
            &&& call_ensures(Data::values, (&x->Ok_0,), read)
            &&& call_ensures(Data::n_rows, (&x->Ok_0,), n_rows)
            &&& call_ensures(Data::n_cols, (&x->Ok_0,), n_cols)
            &&& call_ensures(Data::into_parts, (x->Ok_0,), parts)
            &&& i < rows && 0 <= c < cols
            &&& call_ensures(Data::row, (&x->Ok_0, i), row)
        },
    ensures
        x is Ok <==> values@.len() == rows * cols,
        x is Ok ==> {
            &&& read@ == values@ && parts.0@ == values@
            &&& n_rows == rows && parts.1 == rows
            &&& n_cols == cols && parts.2 == cols
            &&& row@.len() == cols
            &&& row@[c] == values@[i * cols + c]
        },
{
    if x is Ok {
        assert(0 <= i * cols && i * cols + cols <= rows * cols && (i + 1) * cols == i * cols
            + cols) by (nonlinear_arith)
            requires
                0 <= i < rows,
                0 <= cols,
        ;
        let matrix = (x->Ok_0)@;
        assert(matrix.row(i as int) == row@);
        assert(matrix.row(i as int)[c] == matrix.values[i * cols + c]);
    }
}

/// Data sets are equal exactly where their shapes are and their values are, one by one.
pub proof fn data_equal_value_by_value(a: Data, b: Data, r: bool)
    requires
        call_ensures(Data::equals, (&a, &b), r),
    ensures
        r <==> {
            &&& a@.n_rows == b@.n_rows && a@.n_cols == b@.n_cols
            &&& a@.values.len() == b@.values.len()
            &&& forall|i: int|
                0 <= i < a@.values.len() ==> (#[trigger] a@.values[i]).same(b@.values[i])
        },
{
}

/// A copied data set holds the same values in the same shape.
pub proof fn copied_data_are_the_data(a: Data, b: Data)
    requires
        call_ensures(Data::clone, (&a,), b),
    ensures
        b@.values == a@.values && b@.n_rows == a@.n_rows && b@.n_cols == a@.n_cols,
{
}

} // verus!
