//! The library's single error type.

use crate::binary64::{zero, Binary64};
use crate::engine::handle::Handle;
use crate::message::{reading, text, Message, Style, Text};
use vstd::prelude::*;

verus! {

/// Every error the library can return. One error channel for all boundary
/// validation.
#[derive(Debug)]
pub enum AddiVortesError {
    /// The response value in `row` is not a finite number (it is NaN or infinite).
    NonFiniteResponse { row: usize },
    /// The feature value at (`row`, `col`) is not a finite number (it is NaN or infinite).
    NonFiniteFeature { row: usize, col: usize },
    /// The response and the feature matrix disagree on the number of observations.
    RowCountMismatch { y_len: usize, x_rows: usize },
    /// The per-column metric list does not match the number of features.
    MetricLengthMismatch { metric_len: usize, x_cols: usize },
    /// The values cannot form the requested matrix (buffer length against shape, or
    /// ragged rows).
    InvalidDataShape { reason: Message },
    /// There are too few observations to fit the model.
    InsufficientObservations { found: usize, required: usize },
    /// A hyperparameter was given an invalid value.
    InvalidHyperparameter { name: String, reason: Message },
    /// Prediction input has a different number of features than the fitted model.
    FeatureCountMismatch { expected: usize, found: usize },
    /// The response is constant, so there is no variance to model.
    DegenerateResponse {},
    /// A feature column is constant, so it carries no information.
    DegenerateFeature { col: usize },
    /// The response is an exact linear function of the features, so the residual
    /// variance is zero.
    DegenerateResidual {},
    /// A categorical column holds a value that was not present during fitting.
    UnseenCategory { col: usize, value: Binary64 },
    /// A quantile probability was outside the open interval (0, 1).
    InvalidQuantileProb { value: Binary64 },
    /// A coordinate handed to the spherical metric is outside its valid domain.
    SphericalOutOfDomain { row: usize, col: usize, value: Binary64 },
    /// A computed distance between an observation and a centre is not finite.
    NonFiniteDistance { observation: usize, centre: usize },
    /// A custom move set is misconfigured.
    InvalidMoveSet { move_name: String, reason: Message },
    /// A compound per-column metric group is misconfigured.
    InvalidMetricGroup { reason: Message },
    /// Soft membership was selected but the configured assigner provides no dense
    /// per-cell keys.
    MembershipUnsupported { assigner: String },
    /// A calibration battery's successive-conditional simulator never emitted a
    /// statistic that the marginal-conditional draw produced.
    MissingStatistic { statistic: String },
    /// A user-supplied extension returned an error.
    Extension { source: Handle },
}

/// The mathematical model of an [`AddiVortesError`].
#[verifier::ext_equal]
pub enum Failure {
    /// See the variant of the same name.
    NonFiniteResponse { row: usize },
    /// See the variant of the same name.
    NonFiniteFeature { row: usize, col: usize },
    /// See the variant of the same name.
    RowCountMismatch { y_len: usize, x_rows: usize },
    /// See the variant of the same name.
    MetricLengthMismatch { metric_len: usize, x_cols: usize },
    /// See the variant of the same name.
    InvalidDataShape { reason: Text },
    /// See the variant of the same name.
    InsufficientObservations { found: usize, required: usize },
    /// See the variant of the same name.
    InvalidHyperparameter { name: Seq<char>, reason: Text },
    /// See the variant of the same name.
    FeatureCountMismatch { expected: usize, found: usize },
    /// See the variant of the same name.
    DegenerateResponse {},
    /// See the variant of the same name.
    DegenerateFeature { col: usize },
    /// See the variant of the same name.
    DegenerateResidual {},
    /// See the variant of the same name.
    UnseenCategory { col: usize, value: Binary64 },
    /// See the variant of the same name.
    InvalidQuantileProb { value: Binary64 },
    /// See the variant of the same name.
    SphericalOutOfDomain { row: usize, col: usize, value: Binary64 },
    /// See the variant of the same name.
    NonFiniteDistance { observation: usize, centre: usize },
    /// See the variant of the same name.
    InvalidMoveSet { move_name: Seq<char>, reason: Text },
    /// See the variant of the same name.
    InvalidMetricGroup { reason: Text },
    /// See the variant of the same name.
    MembershipUnsupported { assigner: Seq<char> },
    /// See the variant of the same name.
    MissingStatistic { statistic: Seq<char> },
    /// See the variant of the same name.
    Extension { source: Handle },
}

impl View for AddiVortesError {
    type V = Failure;

    open spec fn view(&self) -> Failure {
        match *self {
            AddiVortesError::NonFiniteResponse { row } => Failure::NonFiniteResponse {
                row,
            },
            AddiVortesError::NonFiniteFeature { row, col } => Failure::NonFiniteFeature {
                row,
                col,
            },
            AddiVortesError::RowCountMismatch { y_len, x_rows } => Failure::RowCountMismatch {
                y_len,
                x_rows,
            },
            AddiVortesError::MetricLengthMismatch { metric_len, x_cols } => Failure::MetricLengthMismatch {
                metric_len,
                x_cols,
            },
            AddiVortesError::InvalidDataShape { reason } => Failure::InvalidDataShape {
                reason: reason@,
            },
            AddiVortesError::InsufficientObservations { found, required } => Failure::InsufficientObservations {
                found,
                required,
            },
            AddiVortesError::InvalidHyperparameter { name, reason } => Failure::InvalidHyperparameter {
                name: name@,
                reason: reason@,
            },
            AddiVortesError::FeatureCountMismatch { expected, found } => Failure::FeatureCountMismatch {
                expected,
                found,
            },
            AddiVortesError::DegenerateResponse {} => Failure::DegenerateResponse {},
            AddiVortesError::DegenerateFeature { col } => Failure::DegenerateFeature {
                col,
            },
            AddiVortesError::DegenerateResidual {} => Failure::DegenerateResidual {},
            AddiVortesError::UnseenCategory { col, value } => Failure::UnseenCategory {
                col,
                value,
            },
            AddiVortesError::InvalidQuantileProb { value } => Failure::InvalidQuantileProb {
                value,
            },
            AddiVortesError::SphericalOutOfDomain { row, col, value } => Failure::SphericalOutOfDomain {
                row,
                col,
                value,
            },
            AddiVortesError::NonFiniteDistance { observation, centre } => Failure::NonFiniteDistance {
                observation,
                centre,
            },
            AddiVortesError::InvalidMoveSet { move_name, reason } => Failure::InvalidMoveSet {
                move_name: move_name@,
                reason: reason@,
            },
            AddiVortesError::InvalidMetricGroup { reason } => Failure::InvalidMetricGroup {
                reason: reason@,
            },
            AddiVortesError::MembershipUnsupported { assigner } => Failure::MembershipUnsupported {
                assigner: assigner@,
            },
            AddiVortesError::MissingStatistic { statistic } => Failure::MissingStatistic {
                statistic: statistic@,
            },
            AddiVortesError::Extension { source } => Failure::Extension {
                source,
            },
        }
    }
}

impl Failure {
    /// The user-facing message.
    pub open spec fn message(self) -> Text {
        match self {
            Failure::NonFiniteResponse { row } => text("response value in row "@).count(row as int).text(" is not finite"@),
            Failure::NonFiniteFeature { row, col } => text("feature value at row "@).count(row as int).text(", col "@).count(col as int).text(" is not finite"@),
            Failure::RowCountMismatch { y_len, x_rows } => text("response has "@).count(y_len as int).text(" rows but the feature matrix has "@).count(x_rows as int),
            Failure::MetricLengthMismatch { metric_len, x_cols } => text("metric list has "@).count(metric_len as int).text(" entries but the feature matrix has "@).count(x_cols as int).text(" columns"@),
            Failure::InvalidDataShape { reason } => text("invalid data shape: "@).then_text(reason),
            Failure::InsufficientObservations { found, required } => text("found "@).count(found as int).text(" observations but at least "@).count(required as int).text(" are required"@),
            Failure::InvalidHyperparameter { name, reason } => text("invalid hyperparameter `"@).text(name).text("`: "@).then_text(reason),
            Failure::FeatureCountMismatch { expected, found } => text("model expected "@).count(expected as int).text(" features but got "@).count(found as int),
            Failure::DegenerateResponse {} => text("response is constant (zero variance)"@),
            Failure::DegenerateFeature { col } => text("feature in column "@).count(col as int).text(" is constant (zero range)"@),
            Failure::DegenerateResidual {} => text("response is an exact linear function of the features (zero residual variance)"@),
            Failure::UnseenCategory { col, value } => text("column "@).count(col as int).text(" contains category "@).number(value, Style::Plain).text(" not seen during fit"@),
            Failure::InvalidQuantileProb { value } => text("quantile probability "@).number(value, Style::Plain).text(" is not in the open interval (0, 1)"@),
            Failure::SphericalOutOfDomain { row, col, value } => text("spherical coordinate at row "@).count(row as int).text(", col "@).count(col as int).text(" is "@).number(value, Style::Plain).text(", outside the valid domain"@),
            Failure::NonFiniteDistance { observation, centre } => text("distance between observation "@).count(observation as int).text(" and centre "@).count(centre as int).text(" is not finite"@),
            Failure::InvalidMoveSet { move_name, reason } => text("invalid move set: move `"@).text(move_name).text("` "@).then_text(reason),
            Failure::InvalidMetricGroup { reason } => text("invalid metric group: "@).then_text(reason),
            Failure::MembershipUnsupported { assigner } => text("assigner `"@).text(assigner).text("` does not support soft membership (no dense per-cell keys)"@),
            Failure::MissingStatistic { statistic } => text("successive-conditional simulator never emitted statistic `"@).text(statistic).text("`"@),
            Failure::Extension { source: _ } => text("error from a user extension"@),
        }
    }

    /// The reason, where the failure has one.
    pub open spec fn reason(self) -> Option<Text> {
        match self {
            Failure::InvalidDataShape { reason } => Some(reason),
            Failure::InvalidHyperparameter { reason, .. } => Some(reason),
            Failure::InvalidMoveSet { reason, .. } => Some(reason),
            Failure::InvalidMetricGroup { reason } => Some(reason),
            _ => None,
        }
    }

    /// There is a shown form of every figure of the reason.
    pub open spec fn shown_by(self, shown: Seq<String>) -> bool {
        self.reason() matches Some(reason) ==> shown.len() == reason.figures.len()
    }

    /// Value equality of what is shown: as [`Failure::same`], but two reasons are equal
    /// where they read alike, given the shown forms of the figures of each.
    pub open spec fn reads_like(
        self,
        shown: Seq<String>,
        other: Failure,
        other_shown: Seq<String>,
    ) -> bool {
        match (self, other) {
            (
                Failure::InvalidDataShape { reason: a },
                Failure::InvalidDataShape { reason: b },
            ) => reading(a, shown) == reading(b, other_shown),
            (
                Failure::InvalidHyperparameter { name: x, reason: a },
                Failure::InvalidHyperparameter { name: y, reason: b },
            ) => x == y && reading(a, shown) == reading(b, other_shown),
            (
                Failure::InvalidMoveSet { move_name: x, reason: a },
                Failure::InvalidMoveSet { move_name: y, reason: b },
            ) => x == y && reading(a, shown) == reading(b, other_shown),
            (
                Failure::InvalidMetricGroup { reason: a },
                Failure::InvalidMetricGroup { reason: b },
            ) => reading(a, shown) == reading(b, other_shown),
            _ => self.same(other),
        }
    }

    /// Value equality: numbers compare as numbers, so a NaN payload is equal to
    /// nothing; extension errors compare by identity; two different variants are
    /// never equal.
    pub open spec fn same(self, other: Failure) -> bool {
        match (self, other) {
            (
                Failure::UnseenCategory { col: c1, value: v1 },
                Failure::UnseenCategory { col: c2, value: v2 },
            ) => c1 == c2 && v1.same(v2),
            (
                Failure::InvalidQuantileProb { value: v1 },
                Failure::InvalidQuantileProb { value: v2 },
            ) => v1.same(v2),
            (
                Failure::SphericalOutOfDomain { row: r1, col: c1, value: v1 },
                Failure::SphericalOutOfDomain { row: r2, col: c2, value: v2 },
            ) => r1 == r2 && c1 == c2 && v1.same(v2),
            _ => self == other,
        }
    }
}

impl AddiVortesError {
    /// The user-facing message.
    pub fn message(&self) -> (r: Message)
        ensures
            r@ == self@.message(),
    {
        match self {
            AddiVortesError::NonFiniteResponse { row } => Message::of("response value in row ").count(*row).text(" is not finite"),
            AddiVortesError::NonFiniteFeature { row, col } => Message::of("feature value at row ").count(*row).text(", col ").count(*col).text(" is not finite"),
            AddiVortesError::RowCountMismatch { y_len, x_rows } => Message::of("response has ").count(*y_len).text(" rows but the feature matrix has ").count(*x_rows),
            AddiVortesError::MetricLengthMismatch { metric_len, x_cols } => Message::of("metric list has ").count(*metric_len).text(" entries but the feature matrix has ").count(*x_cols).text(" columns"),
            AddiVortesError::InvalidDataShape { reason } => Message::of("invalid data shape: ").then_message(reason),
            AddiVortesError::InsufficientObservations { found, required } => Message::of("found ").count(*found).text(" observations but at least ").count(*required).text(" are required"),
            AddiVortesError::InvalidHyperparameter { name, reason } => Message::of("invalid hyperparameter `").text(name.as_str()).text("`: ").then_message(reason),
            AddiVortesError::FeatureCountMismatch { expected, found } => Message::of("model expected ").count(*expected).text(" features but got ").count(*found),
            AddiVortesError::DegenerateResponse {} => Message::of("response is constant (zero variance)"),
            AddiVortesError::DegenerateFeature { col } => Message::of("feature in column ").count(*col).text(" is constant (zero range)"),
            AddiVortesError::DegenerateResidual {} => Message::of("response is an exact linear function of the features (zero residual variance)"),
            AddiVortesError::UnseenCategory { col, value } => Message::of("column ").count(*col).text(" contains category ").number(*value, Style::Plain).text(" not seen during fit"),
            AddiVortesError::InvalidQuantileProb { value } => Message::of("quantile probability ").number(*value, Style::Plain).text(" is not in the open interval (0, 1)"),
            AddiVortesError::SphericalOutOfDomain { row, col, value } => Message::of("spherical coordinate at row ").count(*row).text(", col ").count(*col).text(" is ").number(*value, Style::Plain).text(", outside the valid domain"),
            AddiVortesError::NonFiniteDistance { observation, centre } => Message::of("distance between observation ").count(*observation).text(" and centre ").count(*centre).text(" is not finite"),
            AddiVortesError::InvalidMoveSet { move_name, reason } => Message::of("invalid move set: move `").text(move_name.as_str()).text("` ").then_message(reason),
            AddiVortesError::InvalidMetricGroup { reason } => Message::of("invalid metric group: ").then_message(reason),
            AddiVortesError::MembershipUnsupported { assigner } => Message::of("assigner `").text(assigner.as_str()).text("` does not support soft membership (no dense per-cell keys)"),
            AddiVortesError::MissingStatistic { statistic } => Message::of("successive-conditional simulator never emitted statistic `").text(statistic.as_str()).text("`"),
            AddiVortesError::Extension { source: _ } => Message::of("error from a user extension"),
        }
    }

    /// Value equality. Numbers compare as numbers, and a user error is equal to the same
    /// one alone. Reasons compare as characters and figures, so a reason that carries a
    /// number as a figure is not equal to one with the same words typed out:
    /// [`AddiVortesError::reads_like`] compares what is shown.
    pub fn equals(&self, other: &Self) -> (r: bool)
        ensures
            r == self@.same(other@),
    {
        match (self, other) {
            (
                AddiVortesError::NonFiniteResponse { row: a },
                AddiVortesError::NonFiniteResponse { row: c },
            ) => *a == *c,
            (
                AddiVortesError::NonFiniteFeature { row: a, col: b },
                AddiVortesError::NonFiniteFeature { row: c, col: d },
            ) => *a == *c && *b == *d,
            (
                AddiVortesError::RowCountMismatch { y_len: a, x_rows: b },
                AddiVortesError::RowCountMismatch { y_len: c, x_rows: d },
            ) => *a == *c && *b == *d,
            (
                AddiVortesError::MetricLengthMismatch { metric_len: a, x_cols: b },
                AddiVortesError::MetricLengthMismatch { metric_len: c, x_cols: d },
            ) => *a == *c && *b == *d,
            (
                AddiVortesError::InvalidDataShape { reason: a },
                AddiVortesError::InvalidDataShape { reason: c },
            ) => a.equals(c),
            (
                AddiVortesError::InsufficientObservations { found: a, required: b },
                AddiVortesError::InsufficientObservations { found: c, required: d },
            ) => *a == *c && *b == *d,
            (
                AddiVortesError::InvalidHyperparameter { name: a, reason: b },
                AddiVortesError::InvalidHyperparameter { name: c, reason: d },
            ) => a.eq(c) && b.equals(d),
            (
                AddiVortesError::FeatureCountMismatch { expected: a, found: b },
                AddiVortesError::FeatureCountMismatch { expected: c, found: d },
            ) => *a == *c && *b == *d,
            (AddiVortesError::DegenerateResponse {}, AddiVortesError::DegenerateResponse {}) => true,
            (
                AddiVortesError::DegenerateFeature { col: a },
                AddiVortesError::DegenerateFeature { col: c },
            ) => *a == *c,
            (AddiVortesError::DegenerateResidual {}, AddiVortesError::DegenerateResidual {}) => true,
            (
                AddiVortesError::UnseenCategory { col: a, value: b },
                AddiVortesError::UnseenCategory { col: c, value: d },
            ) => *a == *c && b.is_same(*d),
            (
                AddiVortesError::InvalidQuantileProb { value: a },
                AddiVortesError::InvalidQuantileProb { value: c },
            ) => a.is_same(*c),
            (
                AddiVortesError::SphericalOutOfDomain { row: a, col: b, value: e },
                AddiVortesError::SphericalOutOfDomain { row: c, col: d, value: f },
            ) => *a == *c && *b == *d && e.is_same(*f),
            (
                AddiVortesError::NonFiniteDistance { observation: a, centre: b },
                AddiVortesError::NonFiniteDistance { observation: c, centre: d },
            ) => *a == *c && *b == *d,
            (
                AddiVortesError::InvalidMoveSet { move_name: a, reason: b },
                AddiVortesError::InvalidMoveSet { move_name: c, reason: d },
            ) => a.eq(c) && b.equals(d),
            (
                AddiVortesError::InvalidMetricGroup { reason: a },
                AddiVortesError::InvalidMetricGroup { reason: c },
            ) => a.equals(c),
            (
                AddiVortesError::MembershipUnsupported { assigner: a },
                AddiVortesError::MembershipUnsupported { assigner: c },
            ) => a.eq(c),
            (
                AddiVortesError::MissingStatistic { statistic: a },
                AddiVortesError::MissingStatistic { statistic: c },
            ) => a.eq(c),
            (
                AddiVortesError::Extension { source: a },
                AddiVortesError::Extension { source: c },
            ) => *a == *c,
            _ => false,
        }
    }
}

impl AddiVortesError {
    /// Value equality of what is shown: numbers compare as numbers, a user error is equal
    /// to the same one alone, and reasons compare as the words that they are shown as,
    /// given the shown forms of the figures of each.
    pub fn reads_like(
        &self,
        shown: &Vec<String>,
        other: &Self,
        other_shown: &Vec<String>,
    ) -> (r: bool)
        requires
            self@.shown_by(shown@),
            other@.shown_by(other_shown@),
        ensures
            r == self@.reads_like(shown@, other@, other_shown@),
    {
        match (self, other) {
            (
                AddiVortesError::InvalidDataShape { reason: a },
                AddiVortesError::InvalidDataShape { reason: b },
            ) => a.reads_like(shown, b, other_shown),
            (
                AddiVortesError::InvalidHyperparameter { name: x, reason: a },
                AddiVortesError::InvalidHyperparameter { name: y, reason: b },
            ) => x.eq(y) && a.reads_like(shown, b, other_shown),
            (
                AddiVortesError::InvalidMoveSet { move_name: x, reason: a },
                AddiVortesError::InvalidMoveSet { move_name: y, reason: b },
            ) => x.eq(y) && a.reads_like(shown, b, other_shown),
            (
                AddiVortesError::InvalidMetricGroup { reason: a },
                AddiVortesError::InvalidMetricGroup { reason: b },
            ) => a.reads_like(shown, b, other_shown),
            _ => self.equals(other),
        }
    }
}

impl PartialEq for AddiVortesError {
    fn eq(&self, other: &Self) -> (r: bool) {
        self.equals(other)
    }
}

impl vstd::std_specs::cmp::PartialEqSpecImpl for AddiVortesError {
    open spec fn obeys_eq_spec() -> bool {
        true
    }

    open spec fn eq_spec(&self, other: &Self) -> bool {
        self@.same(other@)
    }
}

impl Clone for AddiVortesError {
    fn clone(&self) -> (r: Self)
        ensures
            r@ == self@,
    {
        match self {
            AddiVortesError::NonFiniteResponse { row } => AddiVortesError::NonFiniteResponse {
                row: *row,
            },
            AddiVortesError::NonFiniteFeature { row, col } => AddiVortesError::NonFiniteFeature {
                row: *row,
                col: *col,
            },
            AddiVortesError::RowCountMismatch { y_len, x_rows } => AddiVortesError::RowCountMismatch {
                y_len: *y_len,
                x_rows: *x_rows,
            },
            AddiVortesError::MetricLengthMismatch { metric_len, x_cols } => AddiVortesError::MetricLengthMismatch {
                metric_len: *metric_len,
                x_cols: *x_cols,
            },
            AddiVortesError::InvalidDataShape { reason } => AddiVortesError::InvalidDataShape {
                reason: reason.clone(),
            },
            AddiVortesError::InsufficientObservations { found, required } => AddiVortesError::InsufficientObservations {
                found: *found,
                required: *required,
            },
            AddiVortesError::InvalidHyperparameter { name, reason } => AddiVortesError::InvalidHyperparameter {
                name: name.clone(),
                reason: reason.clone(),
            },
            AddiVortesError::FeatureCountMismatch { expected, found } => AddiVortesError::FeatureCountMismatch {
                expected: *expected,
                found: *found,
            },
            AddiVortesError::DegenerateResponse {} => AddiVortesError::DegenerateResponse {},
            AddiVortesError::DegenerateFeature { col } => AddiVortesError::DegenerateFeature {
                col: *col,
            },
            AddiVortesError::DegenerateResidual {} => AddiVortesError::DegenerateResidual {},
            AddiVortesError::UnseenCategory { col, value } => AddiVortesError::UnseenCategory {
                col: *col,
                value: *value,
            },
            AddiVortesError::InvalidQuantileProb { value } => AddiVortesError::InvalidQuantileProb {
                value: *value,
            },
            AddiVortesError::SphericalOutOfDomain { row, col, value } => AddiVortesError::SphericalOutOfDomain {
                row: *row,
                col: *col,
                value: *value,
            },
            AddiVortesError::NonFiniteDistance { observation, centre } => AddiVortesError::NonFiniteDistance {
                observation: *observation,
                centre: *centre,
            },
            AddiVortesError::InvalidMoveSet { move_name, reason } => AddiVortesError::InvalidMoveSet {
                move_name: move_name.clone(),
                reason: reason.clone(),
            },
            AddiVortesError::InvalidMetricGroup { reason } => AddiVortesError::InvalidMetricGroup {
                reason: reason.clone(),
            },
            AddiVortesError::MembershipUnsupported { assigner } => AddiVortesError::MembershipUnsupported {
                assigner: assigner.clone(),
            },
            AddiVortesError::MissingStatistic { statistic } => AddiVortesError::MissingStatistic {
                statistic: statistic.clone(),
            },
            AddiVortesError::Extension { source } => AddiVortesError::Extension {
                source: *source,
            },
        }
    }
}

/// Shorthand for results with the library's error.
pub type Result<T> = std::result::Result<T, AddiVortesError>;

/// The failure of an [`InvalidHyperparameter`](AddiVortesError::InvalidHyperparameter).
pub open spec fn invalid(name: Seq<char>, reason: Text) -> Failure {
    Failure::InvalidHyperparameter { name, reason }
}

/// The error for an invalid hyperparameter.
pub fn invalid_hyperparameter(name: &str, reason: Message) -> (r: AddiVortesError)
    ensures
        r@ == invalid(name@, reason@),
{
    AddiVortesError::InvalidHyperparameter { name: name.to_owned(), reason }
}

/// The reason of [`require_positive_finite`].
pub open spec fn positive_reason(value: Binary64) -> Text {
    text("must be finite and positive, got "@).number(value, Style::Plain)
}

/// The reason of [`require_non_negative_finite`].
pub open spec fn non_negative_reason(value: Binary64) -> Text {
    text("must be finite and non-negative, got "@).number(value, Style::Plain)
}

/// The reason of [`require_at_least_one`].
pub open spec fn at_least_one_reason() -> Text {
    text("must be at least 1"@)
}

/// `value` back where it is finite and strictly positive, otherwise an error that
/// names the argument.
pub fn require_positive_finite(name: &str, value: Binary64) -> (r: Result<Binary64>)
    ensures
        match r {
            Ok(v) => v == value && value.positive_finite(),
            Err(e) => !value.positive_finite() && e@ == invalid(name@, positive_reason(value)),
        },
{
    if value.is_positive_finite() {
        Ok(value)
    } else {
        let reason = Message::of("must be finite and positive, got ").number(value, Style::Plain);
        Err(invalid_hyperparameter(name, reason))
    }
}

/// As [`require_positive_finite`], but zero is allowed.
pub fn require_non_negative_finite(name: &str, value: Binary64) -> (r: Result<Binary64>)
    ensures
        match r {
            Ok(v) => v == value && value.non_negative_finite(),
            Err(e) => !value.non_negative_finite() && e@ == invalid(
                name@,
                non_negative_reason(value),
            ),
        },
{
    if value.is_non_negative_finite() {
        Ok(value)
    } else {
        let reason = Message::of("must be finite and non-negative, got ").number(
            value,
            Style::Plain,
        );
        Err(invalid_hyperparameter(name, reason))
    }
}

/// The count sibling of [`require_positive_finite`]: `value` must be at least 1.
pub fn require_at_least_one(name: &str, value: usize) -> (r: Result<usize>)
    ensures
        match r {
            Ok(v) => v == value && value >= 1,
            Err(e) => value == 0 && e@ == invalid(name@, at_least_one_reason()),
        },
{
    if value >= 1 {
        Ok(value)
    } else {
        Err(invalid_hyperparameter(name, Message::of("must be at least 1")))
    }
}

/// What a component that failed handed back: an error of the library, or one of
/// its own, known by its identity.
#[derive(Debug)]
pub enum ExtensionFailure {
    /// The component's error is one of the library's.
    Native(AddiVortesError),
    /// The component's error is of its own kind.
    Foreign(Handle),
}

/// Lift a component's error into the library's: one of the library's surfaces as
/// itself, any other is carried as
/// [`Extension`](AddiVortesError::Extension).
pub fn from_extension(failure: ExtensionFailure) -> (r: AddiVortesError)
    ensures
        match failure {
            ExtensionFailure::Native(e) => r@ == e@,
            ExtensionFailure::Foreign(h) => r@ == (Failure::Extension { source: h }),
        },
{
    match failure {
        ExtensionFailure::Native(e) => e,
        ExtensionFailure::Foreign(source) => AddiVortesError::Extension { source },
    }
}

/// Equality of errors is symmetric.
pub proof fn equality_is_symmetric(a: Failure, b: Failure)
    ensures
        a.same(b) == b.same(a),
{
}

/// An error that carries no NaN is equal to itself.
pub proof fn equality_is_reflexive_without_nan(a: Failure)
    requires
        match a {
            Failure::UnseenCategory { col: _, value } => !value.nan(),
            Failure::InvalidQuantileProb { value } => !value.nan(),
            Failure::SphericalOutOfDomain { row: _, col: _, value } => !value.nan(),
            _ => true,
        },
    ensures
        a.same(a),
{
}

/// Two extension errors are equal exactly when they are the same error object.
pub proof fn extension_equality_is_identity(a: Handle, b: Handle)
    ensures
        (Failure::Extension { source: a }).same(Failure::Extension { source: b }) <==> a == b,
{
}

/// What is equal reads alike, however its figures are shown.
pub proof fn equal_errors_read_alike(a: Failure, b: Failure, shown: Seq<String>)
    requires
        a.same(b),
    ensures
        a.reads_like(shown, b, shown),
{
}

/// Errors of different kinds are different, and errors of one kind are equal exactly
/// where what they carry is: positions, counts, names and reasons as they are, numbers by
/// their value.
pub proof fn equal_exactly_when_kind_and_contents_are(a: AddiVortesError, b: AddiVortesError, r: bool)
    requires
        call_ensures(AddiVortesError::equals, (&a, &b), r),
    ensures
        a@ is NonFiniteResponse || a@ is NonFiniteFeature || a@ is RowCountMismatch || a@
            is MetricLengthMismatch || a@ is InsufficientObservations || a@ is FeatureCountMismatch
            || a@ is DegenerateResponse || a@ is DegenerateFeature || a@ is DegenerateResidual || a@
            is NonFiniteDistance || a@ is MembershipUnsupported || a@ is MissingStatistic || a@
            is Extension || a@ is InvalidDataShape || a@ is InvalidHyperparameter || a@
            is InvalidMoveSet || a@ is InvalidMetricGroup ==> (r <==> a@ == b@),
        a@ matches Failure::InvalidQuantileProb { value } ==> (r <==> b@ is InvalidQuantileProb
            && value.same(b@->InvalidQuantileProb_value)),
        a@ matches Failure::UnseenCategory { col, value } ==> (r <==> b@ is UnseenCategory && col
            == b@->UnseenCategory_col && value.same(b@->UnseenCategory_value)),
        a@ matches Failure::SphericalOutOfDomain { row, col, value } ==> (r <==> b@
            is SphericalOutOfDomain && row == b@->SphericalOutOfDomain_row && col
            == b@->SphericalOutOfDomain_col && value.same(b@->SphericalOutOfDomain_value)),
{
}

/// A number is let through unchanged exactly where it is finite and above zero, or, for
/// the weaker check, not below zero; a count exactly where it is not zero. What is
/// refused is refused under the name that was given.
pub proof fn checks_let_sound_values_through(
    name: &str,
    value: Binary64,
    count: usize,
    strict: Result<Binary64>,
    weak: Result<Binary64>,
    counted: Result<usize>,
)
    requires
        call_ensures(require_positive_finite, (name, value), strict),
        call_ensures(require_non_negative_finite, (name, value), weak),
        call_ensures(require_at_least_one, (name, count), counted),
    ensures
        strict is Ok <==> value.finite() && zero().below(value),
        weak is Ok <==> value.finite() && zero().at_most(value),
        counted is Ok <==> count > 0,
        strict is Ok ==> weak is Ok && strict->Ok_0 == value,
        weak is Ok ==> weak->Ok_0 == value,
        counted is Ok ==> counted->Ok_0 == count,
        strict is Err ==> (strict->Err_0@ matches Failure::InvalidHyperparameter { name: n, .. } && n
            == name@),
        weak is Err ==> (weak->Err_0@ matches Failure::InvalidHyperparameter { name: n, .. } && n
            == name@),
        counted is Err ==> (counted->Err_0@ matches Failure::InvalidHyperparameter { name: n, .. }
            && n == name@),
{
}

/// An error that the library itself made passes an extension unwrapped; any other is
/// carried by its identity.
pub proof fn extensions_wrap_foreign_errors_only(failure: ExtensionFailure, r: AddiVortesError)
    requires
        call_ensures(from_extension, (failure,), r),
    ensures
        failure matches ExtensionFailure::Native(e) ==> r@ == e@,
        failure matches ExtensionFailure::Foreign(h) ==> r@ is Extension && r@->source == h,
{
}

/// Errors that are equal read alike, and those that read alike are of one kind.
pub proof fn errors_read_alike_within_their_kind(
    a: AddiVortesError,
    b: AddiVortesError,
    shown: &Vec<String>,
    equal: bool,
    alike: bool,
)
    requires
        call_ensures(AddiVortesError::equals, (&a, &b), equal),
        call_ensures(AddiVortesError::reads_like, (&a, shown, &b, shown), alike),
    ensures
        equal ==> alike,
        alike ==> (a@ is InvalidDataShape <==> b@ is InvalidDataShape) && (a@
            is InvalidHyperparameter <==> b@ is InvalidHyperparameter) && (a@
            is InvalidMoveSet <==> b@ is InvalidMoveSet) && (a@ is InvalidMetricGroup <==> b@
            is InvalidMetricGroup),
        alike && a@ is InvalidHyperparameter ==> a@->InvalidHyperparameter_name
            == b@->InvalidHyperparameter_name,
        alike && a@ is InvalidMoveSet ==> a@->move_name == b@->move_name,
{
}

} // verus!
