use addivortes::binary64::{from_bits, Binary64};
use addivortes::engine::error::{
    require_at_least_one, require_non_negative_finite, require_positive_finite, AddiVortesError,
};
use addivortes::engine::handle::Handle;
use addivortes::message::{Message, Style};

fn num(x: f64) -> Binary64 {
    from_bits(x.to_bits())
}

/// The text of a message, its numbers in the styles that they ask for.
fn shown(message: &Message) -> String {
    let figures: Vec<String> = message
        .figures()
        .iter()
        .map(|figure| {
            let value = f64::from_bits(figure.value.bits);
            match figure.style {
                Style::Plain => format!("{}", value),
                Style::Exponent => format!("{:e}", value),
                Style::Scientific { digits, signed: true } => format!("{:+.*e}", digits, value),
                Style::Scientific { digits, signed: false } => format!("{:.*e}", digits, value),
                Style::Fixed { digits } => format!("{:.*}", digits, value),
            }
        })
        .collect();
    message.render(&figures)
}

/// Every variant's user-facing message, pinned exactly.
#[test]
fn display_messages_are_pinned() {
    let cases: Vec<(AddiVortesError, &str)> = vec![
        (
            AddiVortesError::NonFiniteResponse { row: 3 },
            "response value in row 3 is not finite",
        ),
        (
            AddiVortesError::NonFiniteFeature { row: 3, col: 7 },
            "feature value at row 3, col 7 is not finite",
        ),
        (
            AddiVortesError::RowCountMismatch { y_len: 10, x_rows: 12 },
            "response has 10 rows but the feature matrix has 12",
        ),
        (
            AddiVortesError::MetricLengthMismatch { metric_len: 4, x_cols: 5 },
            "metric list has 4 entries but the feature matrix has 5 columns",
        ),
        (
            AddiVortesError::InvalidDataShape {
                reason: Message::of("6 values cannot form a 2 by 4 matrix"),
            },
            "invalid data shape: 6 values cannot form a 2 by 4 matrix",
        ),
        (
            AddiVortesError::InsufficientObservations { found: 2, required: 10 },
            "found 2 observations but at least 10 are required",
        ),
        (
            AddiVortesError::InvalidHyperparameter {
                name: "m".into(),
                reason: Message::of("must be at least 1"),
            },
            "invalid hyperparameter `m`: must be at least 1",
        ),
        (
            AddiVortesError::FeatureCountMismatch { expected: 5, found: 4 },
            "model expected 5 features but got 4",
        ),
        (
            AddiVortesError::DegenerateResponse {},
            "response is constant (zero variance)",
        ),
        (
            AddiVortesError::DegenerateFeature { col: 2 },
            "feature in column 2 is constant (zero range)",
        ),
        (
            AddiVortesError::DegenerateResidual {},
            "response is an exact linear function of the features (zero residual variance)",
        ),
        (
            AddiVortesError::UnseenCategory { col: 1, value: num(9.0) },
            "column 1 contains category 9 not seen during fit",
        ),
        (
            AddiVortesError::InvalidQuantileProb { value: num(1.5) },
            "quantile probability 1.5 is not in the open interval (0, 1)",
        ),
        (
            AddiVortesError::SphericalOutOfDomain { row: 0, col: 3, value: num(7.0) },
            "spherical coordinate at row 0, col 3 is 7, outside the valid domain",
        ),
        (
            AddiVortesError::NonFiniteDistance { observation: 5, centre: 2 },
            "distance between observation 5 and centre 2 is not finite",
        ),
        (
            AddiVortesError::InvalidMoveSet {
                move_name: "AddCentre".into(),
                reason: Message::of("has zero weight"),
            },
            "invalid move set: move `AddCentre` has zero weight",
        ),
        (
            AddiVortesError::InvalidMetricGroup {
                reason: Message::of("column 3 is out of range"),
            },
            "invalid metric group: column 3 is out of range",
        ),
        (
            AddiVortesError::MissingStatistic { statistic: "sigma_sq".into() },
            "successive-conditional simulator never emitted statistic `sigma_sq`",
        ),
        (
            AddiVortesError::Extension { source: Handle { id: 1 } },
            "error from a user extension",
        ),
        (
            AddiVortesError::MembershipUnsupported { assigner: "Batch".into() },
            "assigner `Batch` does not support soft membership (no dense per-cell keys)",
        ),
    ];
    for (error, expected) in cases {
        assert_eq!(shown(&error.message()), expected);
    }
}

/// Value equality for ordinary variants; identity for `Extension`.
#[test]
fn partial_eq_semantics() {
    // same fields: equal
    assert_eq!(
        AddiVortesError::NonFiniteResponse { row: 1 },
        AddiVortesError::NonFiniteResponse { row: 1 },
    );
    // different fields: unequal
    assert_ne!(
        AddiVortesError::NonFiniteResponse { row: 1 },
        AddiVortesError::NonFiniteResponse { row: 2 },
    );
    // different variants: unequal
    assert_ne!(
        AddiVortesError::DegenerateResponse {},
        AddiVortesError::DegenerateFeature { col: 0 },
    );

    // Extension: two distinct inner errors are unequal, whatever they say
    let a = AddiVortesError::Extension { source: Handle { id: 1 } };
    let b = AddiVortesError::Extension { source: Handle { id: 2 } };
    assert_ne!(a, b);
    // but a clone shares the same inner error, so it is equal.
    let c = a.clone();
    assert_eq!(a, c);
}

/// Numbers are compared as numbers: two NaN payloads never agree.
#[test]
fn a_nan_payload_is_unequal_to_itself() {
    let nan = || AddiVortesError::InvalidQuantileProb { value: num(f64::NAN) };
    assert_ne!(nan(), nan());
    assert_eq!(
        AddiVortesError::InvalidQuantileProb { value: num(0.0) },
        AddiVortesError::InvalidQuantileProb { value: num(-0.0) },
    );
}

#[test]
fn scalar_requirements_name_the_setting_and_the_value() {
    assert!(require_positive_finite("nu", num(6.0)).is_ok());
    for (bad, text) in [(0.0, "0"), (-1.0, "-1"), (f64::NAN, "NaN"), (f64::INFINITY, "inf")] {
        let err = require_positive_finite("nu", num(bad)).unwrap_err();
        let message = shown(&err.message());
        assert!(message.starts_with("invalid hyperparameter `nu`: "), "{}", message);
        assert!(message.ends_with(text), "{}", message);
    }
    assert!(require_non_negative_finite("w", num(0.0)).is_ok());
    assert!(require_non_negative_finite("w", num(-0.5)).is_err());
    assert!(require_non_negative_finite("w", num(f64::INFINITY)).is_err());
    assert!(require_at_least_one("m", 1).is_ok());
    assert!(require_at_least_one("m", 0).is_err());
}
