use std::f64::consts::PI;

use addivortes::binary64::{from_bits, Binary64};
use addivortes::engine::data::{fit_warnings, validate_fit, validate_predict, Data, Metric, Warning};
use addivortes::engine::error::AddiVortesError;
use addivortes::message::{Message, Style};

fn num(x: f64) -> Binary64 {
    from_bits(x.to_bits())
}

fn nums(xs: &[f64]) -> Vec<Binary64> {
    xs.iter().map(|&x| num(x)).collect()
}

fn floats(xs: &[Binary64]) -> Vec<f64> {
    xs.iter().map(|x| f64::from_bits(x.bits)).collect()
}

fn matrix(values: &[f64], n_rows: usize, n_cols: usize) -> Data {
    Data::new(nums(values), n_rows, n_cols).unwrap()
}

fn euclidean(p: usize) -> Vec<Metric> {
    vec![Metric::Euclidean; p]
}

/// A valid 3 by 2 fixture that passes every fit check with omega = 1.
fn valid_fixture() -> (Data, Vec<Binary64>) {
    (matrix(&[1.0, 10.0, 2.0, 20.0, 3.0, 30.0], 3, 2), nums(&[0.5, 1.5, 2.5]))
}

#[test]
fn new_rejects_wrong_buffer_length() {
    let err = Data::new(nums(&[0.0; 6]), 2, 4).unwrap_err();
    assert_eq!(
        err,
        AddiVortesError::InvalidDataShape {
            reason: Message::of("6 values cannot form a 2 by 4 matrix")
        }
    );
}

#[test]
fn from_rows_rejects_ragged_rows() {
    let err = Data::from_rows(&[nums(&[1.0, 2.0]), nums(&[3.0])]).unwrap_err();
    assert_eq!(
        err,
        AddiVortesError::InvalidDataShape {
            reason: Message::of("row 1 has 1 values but row 0 has 2")
        }
    );
}

#[test]
fn construction_and_accessors_round_trip() {
    let x = Data::from_rows(&[nums(&[1.0, 2.0]), nums(&[3.0, 4.0]), nums(&[5.0, 6.0])]).unwrap();
    assert_eq!((x.n_rows(), x.n_cols()), (3, 2));
    assert_eq!(floats(x.row(1)), &[3.0, 4.0]);
    assert_eq!(floats(x.values()), &[1.0, 2.0, 3.0, 4.0, 5.0, 6.0]);
    let (values, n_rows, n_cols) = x.into_parts();
    assert_eq!(floats(Data::new(values, n_rows, n_cols).unwrap().row(2)), &[5.0, 6.0]);
}

#[test]
fn empty_matrix_is_constructible() {
    let x = Data::from_rows(&[]).unwrap();
    assert_eq!((x.n_rows(), x.n_cols()), (0, 0));
    // It is valid at the predict boundary too.
    assert!(validate_predict(&x, 0, &[]).is_ok());
}

#[test]
fn a_shape_beyond_the_machine_is_refused() {
    let err = Data::new(Vec::new(), usize::MAX, 2).unwrap_err();
    assert!(matches!(err, AddiVortesError::InvalidDataShape { .. }));
}

#[test]
fn fit_row_count_mismatch() {
    let (x, _) = valid_fixture();
    let err = validate_fit(&x, &nums(&[1.0, 2.0]), &euclidean(2), num(1.0)).unwrap_err();
    assert_eq!(err, AddiVortesError::RowCountMismatch { y_len: 2, x_rows: 3 });
}

#[test]
fn fit_insufficient_observations() {
    let x = matrix(&[1.0, 2.0], 1, 2);
    let err = validate_fit(&x, &nums(&[1.0]), &euclidean(2), num(1.0)).unwrap_err();
    assert_eq!(err, AddiVortesError::InsufficientObservations { found: 1, required: 2 });
}

#[test]
fn fit_non_finite_response_scanned_before_features() {
    // Both y and X contain an offence: the response offence must win.
    let x = matrix(&[1.0, f64::NAN, 2.0, 20.0, 3.0, 30.0], 3, 2);
    let y = nums(&[0.5, f64::NEG_INFINITY, 2.5]);
    let err = validate_fit(&x, &y, &euclidean(2), num(1.0)).unwrap_err();
    assert_eq!(err, AddiVortesError::NonFiniteResponse { row: 1 });
}

#[test]
fn fit_non_finite_feature_first_offence_is_row_major() {
    // Offences at (1, 1) and (2, 0): the row-major scan must report (1, 1), and
    // report it identically on every call.
    let x = matrix(&[1.0, 10.0, 2.0, f64::INFINITY, f64::NAN, 30.0], 3, 2);
    let y = nums(&[0.5, 1.5, 2.5]);
    for _ in 0..3 {
        let err = validate_fit(&x, &y, &euclidean(2), num(1.0)).unwrap_err();
        assert_eq!(err, AddiVortesError::NonFiniteFeature { row: 1, col: 1 });
    }
}

#[test]
fn fit_degenerate_response() {
    let (x, _) = valid_fixture();
    let err = validate_fit(&x, &nums(&[7.0, 7.0, 7.0]), &euclidean(2), num(1.0)).unwrap_err();
    assert_eq!(err, AddiVortesError::DegenerateResponse {});
}

#[test]
fn fit_degenerate_feature_euclidean_only() {
    // Column 0 constant. As Euclidean it must error; declared Spherical (constant
    // angles are legitimate) it must pass that check.
    let x = matrix(&[1.0, 10.0, 1.0, 20.0, 1.0, 30.0], 3, 2);
    let y = nums(&[0.5, 1.5, 2.5]);
    let err = validate_fit(&x, &y, &euclidean(2), num(1.0)).unwrap_err();
    assert_eq!(err, AddiVortesError::DegenerateFeature { col: 0 });

    let metrics = vec![Metric::Spherical, Metric::Euclidean];
    assert!(validate_fit(&x, &y, &metrics, num(1.0)).is_ok());
}

#[test]
fn fit_prepared_columns_skip_degeneracy_and_domain_checks() {
    // Column 0 constant and far outside [-pi, pi]: declared Prepared it passes both
    // the degeneracy and the domain scan (finiteness only); declared Euclidean the
    // same data is degenerate.
    let x = matrix(&[9.0, 10.0, 9.0, 20.0, 9.0, 30.0], 3, 2);
    let y = nums(&[0.5, 1.5, 2.5]);
    let metrics = vec![Metric::Prepared, Metric::Euclidean];
    assert!(validate_fit(&x, &y, &metrics, num(1.0)).is_ok());
    assert!(validate_predict(&x, 2, &metrics).is_ok());
    let err = validate_fit(&x, &y, &euclidean(2), num(1.0)).unwrap_err();
    assert_eq!(err, AddiVortesError::DegenerateFeature { col: 0 });
    // Non-finite values are still rejected: the one check Prepared keeps.
    let nan = matrix(&[f64::NAN, 10.0, 9.0, 20.0, 9.0, 30.0], 3, 2);
    assert_eq!(
        validate_fit(&nan, &y, &metrics, num(1.0)).unwrap_err(),
        AddiVortesError::NonFiniteFeature { row: 0, col: 0 }
    );
}

#[test]
fn fit_spherical_domain_boundaries() {
    // Plus and minus pi are valid (closed interval); just outside is not.
    let metrics = vec![Metric::Spherical, Metric::Euclidean];
    let ok = matrix(&[PI, 10.0, -PI, 20.0, 0.0, 30.0], 3, 2);
    let y = nums(&[0.5, 1.5, 2.5]);
    assert!(validate_fit(&ok, &y, &metrics, num(1.0)).is_ok());

    let bad = matrix(&[PI, 10.0, 3.5, 20.0, 0.0, 30.0], 3, 2);
    let err = validate_fit(&bad, &y, &metrics, num(1.0)).unwrap_err();
    assert_eq!(
        err,
        AddiVortesError::SphericalOutOfDomain { row: 1, col: 0, value: num(3.5) }
    );
}

#[test]
fn fit_metric_length_mismatch() {
    let (x, y) = valid_fixture();
    let err = validate_fit(&x, &y, &euclidean(3), num(1.0)).unwrap_err();
    assert_eq!(err, AddiVortesError::MetricLengthMismatch { metric_len: 3, x_cols: 2 });
}

#[test]
fn fit_omega_must_be_below_p() {
    let (x, y) = valid_fixture();
    // p = 2: omega = 2 errors (no silent clamp), omega just below passes.
    let err = validate_fit(&x, &y, &euclidean(2), num(2.0)).unwrap_err();
    assert_eq!(
        err,
        AddiVortesError::InvalidHyperparameter {
            name: "omega".into(),
            reason: Message::of("must be less than the number of features p = 2, got ")
                .number(num(2.0), Style::Plain),
        }
    );
    assert_eq!(
        err.message().text("").render(&vec![
            "2".to_string();
            err.message().figures().len()
        ]),
        "invalid hyperparameter `omega`: must be less than the number of features p = 2, got 2"
    );
    assert!(validate_fit(&x, &y, &euclidean(2), num(1.999)).is_ok());
    // A NaN omega is never accepted.
    assert!(validate_fit(&x, &y, &euclidean(2), num(f64::NAN)).is_err());
}

#[test]
fn fit_omega_unchecked_when_p_is_one() {
    // p = 1: the check of omega against p is skipped.
    let x = matrix(&[1.0, 2.0, 3.0], 3, 1);
    let y = nums(&[0.5, 1.5, 2.5]);
    assert!(validate_fit(&x, &y, &euclidean(1), num(3.0)).is_ok());
}

#[test]
fn fit_ordering_metric_scans_precede_length_check() {
    // A spherical-domain offence is reported even though the metric list is also the
    // wrong length.
    let x = matrix(&[9.0, 10.0, 0.0, 20.0, 0.0, 30.0], 3, 2);
    let y = nums(&[0.5, 1.5, 2.5]);
    let metrics = vec![Metric::Spherical]; // wrong length and column 0 out of domain
    let err = validate_fit(&x, &y, &metrics, num(1.0)).unwrap_err();
    assert_eq!(
        err,
        AddiVortesError::SphericalOutOfDomain { row: 0, col: 0, value: num(9.0) }
    );
}

#[test]
fn predict_feature_count_mismatch() {
    let (x, _) = valid_fixture();
    let err = validate_predict(&x, 5, &euclidean(5)).unwrap_err();
    assert_eq!(err, AddiVortesError::FeatureCountMismatch { expected: 5, found: 2 });
}

#[test]
fn predict_non_finite_feature_first_offence() {
    let x = matrix(&[1.0, 10.0, 2.0, f64::NAN, f64::NAN, 30.0], 3, 2);
    let err = validate_predict(&x, 2, &euclidean(2)).unwrap_err();
    assert_eq!(err, AddiVortesError::NonFiniteFeature { row: 1, col: 1 });
}

#[test]
fn predict_spherical_domain() {
    let metrics = vec![Metric::Euclidean, Metric::Spherical];
    let x = matrix(&[1.0, -4.0], 1, 2);
    let err = validate_predict(&x, 2, &metrics).unwrap_err();
    assert_eq!(
        err,
        AddiVortesError::SphericalOutOfDomain { row: 0, col: 1, value: num(-4.0) }
    );
}

#[test]
fn predict_accepts_degenerate_and_small_inputs() {
    // Constant columns and a single row are fine at predict (fit-only checks).
    let x = matrix(&[1.0, 1.0], 1, 2);
    assert!(validate_predict(&x, 2, &euclidean(2)).is_ok());
}

#[test]
fn what_the_fit_boundary_admits_predicts() {
    let (x, y) = valid_fixture();
    assert!(validate_fit(&x, &y, &euclidean(2), num(1.0)).is_ok());
    assert!(validate_predict(&x, x.n_cols(), &euclidean(2)).is_ok());
}

#[test]
fn p_greater_than_n_yields_exactly_one_warning() {
    let x = matrix(&[0.0; 2 * 3], 2, 3);
    let warnings = fit_warnings(&x);
    assert_eq!(warnings, vec![Warning::MoreFeaturesThanObservations { p: 3, n: 2 }]);
    assert_eq!(
        warnings[0].message().render(&Vec::new()),
        "more features (3) than observations (2)"
    );
}

#[test]
fn p_not_greater_than_n_yields_no_warning() {
    let (x, _) = valid_fixture();
    assert!(fit_warnings(&x).is_empty()); // p = 2 < n = 3
    let square = matrix(&[0.0; 4], 2, 2);
    assert!(fit_warnings(&square).is_empty()); // p = n
}

#[test]
fn matrices_compare_number_by_number() {
    let (x, _) = valid_fixture();
    assert_eq!(x.clone(), x);
    assert_eq!(matrix(&[0.0, 1.0], 1, 2), matrix(&[-0.0, 1.0], 1, 2));
    assert_ne!(matrix(&[0.0, 1.0], 1, 2), matrix(&[0.0, 1.0], 2, 1));
    assert_ne!(matrix(&[0.0, 1.0], 1, 2), matrix(&[0.0, 2.0], 1, 2));
    let holed = matrix(&[f64::NAN, 1.0], 1, 2);
    assert_ne!(holed.clone(), holed);
}

/// A number that is carried as a figure is not equal to the same number typed out.
#[test]
fn reasons_compare_as_characters_and_figures() {
    let typed = Message::of("got 2");
    let carried = Message::of("got ").number(num(2.0), Style::Plain);
    assert!(!typed.equals(&carried));
    assert_eq!(carried.render(&vec!["2".to_string()]), typed.render(&vec![]));
    let shape = |reason: Message| AddiVortesError::InvalidDataShape { reason };
    let (typed, carried) = (shape(typed), shape(carried));
    assert_ne!(typed, carried);
    // Once the figure is shown, the two read alike.
    assert!(typed.reads_like(&vec![], &carried, &vec!["2".to_string()]));
    assert!(!typed.reads_like(&vec![], &carried, &vec!["2.0".to_string()]));
    let other = AddiVortesError::DegenerateResponse {};
    assert!(!typed.reads_like(&vec![], &other, &vec![]));
    assert!(other.reads_like(&vec![], &other, &vec![]));
    // All NaNs are shown alike, so they are carried as one.
    let nan = |bits: u64| Message::of("got ").number(from_bits(bits), Style::Plain);
    assert!(nan(0x7ff8_0000_0000_0000).equals(&nan(0xfff0_0000_0000_0001)));
}
