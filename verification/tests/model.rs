use addivortes::binary64::{from_bits, Binary64};
use addivortes::engine::config::{AddiVortesConfig, Inclusion};
use addivortes::engine::data::{Data, Metric, Warning};
use addivortes::engine::error::AddiVortesError;
use addivortes::engine::fitted::{
    rebuild, FittedAddiVortes, FittedParts, FittedScaler, SavedModel, FORMAT,
};
use addivortes::engine::handle::Handle;
use addivortes::engine::model::ResponseFamily;
use addivortes::engine::posterior::{Collector, PosteriorSamples};
use addivortes::engine::predict::{
    assignments_by_draw, cell_contributions, check_probs, credible_pairs, effective_metrics, label_quantile,
    quantile_neighbours, sorted_rows, CredibleInterval, Link, PredictionInterval, PredictiveLaw,
    QuantilePredictions,
};
use addivortes::engine::tessellation::Tessellation;
use addivortes::engine::usage::{inclusion_counts, total_dims};
use addivortes::extensions::{AssignmentCache, AssignmentDelta, CellAssigner};
use addivortes::message::{Message, Style};

fn num(x: f64) -> Binary64 {
    from_bits(x.to_bits())
}

fn nums(xs: &[f64]) -> Vec<Binary64> {
    xs.iter().map(|&x| num(x)).collect()
}

fn val(x: Binary64) -> f64 {
    f64::from_bits(x.bits)
}

/// The text of a message, its numbers in the styles that they ask for.
fn shown(message: &Message) -> String {
    let figures: Vec<String> = message
        .figures()
        .iter()
        .map(|figure| {
            let value = f64::from_bits(figure.value.bits);
            match figure.style {
                Style::Plain => format!("{}", value),
                Style::Exponent => format!("{:e}", value),
                Style::Scientific { digits, signed: true } => format!("{:+.*e}", digits, value),
                Style::Scientific { digits, signed: false } => format!("{:.*e}", digits, value),
                Style::Fixed { digits } => format!("{:.*}", digits, value),
            }
        })
        .collect();
    message.render(&figures)
}

fn cells(centres: &[f64], dims: &[usize]) -> Tessellation {
    let n = centres.len() / dims.len();
    let mus: Vec<f64> = (0..n).map(|i| 0.1 * i as f64).collect();
    Tessellation::new(nums(centres), dims.to_vec(), nums(&mus)).unwrap()
}

fn training_rows() -> Data {
    let n = 30;
    let xs: Vec<f64> = (0..n).map(|i| i as f64 / (n - 1) as f64).collect();
    Data::new(nums(&xs), n, 1).unwrap()
}

fn quick_config() -> AddiVortesConfig {
    AddiVortesConfig::new(31).with_m(10).with_burn_in(30).with_draws(40)
}

/// One variance per kept draw.
fn variances() -> Vec<Binary64> {
    (0..40).map(|d| num(0.02 + 0.001 * d as f64)).collect()
}

/// A model of one raw column with forty draws of ten tessellations.
fn plain_model(config: AddiVortesConfig) -> FittedAddiVortes {
    let scaler = FittedScaler::new(
        vec![None],
        vec![Metric::Euclidean],
        vec![0],
        vec![(num(0.0), num(1.0))],
        num(0.0),
        num(2.5),
    )
    .unwrap();
    let parts = FittedParts { scaler, config, custom_components: false, warnings: vec![] };
    let ensemble = |d: usize| -> Vec<Tessellation> {
        let at = d as f64 / 100.0;
        (0..10)
            .map(|j| if j % 2 == 0 { cells(&[at, 0.2], &[0]) } else { cells(&[0.3 - at], &[0]) })
            .collect()
    };
    FittedAddiVortes::from_parts(parts, variances(), (0..40).map(ensemble).collect()).unwrap()
}

/// A model of a Euclidean column and a categorical one with three levels.
fn categorical_model() -> FittedAddiVortes {
    let bit = (num(0.0), num(1.0));
    let scaler = FittedScaler::new(
        vec![None, Some(nums(&[1.0, 2.0, 3.0]))],
        vec![
            Metric::Euclidean,
            Metric::Categorical,
            Metric::Categorical,
            Metric::Categorical,
        ],
        vec![0, 1, 1, 1],
        vec![(num(-2.0), num(7.5)), bit, bit, bit],
        num(0.1),
        num(1.3),
    )
    .unwrap();
    let config = quick_config()
        .with_omega(num(1.5))
        .with_metrics(vec![Metric::Euclidean, Metric::Categorical]);
    let parts = FittedParts {
        scaler,
        config,
        custom_components: false,
        warnings: vec![Warning::MoreFeaturesThanObservations { p: 4, n: 3 }],
    };
    let ensemble = |d: usize| -> Vec<Tessellation> {
        (0..10)
            .map(|j| match (d % 2, j % 2) {
                (0, 0) => cells(&[0.1, 0.2], &[0]),
                (0, _) => cells(&[0.3, 0.0, 0.1, 0.2], &[1, 3]),
                (_, 0) => cells(&[0.1], &[2]),
                (_, _) => cells(&[0.2, 0.3], &[0]),
            })
            .collect()
    };
    let mut model =
        FittedAddiVortes::from_parts(parts, variances(), (0..40).map(ensemble).collect()).unwrap();
    model.in_sample_rmse = num(0.25);
    model
}

fn handle() -> Handle {
    Handle { id: 1 }
}

#[test]
fn validate_rejects_bad_hyperparameters() {
    let cases: Vec<(AddiVortesConfig, &str)> = vec![
        (AddiVortesConfig::new(1).with_m(0), "m"),
        (AddiVortesConfig::new(1).with_nu(num(0.0)), "nu"),
        (AddiVortesConfig::new(1).with_q(num(1.0)), "q"),
        (AddiVortesConfig::new(1).with_k(num(-1.0)), "k"),
        (AddiVortesConfig::new(1).with_sigma_c(num(f64::NAN)), "sigma_c"),
        (AddiVortesConfig::new(1).with_omega(num(0.0)), "omega"),
        (AddiVortesConfig::new(1).with_lambda_c(num(f64::INFINITY)), "lambda_c"),
        (AddiVortesConfig::new(1).with_draws(0), "draws"),
        (AddiVortesConfig::new(1).with_thinning(0), "thinning"),
    ];
    for (config, field) in cases {
        let err = config.validate().unwrap_err();
        match err {
            AddiVortesError::InvalidHyperparameter { name, .. } => assert_eq!(name, field),
            other => panic!("expected InvalidHyperparameter, got {:?}", other),
        }
    }
    assert!(AddiVortesConfig::new(1).validate().is_ok());
    // Without data a positive omega is enough: the bound by the columns depends on it.
    assert!(AddiVortesConfig::new(1).with_omega(num(0.5)).validate().is_ok());
}

#[test]
fn config_partial_eq_is_plain_value_equality() {
    let a = AddiVortesConfig::new(5).with_m(3);
    let b = || AddiVortesConfig::new(5).with_m(3);
    assert_eq!(a, b());
    assert_ne!(a, b().with_m(4));
    assert_ne!(a, b().with_cell_prior_sd(num(0.2)));
}

#[test]
fn quantile_probability_validation() {
    let x = training_rows();
    let model = plain_model(quick_config());
    for bad in [0.0, 1.0, -0.1, 1.5, f64::NAN] {
        match model.check_quantiles(&x, &nums(&[bad])).unwrap_err() {
            AddiVortesError::InvalidQuantileProb { .. } => {}
            other => panic!("expected InvalidQuantileProb, got {:?}", other),
        }
    }
    assert!(model.check_interval(&x, num(1.0)).is_err());
    // Empty probabilities also error (nothing to compute).
    assert!(model.check_quantiles(&x, &[]).is_err());
    // No columns against one expected: a feature-count mismatch.
    let empty = Data::from_rows(&[]).unwrap();
    assert!(matches!(
        model.check_quantiles(&empty, &nums(&[0.5])),
        Err(AddiVortesError::FeatureCountMismatch { .. })
    ));
    // No rows are fine: a result without rows.
    let empty_one_col = Data::new(vec![], 0, 1).unwrap();
    assert!(model.check_quantiles(&empty_one_col, &nums(&[0.5])).is_ok());
    let q = QuantilePredictions::new(vec![], nums(&[0.5]), 0);
    assert_eq!(q.n_rows(), 0);
    assert!(q.values().is_empty());
    // The first offender is named.
    assert_eq!(
        check_probs(&nums(&[0.5, 1.5, -1.0])).unwrap_err(),
        AddiVortesError::InvalidQuantileProb { value: num(1.5) }
    );
}

#[test]
fn prediction_interval_level_validation_and_empty_input() {
    let x = training_rows();
    let model = plain_model(quick_config());
    for bad in [0.0, 1.0, -0.1, 1.5, f64::NAN] {
        assert!(matches!(
            model.check_interval(&x, num(bad)),
            Err(AddiVortesError::InvalidQuantileProb { .. })
        ));
    }
    let empty_one_col = Data::new(vec![], 0, 1).unwrap();
    assert!(model.check_interval(&empty_one_col, num(0.9)).is_ok());
}

#[test]
fn log_likelihood_validates_response() {
    let x = training_rows();
    let model = plain_model(quick_config());
    let y = nums(&vec![0.5; 30]);
    assert!(model.check_scoring(&x, &y).is_ok());
    assert!(matches!(
        model.check_scoring(&x, &y[1..]),
        Err(AddiVortesError::RowCountMismatch { .. })
    ));
    let mut bad = y.clone();
    bad[3] = num(f64::NAN);
    assert!(matches!(
        model.check_scoring(&x, &bad),
        Err(AddiVortesError::NonFiniteResponse { row: 3 })
    ));
}

#[test]
fn a_probit_model_takes_labels_only() {
    let x = training_rows();
    let model =
        plain_model(quick_config().with_response_family(ResponseFamily::BinaryProbit));
    let labels: Vec<f64> = (0..30).map(|i| f64::from(i % 2 == 0)).collect();
    assert!(model.check_scoring(&x, &nums(&labels)).is_ok());
    let bad: Vec<f64> = labels.iter().map(|v| v + 0.5).collect();
    let err = model.check_scoring(&x, &nums(&bad)).unwrap_err();
    assert_eq!(
        shown(&err.message()),
        "invalid hyperparameter `response_family`: BinaryProbit needs a {0, 1} response; found 1.5"
    );
}

#[test]
fn inputs_of_another_width_are_refused() {
    let model = plain_model(quick_config());
    let wide = Data::from_rows(&[nums(&[0.0, 1.0])]).unwrap();
    assert_eq!(
        model.check_input(&wide).unwrap_err(),
        AddiVortesError::FeatureCountMismatch { expected: 1, found: 2 }
    );
}

#[test]
fn posterior_container_accessors_agree() {
    let model = plain_model(quick_config());
    let posterior = model.posterior();
    assert_eq!(posterior.n_draws(), 40);
    let mut collected = Vec::new();
    let mut draws = posterior.iter_draws();
    while let Some(draw) = draws.next() {
        collected.push(draw.sigma_sq);
        assert_eq!(draw.tessellations.len(), 10); // m
    }
    assert_eq!(collected, posterior.sigma_sq());
    assert_eq!(collected.len(), 40);
    assert!(draws.next().is_none());
    assert_eq!(posterior.tessellations(0).len(), 10);
    assert_eq!(posterior.draw(39).unwrap().sigma_sq, collected[39]);
    assert!(posterior.draw(40).is_none());
    let (posterior, scaler) = model.into_parts();
    let (sigma_sqs, draws) = posterior.into_parts();
    assert_eq!(sigma_sqs.len(), 40);
    assert_eq!(draws.len(), 40);
    assert_eq!(scaler.n_raw_cols(), 1);
}

/// The kept sweeps of a thinned chain are every third one of the same chain unthinned.
#[test]
fn thinning_keeps_every_kth_sweep() {
    let collect = |draws: usize, thinning: usize| {
        let mut collector = Collector::new(5, draws, thinning);
        let mut sweep = 0;
        while !collector.is_complete() {
            collector.take(num(sweep as f64), vec![cells(&[0.1], &[0])]);
            sweep += 1;
        }
        (collector.into_posterior().unwrap(), sweep)
    };
    let (thinned, thinned_sweeps) = collect(6, 3);
    let (dense, dense_sweeps) = collect(18, 1);
    assert_eq!(thinned_sweeps, 5 + 18);
    assert_eq!(dense_sweeps, 5 + 18);
    let expected: Vec<Binary64> = (0..6).map(|i| dense.sigma_sq()[i * 3 + 2]).collect();
    assert_eq!(thinned.sigma_sq(), expected.as_slice());
    assert_eq!(val(dense.sigma_sq()[0]), 5.0);
}

#[test]
fn kept_sweeps_are_refused_where_they_form_no_model() {
    let parts = || FittedParts {
        scaler: FittedScaler::new(
            vec![None],
            vec![Metric::Euclidean],
            vec![0],
            vec![(num(0.0), num(1.0))],
            num(0.0),
            num(1.0),
        )
        .unwrap(),
        config: quick_config(),
        custom_components: false,
        warnings: vec![],
    };
    let err = FittedAddiVortes::from_parts(parts(), vec![], vec![]).unwrap_err();
    assert_eq!(
        shown(&err.message()),
        "invalid hyperparameter `draws`: a fitted model needs at least one kept draw"
    );
    let err =
        FittedAddiVortes::from_parts(parts(), vec![], vec![vec![cells(&[0.1], &[0])]]).unwrap_err();
    assert_eq!(
        shown(&err.message()),
        "invalid hyperparameter `draws`: 0 sigma-squared values for 1 kept draws"
    );
}

#[test]
fn round_trip_is_bit_identical() {
    let model = categorical_model();
    let saved = categorical_model().into_saved().unwrap();
    assert_eq!(saved.format, FORMAT);
    let loaded = rebuild(saved).unwrap();
    assert_eq!(loaded.config(), model.config());
    assert_eq!(loaded.warnings(), model.warnings());
    assert_eq!(loaded.in_sample_rmse(), model.in_sample_rmse());
    assert_eq!(loaded.posterior().sigma_sq(), model.posterior().sigma_sq());
    for d in 0..40 {
        for (a, b) in
            loaded.posterior().tessellations(d).iter().zip(model.posterior().tessellations(d))
        {
            assert_eq!(a.centres(), b.centres());
            assert_eq!(a.dims(), b.dims());
            assert_eq!(a.mus(), b.mus());
        }
    }
    assert_eq!(loaded.scaler().col_map(), model.scaler().col_map());
    assert_eq!(loaded.scaler().metrics(), model.scaler().metrics());
    assert_eq!(loaded.scaler().ranges(), model.scaler().ranges());
    assert_eq!(loaded.scaler().levels(1), model.scaler().levels(1));
    assert_eq!(loaded.scaler().y_min(), model.scaler().y_min());
    assert_eq!(loaded.scaler().y_max(), model.scaler().y_max());
}

#[test]
fn the_family_survives_a_round_trip() {
    for family in [ResponseFamily::BinaryProbit, ResponseFamily::RobustT { df: num(5.0) }] {
        let saved = plain_model(quick_config().with_response_family(family)).into_saved().unwrap();
        assert_eq!(rebuild(saved).unwrap().config().response_family(), family);
    }
}

/// A tampered family parameter is rejected at load.
#[test]
fn corrupt_family_df_is_rejected() {
    let family = ResponseFamily::RobustT { df: num(5.0) };
    let mut saved = plain_model(quick_config().with_response_family(family)).into_saved().unwrap();
    saved.family = ResponseFamily::RobustT { df: num(-1.0) };
    let err = rebuild(saved).unwrap_err();
    assert!(shown(&err.message()).contains("RobustT needs finite df > 0; found -1"));
}

/// A payload of the first layout still loads, as the Gaussian family.
#[test]
fn format_1_payloads_still_load() {
    let model = plain_model(quick_config());
    let mut saved = plain_model(quick_config()).into_saved().unwrap();
    saved.format = 1;
    saved.family = ResponseFamily::default();
    let loaded = rebuild(saved).unwrap();
    assert_eq!(loaded.config().response_family(), ResponseFamily::Gaussian);
    assert_eq!(loaded.config(), model.config());
}

/// Every component without a portable form is refused, one at a time.
#[test]
fn every_custom_extension_refuses_to_serialise_on_its_own() {
    let config = quick_config;
    let cases: Vec<(&str, AddiVortesConfig)> = vec![
        ("move_set", config().with_move_set(handle())),
        ("coords", config().with_coords(vec![handle()])),
        ("assigner", config().with_distance(handle())),
        (
            "inclusion",
            config().with_inclusion(Inclusion { handle: handle(), weights: nums(&[1.0]) }),
        ),
        ("cell_model", config().with_cell_model(handle())),
        ("response_model", config().with_response_model(handle())),
        ("scale_model", config().with_scale_model(handle())),
        ("membership", config().with_membership(handle())),
        ("count_priors", config().with_count_priors(handle())),
        ("basis", config().with_cell_basis(handle())),
        ("cell_prior_sd", config().with_cell_prior_sd(num(0.25))),
    ];
    assert!(plain_model(quick_config()).into_saved().is_ok());
    for (component, config) in cases {
        match plain_model(config).into_saved() {
            Ok(_) => panic!("`{}` was saved instead of being refused", component),
            Err(reason) => assert!(
                shown(&reason).contains("custom extension points"),
                "`{}` was refused with the wrong error",
                component
            ),
        }
    }
    let mut model = plain_model(quick_config());
    model.custom_components = true;
    assert!(model.into_saved().is_err());
}

#[test]
fn corrupt_payloads_are_rejected_not_panics() {
    let reject = |mutate: &dyn Fn(&mut SavedModel), fragment: &str| {
        let mut saved = categorical_model().into_saved().unwrap();
        mutate(&mut saved);
        let err = rebuild(saved).unwrap_err();
        let text = shown(&err.message());
        assert!(text.contains(fragment), "{text}");
    };
    reject(&|v| v.format = 3, "not supported");
    reject(&|v| v.in_sample_rmse = num(-1.0), "finite and non-negative");
    reject(
        &|v| {
            v.posterior = PosteriorSamples::try_from_parts(
                variances(),
                (0..40)
                    .map(|d| (0..10).map(|_| cells(&[0.1], &[if d == 0 { 999 } else { 0 }])).collect())
                    .collect(),
            )
            .unwrap()
        },
        "covariate 999",
    );
    reject(&|v| v.m = 999, "tessellations per draw");
    reject(&|v| v.n_draws = 3, "draws but the configuration says 3");
    reject(&|v| v.metrics = None, "does not match the scaler");
    reject(&|v| v.nu = num(-1.0), "saved hyperparameters are invalid");

    let err = PosteriorSamples::try_from_parts(nums(&[-1.0]), vec![vec![cells(&[0.1], &[0])]])
        .unwrap_err();
    assert!(shown(&err.message()).contains("finite and positive"));
    let err = FittedScaler::new(
        vec![None, Some(nums(&[1.0, 2.0, 3.0]))],
        vec![
            Metric::Euclidean,
            Metric::Categorical,
            Metric::Categorical,
            Metric::Categorical,
        ],
        vec![1, 1, 1, 1],
        vec![(num(0.0), num(1.0)); 4],
        num(0.1),
        num(1.3),
    )
    .unwrap_err();
    assert!(shown(&err.message()).contains("column map"));
    let err = FittedScaler::new(
        vec![None],
        vec![Metric::Euclidean],
        vec![0],
        vec![],
        num(0.1),
        num(1.3),
    )
    .unwrap_err();
    assert!(shown(&err.message()).contains("encoding"));
}

#[test]
fn saved_draws_are_validated_on_their_own() {
    let message = |sigma_sqs: &[f64], draws: Vec<Vec<Tessellation>>| {
        shown(&PosteriorSamples::try_from_parts(nums(sigma_sqs), draws).unwrap_err().message())
    };
    let one = || vec![cells(&[0.1], &[0])];
    assert!(message(&[0.1, 0.2], vec![one()]).contains("one sigma-squared value per draw"));
    assert!(message(&[], vec![]).contains("draw"));
    let two = vec![cells(&[0.1], &[0]), cells(&[0.2], &[0])];
    assert!(!message(&[0.1, 0.2], vec![one(), two]).is_empty());
    let infinite =
        Tessellation::new(nums(&[f64::INFINITY]), vec![0], nums(&[0.0])).unwrap();
    assert!(message(&[0.1], vec![vec![infinite]]).contains("finite"));
}

#[test]
fn tessellation_deserialisation_validates_structure() {
    let t = Tessellation::new(nums(&[0.1, 0.2]), vec![1], nums(&[0.3, 0.4])).unwrap();
    assert_eq!(t.n_cells(), 2);
    assert_eq!(t.cell_payload(1), nums(&[0.4]).as_slice());
    let err = |centres: &[f64], dims: &[usize], mus: &[f64]| {
        shown(&Tessellation::new(nums(centres), dims.to_vec(), nums(mus)).unwrap_err())
    };
    assert!(err(&[], &[0], &[]).contains("at least one cell"));
    assert!(err(&[0.1], &[], &[]).contains("at least one active dimension"));
    assert!(err(&[0.1, 0.2], &[1, 1], &[0.3]).contains("distinct"));
    assert_eq!(err(&[0.1, 0.2, 0.3], &[0, 1], &[0.3]), "3 centre coordinates for 2 active dimensions");
    assert_eq!(err(&[0.1, 0.2], &[0], &[0.3, 0.4, 0.5]), "3 cell values for 2 cells");
}

/// Column 0 is Euclidean, column 1 categorical with three levels: encoded 0 counts for
/// raw 0, encoded 1 to 3 for raw 1.
#[test]
fn inclusion_counts_aggregate_one_hot_groups() {
    let model = categorical_model();
    let counts = inclusion_counts(model.posterior(), model.scaler().col_map(), 2);
    assert_eq!(counts, vec![200, 300]);
    assert_eq!(total_dims(model.posterior()), 500);
    assert_eq!(counts.iter().sum::<u64>(), total_dims(model.posterior()));
}

#[test]
fn a_single_column_takes_all_the_mass() {
    let model = plain_model(quick_config());
    let counts = inclusion_counts(model.posterior(), model.scaler().col_map(), 1);
    assert_eq!(counts, vec![total_dims(model.posterior())]);
}

#[test]
fn an_encoding_describes_its_raw_columns() {
    let model = categorical_model();
    let scaler = model.scaler();
    assert_eq!(scaler.n_raw_cols(), 2);
    assert_eq!(scaler.n_encoded_cols(), 4);
    assert_eq!(scaler.raw_metrics(), vec![Metric::Euclidean, Metric::Categorical]);
    assert!(scaler.levels(0).is_none());
    assert_eq!(scaler.levels(1).as_ref().unwrap().len(), 3);
}

#[test]
fn draws_are_sorted_row_by_row() {
    let per_draw = vec![nums(&[3.0, 0.5]), nums(&[1.0, -0.5]), nums(&[2.0, 0.0])];
    let sorted = sorted_rows(&per_draw, 2);
    assert_eq!(sorted, vec![nums(&[1.0, 2.0, 3.0]), nums(&[-0.5, 0.0, 0.5])]);
    assert_eq!(quantile_neighbours(&sorted[0], 1), (num(2.0), num(3.0)));
    assert_eq!(quantile_neighbours(&sorted[0], 2), (num(3.0), num(3.0)));
    assert_eq!(quantile_neighbours(&nums(&[7.0]), 0), (num(7.0), num(7.0)));
}

#[test]
fn interval_pairs_follow_the_rows() {
    let pairs = credible_pairs(&nums(&[0.1, 0.9, 0.2, 0.8]), 2);
    assert_eq!(pairs.len(), 2);
    assert_eq!((pairs[1].lower, pairs[1].upper), (num(0.2), num(0.8)));
    assert_eq!(label_quantile(num(0.05), num(0.4)), num(0.0));
    assert_eq!(label_quantile(num(0.4), num(0.4)), num(0.0));
    assert_eq!(label_quantile(num(0.95), num(0.4)), num(1.0));
}

#[test]
fn each_family_has_its_link_and_law() {
    assert_eq!(ResponseFamily::Gaussian.link(), Link::Unscale);
    assert_eq!(ResponseFamily::BinaryProbit.link(), Link::NormalCdf);
    let robust = ResponseFamily::RobustT { df: num(4.0) };
    assert_eq!(robust.link(), Link::Unscale);
    assert!(matches!(robust.predictive_law(), PredictiveLaw::StudentT { df } if df == num(4.0)));
}

#[test]
fn contributions_are_those_of_the_assigned_cells() {
    let t = Tessellation::new(nums(&[0.1, 0.5]), vec![0], nums(&[-1.0, 2.0])).unwrap();
    assert_eq!(cell_contributions(&t, &[1, 0, 1]), nums(&[2.0, -1.0, 2.0]));
    assert_eq!(effective_metrics(&None, 2), vec![Metric::Euclidean; 2]);
    assert_eq!(effective_metrics(&Some(vec![Metric::Prepared]), 1), vec![Metric::Prepared]);
}

/// Puts every observation into the last cell, and fails at a tessellation with as many
/// cells as it is told.
struct LastCell {
    refused: usize,
}

impl CellAssigner for LastCell {
    fn assign_cells(
        &self,
        x: &Data,
        tessellation: &Tessellation,
    ) -> addivortes::engine::error::Result<Vec<usize>> {
        if tessellation.n_cells() == self.refused {
            return Err(AddiVortesError::NonFiniteDistance { observation: 0, centre: 0 });
        }
        Ok(vec![tessellation.n_cells() - 1; x.n_rows()])
    }

    fn reassign(
        &self,
        x: &Data,
        new: &Tessellation,
        _delta: AssignmentDelta,
        _previous: &AssignmentCache,
    ) -> addivortes::engine::error::Result<AssignmentCache> {
        Ok(AssignmentCache::new(self.assign_cells(x, new)?, Vec::new()))
    }
}

#[test]
fn every_tessellation_of_every_draw_is_assigned() {
    let draws = vec![
        vec![cells(&[0.1, 0.2], &[0]), cells(&[0.1], &[0])],
        vec![cells(&[0.1, 0.2, 0.3], &[0]), cells(&[0.4, 0.5], &[0])],
    ];
    let posterior = PosteriorSamples::from_kept(nums(&[0.5, 0.6]), draws).unwrap();
    let x = Data::new(nums(&[0.0, 1.0]), 2, 1).unwrap();
    let all = assignments_by_draw(&LastCell { refused: 0 }, &x, &posterior).unwrap();
    assert_eq!(all, vec![vec![vec![1, 1], vec![0, 0]], vec![vec![2, 2], vec![1, 1]]]);
    let failed = assignments_by_draw(&LastCell { refused: 3 }, &x, &posterior);
    assert_eq!(
        failed.unwrap_err(),
        AddiVortesError::NonFiniteDistance { observation: 0, centre: 0 }
    );
}

#[test]
fn models_and_draws_are_copied_whole() {
    let model = categorical_model();
    let copy = model.clone();
    assert_eq!(copy.posterior, model.posterior);
    assert_eq!(copy.config, model.config);
    assert_eq!(copy.scaler.metrics(), model.scaler.metrics());
    assert_eq!(copy.scaler.col_map(), model.scaler.col_map());
    assert_eq!(copy.scaler.ranges(), model.scaler.ranges());
    assert_eq!(copy.scaler.raw_metrics(), model.scaler.raw_metrics());
    for col in 0..model.scaler.n_raw_cols() {
        assert_eq!(copy.scaler.levels(col), model.scaler.levels(col));
    }
    assert_eq!(copy.custom_components, model.custom_components);
    assert_eq!(copy.warnings, model.warnings);
    assert_eq!(copy.in_sample_rmse, model.in_sample_rmse);
}

#[test]
fn draws_and_quantiles_compare_number_by_number() {
    let draws = |mu: f64, sigma_sq: f64| {
        let t = Tessellation::new(nums(&[0.5]), vec![0], nums(&[mu])).unwrap();
        PosteriorSamples::try_from_parts(nums(&[sigma_sq]), vec![vec![t]]).unwrap()
    };
    assert_eq!(draws(0.0, 1.0), draws(-0.0, 1.0));
    assert_ne!(draws(0.0, 1.0), draws(0.1, 1.0));
    assert_ne!(draws(0.0, 1.0), draws(0.0, 2.0));
    let quantiles = |value: f64| QuantilePredictions::new(nums(&[value]), nums(&[0.5]), 1);
    assert_eq!(quantiles(1.0).clone(), quantiles(1.0));
    assert_ne!(quantiles(1.0), quantiles(2.0));
    assert_ne!(quantiles(f64::NAN), quantiles(f64::NAN));
    let interval = |upper: f64| CredibleInterval { lower: num(0.0), upper: num(upper) };
    assert_eq!(interval(0.0), interval(-0.0));
    assert_ne!(interval(f64::NAN), interval(f64::NAN));
    let interval = |upper: f64| PredictionInterval { lower: num(0.0), upper: num(upper) };
    assert_eq!(interval(0.0), interval(-0.0));
    assert_ne!(interval(f64::NAN), interval(f64::NAN));
}
