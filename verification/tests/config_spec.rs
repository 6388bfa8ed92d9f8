use addivortes::binary64::{from_bits, Binary64};
use addivortes::config_spec::{
    response_family_name, Assembly, BasisSpec, ConfigSpec, CoordSpec, CountPriorsSpec, Distance,
    DistanceSpec, GowerColumnSpec, GowerKind, InclusionChoice, InclusionSpec, MembershipSpec, Move,
    MoveSpec, ScaleSpec,
};
use addivortes::engine::column::CoordLaw;
use addivortes::engine::config::AddiVortesConfig;
use addivortes::engine::data::{Data, Metric};
use addivortes::engine::error::{AddiVortesError, Result};
use addivortes::message::{Message, Style};
use serde_json::Value;

fn num(x: f64) -> Binary64 {
    from_bits(x.to_bits())
}

/// The text of a message, its numbers in the styles that they ask for.
fn shown(message: &Message) -> String {
    let figures: Vec<String> = message
        .figures()
        .iter()
        .map(|figure| {
            let value = f64::from_bits(figure.value.bits);
            match figure.style {
                Style::Plain => format!("{}", value),
                Style::Exponent => format!("{:e}", value),
                Style::Scientific { digits, signed: true } => format!("{:+.*e}", digits, value),
                Style::Scientific { digits, signed: false } => format!("{:.*e}", digits, value),
                Style::Fixed { digits } => format!("{:.*}", digits, value),
            }
        })
        .collect();
    message.render(&figures)
}

/// Forty rows of two columns.
fn data() -> Data {
    let mut values = Vec::new();
    for i in 0..40 {
        values.push(num(i as f64 / 40.0));
        values.push(num((i % 5) as f64 / 5.0));
    }
    Data::new(values, 40, 2).unwrap()
}

fn float(value: &Value) -> Binary64 {
    num(value.as_f64().unwrap())
}

fn floats(value: &Value) -> Vec<Binary64> {
    value.as_array().unwrap().iter().map(float).collect()
}

fn count(value: &Value) -> usize {
    value.as_u64().unwrap() as usize
}

fn word(value: &Value) -> String {
    value.as_str().unwrap().to_string()
}

fn kind(value: &Value) -> &str {
    value["type"].as_str().unwrap()
}

fn distance(value: &Value) -> DistanceSpec {
    match kind(value) {
        "euclidean" => DistanceSpec::Euclidean,
        "manhattan" => DistanceSpec::Manhattan,
        "cosine" => DistanceSpec::Cosine,
        "spherical" => DistanceSpec::Spherical,
        "minkowski" => DistanceSpec::Minkowski { p: float(&value["p"]) },
        "gower" => DistanceSpec::Gower {
            columns: value["columns"]
                .as_array()
                .unwrap()
                .iter()
                .map(|column| match kind(column) {
                    "numeric" => GowerColumnSpec::Numeric,
                    "categorical" => GowerColumnSpec::Categorical { levels: count(&column["levels"]) },
                    other => panic!("unknown column {}", other),
                })
                .collect(),
        },
        "mahalanobis" => DistanceSpec::Mahalanobis {
            precision: value["precision"].as_array().unwrap().iter().map(floats).collect(),
        },
        other => panic!("unknown distance {}", other),
    }
}

/// The description that a JSON text stands for.
fn spec(json: &str) -> ConfigSpec {
    let object: Value = serde_json::from_str(json).expect("valid json");
    let object = object.as_object().unwrap();
    let mut spec = ConfigSpec::new(object["seed"].as_u64().unwrap());
    for (key, value) in object {
        match key.as_str() {
            "seed" => {}
            "m" => spec.m = Some(count(value)),
            "burn_in" => spec.burn_in = Some(count(value)),
            "draws" => spec.draws = Some(count(value)),
            "thinning" => spec.thinning = Some(count(value)),
            "nu" => spec.nu = Some(float(value)),
            "q" => spec.q = Some(float(value)),
            "k" => spec.k = Some(float(value)),
            "lambda_c" => spec.lambda_c = Some(float(value)),
            "omega" => spec.omega = Some(float(value)),
            "sigma_c" => spec.sigma_c = Some(float(value)),
            "metrics" => spec.metrics = Some(value.as_array().unwrap().iter().map(word).collect()),
            "moves" => {
                spec.moves = Some(
                    value
                        .as_array()
                        .unwrap()
                        .iter()
                        .map(|entry| MoveSpec {
                            name: word(&entry["name"]),
                            weight: float(&entry["weight"]),
                        })
                        .collect(),
                )
            }
            "coords" => {
                spec.coords = Some(
                    value
                        .as_array()
                        .unwrap()
                        .iter()
                        .map(|law| {
                            let sigma_c = float(&law["sigma_c"]);
                            match kind(law) {
                                "euclidean_normal" => CoordSpec::EuclideanNormal { sigma_c },
                                "wrapped_normal" => CoordSpec::WrappedNormal { sigma_c },
                                other => panic!("unknown law {}", other),
                            }
                        })
                        .collect(),
                )
            }
            "distance" => spec.distance = Some(distance(value)),
            "inclusion" => {
                spec.inclusion = Some(match kind(value) {
                    "uniform" => InclusionSpec::Uniform,
                    "weighted" => InclusionSpec::Weighted { weights: floats(&value["weights"]) },
                    "dart" => InclusionSpec::Dart { alpha: float(&value["alpha"]) },
                    other => panic!("unknown inclusion {}", other),
                })
            }
            "response_family" => spec.response_family = Some(word(value)),
            "t_df" => spec.t_df = Some(float(value)),
            "scale" => {
                spec.scale = Some(match kind(value) {
                    "pinned" => ScaleSpec::Pinned { sigma_sq: float(&value["sigma_sq"]) },
                    "h_variance" => ScaleSpec::HVariance {
                        m_prime: count(&value["m_prime"]),
                        nu_prime: value.get("nu_prime").map(float),
                        lambda_prime: value.get("lambda_prime").map(float),
                    },
                    other => panic!("unknown scale {}", other),
                })
            }
            "count_priors" => spec.count_priors = Some(CountPriorsSpec::ShiftedPoissonBinomial),
            "basis" => {
                spec.basis = Some(BasisSpec::Linear {
                    columns: value["columns"].as_array().unwrap().iter().map(count).collect(),
                    sigma_beta_sq: float(&value["sigma_beta_sq"]),
                })
            }
            "membership" => {
                spec.membership = Some(MembershipSpec::Softmax { tau: float(&value["tau"]) })
            }
            other => panic!("unknown field {}", other),
        }
    }
    spec
}

/// Does the precision matrix of the description have a Cholesky factor? Only asked of
/// square ones.
fn definite(spec: &ConfigSpec) -> bool {
    let rows = match &spec.distance {
        Some(DistanceSpec::Mahalanobis { precision }) => precision,
        _ => return true,
    };
    let n = rows.len();
    if rows.iter().any(|row| row.len() != n) {
        return true;
    }
    let mut l = vec![vec![0.0_f64; n]; n];
    for i in 0..n {
        for j in 0..=i {
            let mut sum = f64::from_bits(rows[i][j].bits);
            for k in 0..j {
                sum -= l[i][k] * l[j][k];
            }
            if i == j {
                if !(sum > 0.0) {
                    return false;
                }
                l[i][i] = sum.sqrt();
            } else {
                l[i][j] = sum / l[j][j];
            }
        }
    }
    true
}

fn assembly(json: &str) -> Result<Assembly> {
    let spec = spec(json);
    let definite = definite(&spec);
    spec.into_config(&data(), definite)
}

fn from_json(json: &str) -> Result<AddiVortesConfig> {
    assembly(json).map(|assembly| assembly.config)
}

fn validates(json: &str) -> Result<()> {
    let spec = spec(json);
    let definite = definite(&spec);
    spec.validate(definite)
}

fn err(json: &str) -> String {
    shown(&from_json(json).unwrap_err().message())
}

#[test]
fn a_bare_seed_yields_the_crate_defaults() {
    assert_eq!(from_json(r#"{"seed": 7}"#).unwrap(), AddiVortesConfig::new(7));
}

#[test]
fn an_unset_field_does_not_override_its_default() {
    assert_eq!(
        from_json(r#"{"seed": 1, "lambda_c": 5.0}"#).unwrap(),
        AddiVortesConfig::new(1).with_lambda_c(num(5.0))
    );
}

#[test]
fn scalar_knobs_round_trip() {
    let config = from_json(
        r#"{"seed": 2, "m": 50, "burn_in": 10, "draws": 20, "thinning": 2,
            "nu": 4.0, "q": 0.9, "k": 2.0, "lambda_c": 5.0, "omega": 1.5,
            "sigma_c": 0.5}"#,
    )
    .unwrap();
    let expected = AddiVortesConfig::new(2)
        .with_m(50)
        .with_burn_in(10)
        .with_draws(20)
        .with_thinning(2)
        .with_nu(num(4.0))
        .with_q(num(0.9))
        .with_k(num(2.0))
        .with_lambda_c(num(5.0))
        .with_omega(num(1.5))
        .with_sigma_c(num(0.5));
    assert_eq!(config, expected);
}

/// Every component that a description can name is resolved.
#[test]
fn every_variant_resolves_to_its_component() {
    let shelf = |json: &str| assembly(json).unwrap_or_else(|e| panic!("{:?}\n{}", e, json)).shelf;

    let moves = shelf(
        r#"{"seed": 1, "omega": 1.0, "moves": [
              {"name": "add_centre", "weight": 0.3},
              {"name": "remove_centre", "weight": 0.3},
              {"name": "add_dimension", "weight": 0.1},
              {"name": "remove_dimension", "weight": 0.1},
              {"name": "change", "weight": 0.1},
              {"name": "swap", "weight": 0.1}]}"#,
    )
    .moves
    .unwrap();
    assert_eq!(moves.len(), 6);
    assert_eq!(moves[0], (Move::AddCentre, num(0.3)));
    assert_eq!(moves[5], (Move::Swap, num(0.1)));

    let coords = shelf(
        r#"{"seed": 1, "omega": 1.0, "coords": [
              {"type": "euclidean_normal", "sigma_c": 0.8},
              {"type": "wrapped_normal", "sigma_c": 0.5}]}"#,
    )
    .coords
    .unwrap();
    assert_eq!(
        coords,
        vec![
            CoordLaw::EuclideanNormal { sigma_c: num(0.8) },
            CoordLaw::WrappedNormal { sigma_c: num(0.5) },
        ]
    );

    for (json, name) in [
        (r#"{"seed": 1, "distance": {"type": "euclidean"}}"#, "Euclidean"),
        (r#"{"seed": 1, "distance": {"type": "manhattan"}}"#, "Manhattan"),
        (r#"{"seed": 1, "distance": {"type": "cosine"}}"#, "Cosine"),
        (r#"{"seed": 1, "distance": {"type": "spherical"}}"#, "Spherical"),
    ] {
        assert_eq!(format!("{:?}", shelf(json).distance.unwrap()), name);
    }
    let minkowski = shelf(r#"{"seed": 1, "distance": {"type": "minkowski", "p": 3.0}}"#).distance;
    assert!(matches!(minkowski, Some(Distance::Minkowski { p }) if p == num(3.0)));
    let gower = shelf(
        r#"{"seed": 1, "distance": {"type": "gower",
              "columns": [{"type": "numeric"}, {"type": "categorical", "levels": 3}]}}"#,
    )
    .distance;
    match gower {
        Some(Distance::Gower { kinds }) => {
            assert_eq!(kinds, vec![GowerKind::Numeric, GowerKind::Categorical { levels: 3 }])
        }
        other => panic!("{:?}", other),
    }
    let mahalanobis = shelf(
        r#"{"seed": 1, "distance": {"type": "mahalanobis",
              "precision": [[2.0, -0.5], [-0.5, 1.0]]}}"#,
    )
    .distance;
    match mahalanobis {
        Some(Distance::Mahalanobis { precision, width }) => {
            assert_eq!(precision, vec![num(2.0), num(-0.5), num(-0.5), num(1.0)]);
            assert_eq!(width, 2);
        }
        other => panic!("{:?}", other),
    }

    let uniform = shelf(r#"{"seed": 1, "inclusion": {"type": "uniform"}}"#).inclusion;
    assert!(matches!(uniform, Some(InclusionChoice::Uniform { p: 2 })));
    let weighted =
        shelf(r#"{"seed": 1, "inclusion": {"type": "weighted", "weights": [1.0, 3.0]}}"#).inclusion;
    match weighted {
        Some(InclusionChoice::Weighted { weights }) => {
            assert_eq!(weights, vec![num(1.0), num(3.0)])
        }
        other => panic!("{:?}", other),
    }
    let dart = shelf(r#"{"seed": 1, "inclusion": {"type": "dart", "alpha": 0.5}}"#).inclusion;
    assert!(matches!(dart, Some(InclusionChoice::Dart { p: 2, .. })));

    let pinned = shelf(r#"{"seed": 1, "scale": {"type": "pinned", "sigma_sq": 1.0}}"#).scale;
    assert_eq!(pinned, Some(ScaleSpec::Pinned { sigma_sq: num(1.0) }));
    let h_variance = shelf(r#"{"seed": 1, "scale": {"type": "h_variance", "m_prime": 5}}"#).scale;
    assert_eq!(
        h_variance,
        Some(ScaleSpec::HVariance { m_prime: 5, nu_prime: None, lambda_prime: None })
    );
    let h_pinned = shelf(
        r#"{"seed": 1, "scale": {"type": "h_variance", "m_prime": 5,
              "nu_prime": 3.0, "lambda_prime": 0.5}}"#,
    )
    .scale;
    assert_eq!(
        h_pinned,
        Some(ScaleSpec::HVariance {
            m_prime: 5,
            nu_prime: Some(num(3.0)),
            lambda_prime: Some(num(0.5))
        })
    );
    let counts = shelf(r#"{"seed": 1, "count_priors": {"type": "shifted_poisson_binomial"}}"#);
    assert_eq!(counts.count_priors, Some(CountPriorsSpec::ShiftedPoissonBinomial));
    let membership =
        shelf(r#"{"seed": 1, "membership": {"type": "softmax", "tau": 0.2}}"#).membership;
    assert_eq!(membership, Some(MembershipSpec::Softmax { tau: num(0.2) }));

    // Nothing is selected where nothing is named.
    let bare = shelf(r#"{"seed": 1}"#);
    assert!(bare.moves.is_none() && bare.coords.is_none() && bare.distance.is_none());
    assert!(bare.inclusion.is_none() && bare.scale.is_none() && bare.count_priors.is_none());
    assert!(bare.basis.is_none() && bare.membership.is_none());
}

/// The basis sets both halves of its point and takes the payload width from the
/// columns: the intercept and one coefficient each.
#[test]
fn the_basis_takes_its_width_from_the_columns() {
    let basis = assembly(
        r#"{"seed": 1, "basis": {"type": "linear", "columns": [0, 1], "sigma_beta_sq": 0.1}}"#,
    )
    .unwrap()
    .shelf
    .basis
    .unwrap();
    assert_eq!(basis.columns, vec![0, 1]);
    assert_eq!(basis.sigma_beta_sq, num(0.1));
    assert_eq!(basis.q, 3);
}

/// A bad DART concentration is an error naming the description's own key.
#[test]
fn a_bad_dart_alpha_is_an_error_not_a_process_abort() {
    assert!(err(r#"{"seed": 1, "inclusion": {"type": "dart", "alpha": 0.0}}"#).contains("alpha"));
    assert!(err(r#"{"seed": 1, "inclusion": {"type": "dart", "alpha": -1.0}}"#).contains("alpha"));
}

/// Shelf scalars are rejected under the description's dotted key.
#[test]
fn shelf_scalars_are_rejected_under_the_spec_key() {
    assert!(err(r#"{"seed": 1, "membership": {"type": "softmax", "tau": 0.0}}"#).contains("tau"));
    assert!(
        err(r#"{"seed": 1, "scale": {"type": "pinned", "sigma_sq": -1.0}}"#).contains("sigma_sq")
    );
    assert!(
        err(r#"{"seed": 1, "basis": {"type": "linear", "columns": [0], "sigma_beta_sq": 0.0}}"#)
            .contains("sigma_beta_sq")
    );
    assert!(
        err(
            r#"{"seed": 1, "coords": [{"type": "euclidean_normal", "sigma_c": 0.0},
                                  {"type": "euclidean_normal", "sigma_c": 1.0}]}"#
        )
        .contains("sigma_c")
    );
    assert!(err(r#"{"seed": 1, "response_family": "robust_t", "t_df": -2.0}"#).contains("t_df"));
}

#[test]
fn invalid_values_reproduce_the_shelf_messages() {
    assert!(err(r#"{"seed": 1, "m": 0}"#).contains("`m`"));
    assert!(err(r#"{"seed": 1, "q": 2.0}"#).contains("`q`"));
    assert!(err(r#"{"seed": 1, "metrics": ["nope"]}"#).contains("metric"));
    assert!(err(r#"{"seed": 1, "response_family": "cauchy"}"#).contains("response_family"));
    assert!(err(r#"{"seed": 1, "response_family": "robust_t"}"#).contains("t_df"));
    assert!(err(r#"{"seed": 1, "response_family": "gaussian", "t_df": 4.0}"#).contains("t_df"));
    assert!(
        err(r#"{"seed": 1, "moves": [{"name": "teleport", "weight": 1.0}]}"#).contains("teleport")
    );
    assert!(
        err(r#"{"seed": 1, "distance": {"type": "minkowski", "p": 0.5}}"#).contains("minkowski_p")
    );
    assert!(
        err(r#"{"seed": 1, "distance": {"type": "mahalanobis",
            "precision": [[1.0, 2.0, 3.0], [4.0, 5.0, 6.0]]}}"#)
        .contains("square")
    );
    assert!(
        err(r#"{"seed": 1, "distance": {"type": "mahalanobis",
            "precision": [[1.0, 2.0], [2.0, 1.0]]}}"#)
        .contains("positive definite")
    );
    assert!(
        err(r#"{"seed": 1, "distance": {"type": "mahalanobis",
            "precision": [[1.0, 0.5], [-0.5, 1.0]]}}"#)
        .contains("symmetric")
    );
}

/// Whole messages, with the quoted form of an unknown name.
#[test]
fn unknown_names_are_quoted() {
    assert_eq!(
        err(r#"{"seed": 1, "metrics": ["no\"pe"]}"#),
        "invalid hyperparameter `metrics`: unknown metric \"no\\\"pe\": expected one of \
         'euclidean', 'spherical', 'categorical', 'prepared'"
    );
}

/// The covariate-sized settings are checked against the data.
#[test]
fn covariate_sized_settings_are_checked_against_the_data() {
    let e = err(r#"{"seed": 1, "coords": [{"type": "euclidean_normal", "sigma_c": 0.8}]}"#);
    assert!(e.contains("p = 2"), "{e}");
    let e = err(r#"{"seed": 1, "inclusion": {"type": "weighted", "weights": [1.0]}}"#);
    assert!(e.contains("p = 2"), "{e}");
}

/// Pinning half the H-variance prior would silently mix a pinned regime with a
/// calibrated one.
#[test]
fn half_an_h_variance_prior_is_refused() {
    let e = err(r#"{"seed": 1, "scale": {"type": "h_variance", "m_prime": 5, "nu_prime": 3.0}}"#);
    assert!(e.contains("together"), "{e}");
}

/// The data-free mistakes are caught before any data is there.
#[test]
fn validate_catches_the_data_free_mistakes_before_any_fit() {
    let bad = [
        r#"{"seed": 1, "m": 0}"#,
        r#"{"seed": 1, "q": 2.0}"#,
        r#"{"seed": 1, "metrics": ["nope"]}"#,
        r#"{"seed": 1, "distance": {"type": "minkowski", "p": 0.5}}"#,
        r#"{"seed": 1, "distance": {"type": "mahalanobis", "precision": [[1.0,2.0],[2.0,1.0]]}}"#,
        r#"{"seed": 1, "membership": {"type": "softmax", "tau": 0.0}}"#,
        r#"{"seed": 1, "inclusion": {"type": "dart", "alpha": -1.0}}"#,
        r#"{"seed": 1, "inclusion": {"type": "weighted", "weights": [1.0, -2.0]}}"#,
        r#"{"seed": 1, "coords": [{"type": "euclidean_normal", "sigma_c": 0.0}]}"#,
        r#"{"seed": 1, "scale": {"type": "pinned", "sigma_sq": -1.0}}"#,
        r#"{"seed": 1, "response_family": "cauchy"}"#,
        r#"{"seed": 1, "moves": [{"name": "teleport", "weight": 1.0}]}"#,
        r#"{"seed": 1, "basis": {"type": "linear", "columns": [0], "sigma_beta_sq": 0.0}}"#,
    ];
    for json in bad {
        assert!(
            validates(json).is_err(),
            "validate() passed a spec it should have rejected: {json}"
        );
    }
}

/// Data-free validation rejects nothing that the data would admit.
#[test]
fn validate_accepts_everything_into_config_accepts() {
    let good = [
        r#"{"seed": 1}"#,
        // p-sized settings: valid here, and validate() cannot see the length.
        r#"{"seed": 1, "coords": [{"type": "euclidean_normal", "sigma_c": 0.8},
                                  {"type": "wrapped_normal", "sigma_c": 0.5}]}"#,
        r#"{"seed": 1, "inclusion": {"type": "weighted", "weights": [1.0, 3.0]}}"#,
        r#"{"seed": 1, "inclusion": {"type": "dart", "alpha": 0.5}}"#,
        r#"{"seed": 1, "distance": {"type": "minkowski", "p": 3.0}}"#,
        r#"{"seed": 1, "scale": {"type": "h_variance", "m_prime": 5}}"#,
        r#"{"seed": 1, "basis": {"type": "linear", "columns": [0], "sigma_beta_sq": 0.1}}"#,
        r#"{"seed": 1, "response_family": "robust_t", "t_df": 4.0}"#,
    ];
    for json in good {
        validates(json)
            .unwrap_or_else(|e| panic!("validate() rejected a valid spec: {:?}\n{}", e, json));
        from_json(json)
            .unwrap_or_else(|e| panic!("into_config rejected a valid spec: {:?}\n{}", e, json));
    }
}

/// The one class that data-free validation cannot catch: a covariate-sized setting of
/// the wrong length.
#[test]
fn a_wrong_length_passes_validate_and_fails_at_into_config() {
    let json = r#"{"seed": 1, "inclusion": {"type": "weighted", "weights": [1.0]}}"#;
    assert!(
        validates(json).is_ok(),
        "data-free validation cannot know p, so it must not guess"
    );
    let e = err(json);
    assert!(e.contains("p = 2"), "{e}");
}

/// Every built-in move answers to a name, and the name builds that move.
#[test]
fn every_builtin_move_is_reachable_from_a_spec() {
    let spec_names = [
        ("AddCentre", "add_centre"),
        ("RemoveCentre", "remove_centre"),
        ("AddDimension", "add_dimension"),
        ("RemoveDimension", "remove_dimension"),
        ("Change", "change"),
        ("Swap", "swap"),
    ];
    let builtin = [
        Move::AddCentre,
        Move::RemoveCentre,
        Move::AddDimension,
        Move::RemoveDimension,
        Move::Change,
        Move::Swap,
    ];
    for kernel in builtin {
        let (_, spec_name) = spec_names
            .iter()
            .find(|(move_name, _)| *move_name == kernel.name())
            .unwrap_or_else(|| panic!("the built-in move `{}` has no spec name", kernel.name()));
        let built = MoveSpec { name: (*spec_name).to_string(), weight: num(1.0) }
            .build()
            .unwrap_or_else(|e| panic!("`{}` is not reachable from a spec: {:?}", spec_name, e));
        assert_eq!(
            built.name(),
            kernel.name(),
            "the spec name `{spec_name}` built the wrong move"
        );
    }
    assert_eq!(builtin.len(), spec_names.len(), "stale spec-name table");
}

/// Undoing a move twice is the move.
#[test]
fn reversing_a_move_twice_gives_it_back() {
    for kernel in [Move::AddCentre, Move::RemoveDimension, Move::Change, Move::Swap] {
        assert_eq!(kernel.reverse().reverse(), kernel);
    }
    assert_eq!(Move::AddCentre.reverse(), Move::RemoveCentre);
}

#[test]
fn a_resolved_family_reports_its_name() {
    let config = from_json(r#"{"seed": 1, "response_family": "robust_t", "t_df": 4.0}"#).unwrap();
    assert_eq!(response_family_name(config.response_family()), "robust_t");
}

#[test]
fn metric_names_resolve() {
    let config = from_json(r#"{"seed": 1, "metrics": ["spherical", "prepared"]}"#).unwrap();
    assert_eq!(
        config,
        AddiVortesConfig::new(1).with_metrics(vec![Metric::Spherical, Metric::Prepared])
    );
    assert!(matches!(
        from_json(r#"{"seed": 1, "thinning": 0}"#).unwrap_err(),
        AddiVortesError::InvalidHyperparameter { ref name, .. } if name == "thinning"
    ));
}

fn full_spec() -> ConfigSpec {
    let mut spec = ConfigSpec::new(7);
    spec.m = Some(3);
    spec.nu = Some(num(6.0));
    spec.metrics = Some(vec!["euclidean".to_string(), "spherical".to_string()]);
    spec.moves = Some(vec![MoveSpec { name: "swap".to_string(), weight: num(0.5) }]);
    spec.coords = Some(vec![CoordSpec::WrappedNormal { sigma_c: num(0.8) }]);
    spec.distance = Some(DistanceSpec::Mahalanobis { precision: vec![vec![num(1.0)]] });
    spec.inclusion = Some(InclusionSpec::Weighted { weights: vec![num(1.0), num(2.0)] });
    spec.response_family = Some("gaussian".to_string());
    spec.scale =
        Some(ScaleSpec::HVariance { m_prime: 4, nu_prime: Some(num(1.0)), lambda_prime: None });
    spec.count_priors = Some(CountPriorsSpec::ShiftedPoissonBinomial);
    spec.basis = Some(BasisSpec::Linear { columns: vec![0], sigma_beta_sq: num(0.5) });
    spec.membership = Some(MembershipSpec::Softmax { tau: num(0.25) });
    spec
}

/// Every setting takes part in equality, and a copy is equal.
#[test]
fn descriptions_compare_setting_by_setting() {
    assert_eq!(full_spec().clone(), full_spec());
    let changes: Vec<fn(&mut ConfigSpec)> = vec![
        |s| s.seed = 8,
        |s| s.m = None,
        |s| s.burn_in = Some(1),
        |s| s.draws = Some(1),
        |s| s.thinning = Some(1),
        |s| s.nu = Some(num(5.0)),
        |s| s.q = Some(num(0.5)),
        |s| s.k = Some(num(1.0)),
        |s| s.lambda_c = Some(num(1.0)),
        |s| s.omega = Some(num(1.0)),
        |s| s.sigma_c = Some(num(1.0)),
        |s| s.metrics = Some(vec!["euclidean".to_string()]),
        |s| s.moves = Some(vec![MoveSpec { name: "swap".to_string(), weight: num(0.25) }]),
        |s| s.coords = Some(vec![CoordSpec::EuclideanNormal { sigma_c: num(0.8) }]),
        |s| s.distance = Some(DistanceSpec::Mahalanobis { precision: vec![vec![num(2.0)]] }),
        |s| s.inclusion = Some(InclusionSpec::Dart { alpha: num(1.0) }),
        |s| s.response_family = None,
        |s| s.t_df = Some(num(3.0)),
        |s| s.scale = Some(ScaleSpec::Pinned { sigma_sq: num(1.0) }),
        |s| s.count_priors = None,
        |s| s.basis = Some(BasisSpec::Linear { columns: vec![1], sigma_beta_sq: num(0.5) }),
        |s| s.membership = Some(MembershipSpec::Softmax { tau: num(0.5) }),
    ];
    for change in changes {
        let mut other = full_spec();
        change(&mut other);
        assert_ne!(other, full_spec());
        assert_eq!(other.clone(), other);
    }
}

/// Numbers compare as numbers: a NaN is equal to nothing, and the two zeros are equal.
#[test]
fn description_numbers_compare_as_numbers() {
    let (nan, plus, minus) = (num(f64::NAN), num(0.0), num(-0.0));
    let law = |sigma_c: Binary64| CoordSpec::EuclideanNormal { sigma_c };
    assert_ne!(law(nan), law(nan));
    assert_eq!(law(plus), law(minus));
    let scale = |sigma_sq: Binary64| ScaleSpec::Pinned { sigma_sq };
    assert_ne!(scale(nan), scale(nan));
    assert_eq!(scale(plus), scale(minus));
    let kernel = |tau: Binary64| MembershipSpec::Softmax { tau };
    assert_ne!(kernel(nan), kernel(nan));
    assert_eq!(kernel(plus), kernel(minus));
    let mut spec = full_spec();
    spec.q = Some(nan);
    assert_ne!(spec.clone(), spec);
}
