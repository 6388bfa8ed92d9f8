use addivortes::binary64::{from_bits, Binary64};
use addivortes::engine::builder::{Components, SamplerBuilder};
use addivortes::engine::config::{splitmix64, AddiVortesConfig, Inclusion};
use addivortes::engine::data::Metric;
use addivortes::engine::error::AddiVortesError;
use addivortes::engine::handle::Handle;
use addivortes::engine::model::ResponseFamily;

fn num(x: f64) -> Binary64 {
    from_bits(x.to_bits())
}

fn component(id: u64) -> Handle {
    Handle { id }
}

/// Every field takes part in equality: each case changes exactly one field of an
/// otherwise identical configuration and demands inequality.
#[test]
fn every_field_participates_in_equality() {
    let base = || AddiVortesConfig::new(1);
    let cases: Vec<(&str, AddiVortesConfig)> = vec![
        ("seed", base().with_seed(2)),
        ("m", base().with_m(7)),
        ("nu", base().with_nu(num(9.0))),
        ("q", base().with_q(num(0.5))),
        ("k", base().with_k(num(1.5))),
        ("sigma_c", base().with_sigma_c(num(0.25))),
        ("omega", base().with_omega(num(1.5))),
        ("lambda_c", base().with_lambda_c(num(25.0))),
        ("burn_in", base().with_burn_in(3)),
        ("n_draws", base().with_draws(3)),
        ("thinning", base().with_thinning(3)),
        ("metrics", base().with_metrics(vec![Metric::Spherical])),
        ("family", base().with_response_family(ResponseFamily::BinaryProbit)),
        ("move_set", base().with_move_set(component(1))),
        ("coords", base().with_coords(vec![component(2)])),
        ("assigner", base().with_distance(component(3))),
        ("membership", base().with_membership(component(4))),
        (
            "inclusion",
            base().with_inclusion(Inclusion { handle: component(5), weights: vec![num(1.0); 2] }),
        ),
        ("cell_model", base().with_cell_model(component(6))),
        ("basis", base().with_cell_basis(component(7))),
        ("response_model", base().with_response_model(component(8))),
        ("scale_model", base().with_scale_model(component(9))),
        ("count_priors", base().with_count_priors(component(10))),
        ("cell_prior_sd", base().with_cell_prior_sd(num(0.25))),
    ];

    assert_eq!(base(), base(), "a config must equal itself");
    for (field, perturbed) in cases {
        assert_ne!(
            perturbed,
            base(),
            "changing `{field}` left the config comparing equal"
        );
    }
}

/// The dial validates like every other hyperparameter: never clamped, rejected with
/// the exact field name.
#[test]
fn cell_prior_sd_validates_like_any_hyperparameter() {
    assert!(AddiVortesConfig::new(1).with_cell_prior_sd(num(0.25)).validate().is_ok());
    for bad in [0.0, -1.0, f64::NAN, f64::INFINITY] {
        let err = AddiVortesConfig::new(1).with_cell_prior_sd(num(bad)).validate().unwrap_err();
        assert!(matches!(
            err,
            AddiVortesError::InvalidHyperparameter { ref name, .. } if name == "cell_prior_sd"
        ));
    }
}

/// Plain values compare by value, whatever built them; components by identity.
#[test]
fn the_same_component_compares_equal() {
    let a = AddiVortesConfig::new(1).with_scale_model(component(9)).with_m(3);
    let b = AddiVortesConfig::new(1).with_m(3).with_scale_model(component(9));
    assert_eq!(a, b);
    assert_ne!(a, AddiVortesConfig::new(1).with_m(3).with_scale_model(component(8)));
}

/// The first outputs of the seed generator from state zero.
#[test]
fn seed_generator_reference_outputs() {
    let mut state = 0;
    assert_eq!(splitmix64(&mut state), 0xe220_a839_7b1d_cdaf);
    assert_eq!(splitmix64(&mut state), 0x6e78_9e6a_a1b9_65f4);
    assert_eq!(splitmix64(&mut state), 0x06c4_5d18_8009_454f);
}

#[test]
fn chains_have_seeds_of_their_own() {
    let seeds = AddiVortesConfig::new(42).chain_seeds(4).unwrap();
    assert_eq!(seeds.len(), 4);
    let again = AddiVortesConfig::new(42).chain_seeds(4).unwrap();
    assert_eq!(seeds, again);
    // More chains extend the list and leave its start alone.
    let more = AddiVortesConfig::new(42).chain_seeds(6).unwrap();
    assert_eq!(&more[..4], &seeds[..]);
    assert!(AddiVortesConfig::new(42).chain_seeds(0).is_err());
}

#[test]
fn a_builder_hands_on_what_was_chosen() {
    let builder = SamplerBuilder::new(AddiVortesConfig::new(3))
        .with_move_set(component(1))
        .with_response_family(ResponseFamily::BinaryProbit);
    assert_eq!(builder.config().response_family(), ResponseFamily::BinaryProbit);
    let (_, components) = builder.validated().unwrap();
    assert!(components.any_custom());
    assert!(!Components::default().any_custom());
}

#[test]
fn a_builder_refuses_an_invalid_configuration() {
    assert!(SamplerBuilder::new(AddiVortesConfig::new(3).with_m(0)).validated().is_err());
}

#[test]
fn later_chains_have_seeds_of_their_own() {
    let seeds = AddiVortesConfig::new(0).chain_seeds(200).unwrap();
    for a in 1..200 {
        for b in 1..a {
            assert_ne!(seeds[a], seeds[b]);
        }
    }
    // The first outputs of the generator from the state zero.
    assert_eq!(seeds[1], 0xe220_a839_7b1d_cdaf);
    assert_eq!(seeds[2], 0x6e78_9e6a_a1b9_65f4);
}

#[test]
fn the_last_setting_stands() {
    let twice = AddiVortesConfig::new(1)
        .with_m(5)
        .with_distance(component(1))
        .with_m(7)
        .with_assigner(component(2));
    let once = AddiVortesConfig::new(1).with_m(7).with_assigner(component(2));
    assert!(twice == once);
    let (_, components) = SamplerBuilder::new(AddiVortesConfig::new(1))
        .with_scale_model(component(3))
        .with_scale_model(component(4))
        .validated()
        .unwrap();
    assert_eq!(components.scale_model, Some(component(4)));
}

#[test]
fn a_copied_configuration_is_equal() {
    let config = AddiVortesConfig::new(4)
        .with_metrics(vec![Metric::Euclidean, Metric::Spherical])
        .with_response_family(ResponseFamily::RobustT { df: num(3.0) })
        .with_coords(vec![component(1), component(2)])
        .with_inclusion(Inclusion { handle: component(5), weights: vec![num(0.5), num(0.5)] });
    let copy = config.clone();
    assert_eq!(copy, config);
    assert_eq!(copy.inclusion.unwrap().weights, config.inclusion.unwrap().weights);
}
