use addivortes::binary64::{from_bits, Binary64};
use addivortes::engine::backfit::{
    check_membership_row, occupied_under_membership, Backfit, Composition, EnsembleUnit, Event,
    Path, Stage, StatsSource,
};
use addivortes::engine::error::AddiVortesError;
use addivortes::engine::handle::Handle;
use addivortes::engine::tessellation::Tessellation;
use addivortes::extensions::{AssignmentCache, AssignmentDelta};

fn num(x: f64) -> Binary64 {
    from_bits(x.to_bits())
}

fn nums(xs: &[f64]) -> Vec<Binary64> {
    xs.iter().map(|&x| num(x)).collect()
}

fn cells(centres: &[f64]) -> Tessellation {
    Tessellation::new(nums(centres), vec![0], nums(&vec![0.0; centres.len()])).unwrap()
}

fn cache(assignment: &[usize]) -> AssignmentCache {
    AssignmentCache::new(assignment.to_vec(), Vec::new())
}

fn hard_unit() -> EnsembleUnit {
    EnsembleUnit::new(
        vec![cells(&[0.0, 1.0]), cells(&[0.5])],
        vec![cache(&[0, 1, 1]), cache(&[0, 0, 0])],
        Composition::Additive,
    )
}

/// Softmax memberships of observations at 0, 0.45 and 1 against centres at 0 and 1.
fn memberships() -> Vec<f64> {
    let mut rows = Vec::new();
    for x in [0.0_f64, 0.45, 1.0] {
        let keys = [x * x, (x - 1.0) * (x - 1.0)];
        let best = keys[0].min(keys[1]);
        let weights: Vec<f64> = keys.iter().map(|k| libm::exp(-(k - best) / 0.5)).collect();
        let total: f64 = weights.iter().sum();
        assert!(check_membership_row(&nums(&weights), num(total), 0).is_none());
        rows.extend(weights.iter().map(|w| w / total));
    }
    rows
}

#[test]
fn memberships_are_row_normalised_and_guarded() {
    let memberships = memberships();
    for i in 0..3 {
        assert!((memberships[2 * i] + memberships[2 * i + 1] - 1.0).abs() < 1e-12);
    }
    // The middle observation leans toward centre 0.
    assert!(memberships[2] > 0.5 && memberships[2] < 0.7);
    assert!(occupied_under_membership(&nums(&memberships), 2));
    // A cell with zero mass everywhere fails the guard.
    assert!(!occupied_under_membership(&nums(&[1.0, 0.0, 1.0, 0.0, 1.0, 0.0]), 2));
}

/// A kernel that writes invalid weights is refused with what was wrong.
#[test]
fn invalid_membership_weights_surface_extension_error() {
    let detail = check_membership_row(&nums(&[-1.0, -1.0]), num(-2.0), 0).unwrap();
    assert_eq!(
        detail.render(&vec!["-1".to_string()]),
        "membership kernel returned invalid membership weights: weight -1 for observation 0 is \
         not finite and non-negative"
    );
    let detail = check_membership_row(&nums(&[0.0, 0.0]), num(0.0), 3).unwrap();
    assert_eq!(
        detail.render(&vec!["0".to_string()]),
        "membership kernel returned invalid membership weights: observation 3's membership row \
         sums to 0"
    );
    assert!(check_membership_row(&nums(&[0.0, f64::INFINITY]), num(f64::INFINITY), 1).is_some());
}

fn step(at: Backfit, event: Event) -> Backfit {
    let (next, result) = at.advance(event);
    assert!(result.is_ok());
    next
}

fn proposed_step(ln_u: f64, log_alpha: f64) -> Backfit {
    let at = Backfit::begin(hard_unit(), 0, 1);
    let at = step(at, Event::Selected(Some(4)));
    assert!(matches!(at.stage, Stage::Proposing { move_index: 4 }));
    let at = step(
        at,
        Event::Proposed {
            tessellation: cells(&[0.0, 1.0, 0.4]),
            delta: AssignmentDelta::CentreAdded,
        },
    );
    let at = step(at, Event::Reassigned(Ok(cache(&[0, 2, 1]))));
    let at = step(at, Event::Occupied(true));
    let at = step(at, Event::Scored(Ok(num(log_alpha))));
    step(at, Event::Uniform(num(ln_u)))
}

#[test]
fn an_accepted_proposal_takes_its_place() {
    let at = proposed_step(-0.5, 0.0);
    assert!(matches!(at.stage, Stage::Redrawing { stats: StatsSource::Proposed }));
    assert_eq!(at.unit.tessellations[0].n_cells(), 3);
    assert_eq!(at.unit.assignments[0].assignment, vec![0, 2, 1]);
    assert_eq!(at.unit.tessellations[1].n_cells(), 1);
    let at = step(at, Event::Drawn(Ok(nums(&[0.1, 0.2, 0.3]))));
    assert!(matches!(at.stage, Stage::Finished));
    assert_eq!(at.unit.tessellations[0].mus(), &nums(&[0.1, 0.2, 0.3]));
}

#[test]
fn a_rejected_proposal_leaves_the_structure_alone() {
    // Equal is not below: the proposal is rejected.
    let at = proposed_step(-0.5, -0.5);
    assert!(matches!(at.stage, Stage::Redrawing { stats: StatsSource::Current }));
    assert_eq!(at.unit.tessellations[0].n_cells(), 2);
    assert_eq!(at.unit.assignments[0].assignment, vec![0, 1, 1]);
    let at = step(at, Event::Drawn(Ok(nums(&[0.1, 0.2]))));
    assert_eq!(at.unit.tessellations[0].centres(), &nums(&[0.0, 1.0]));
    assert_eq!(at.unit.tessellations[0].mus(), &nums(&[0.1, 0.2]));
}

#[test]
fn an_empty_cell_consumes_no_uniform_draw() {
    let at = step(Backfit::begin(hard_unit(), 0, 1), Event::Selected(Some(0)));
    let at = step(
        at,
        Event::Proposed { tessellation: cells(&[0.0, 9.0]), delta: AssignmentDelta::FullRecompute },
    );
    let at = step(at, Event::Reassigned(Ok(cache(&[0, 0, 0]))));
    let at = step(at, Event::Occupied(false));
    assert!(matches!(at.stage, Stage::Redrawing { stats: StatsSource::Fresh }));
}

#[test]
fn without_a_valid_move_only_the_values_are_redrawn() {
    let at = step(Backfit::begin(hard_unit(), 1, 2), Event::Selected(None));
    assert!(matches!(at.stage, Stage::Redrawing { stats: StatsSource::Fresh }));
    let at = step(at, Event::Drawn(Ok(nums(&[0.1, 0.2]))));
    assert_eq!(at.unit.tessellations[1].mus(), &nums(&[0.1, 0.2]));
}

#[test]
fn a_failure_ends_the_step_unchanged() {
    let at = step(Backfit::begin(hard_unit(), 0, 1), Event::Selected(Some(0)));
    let at = step(
        at,
        Event::Proposed { tessellation: cells(&[0.5]), delta: AssignmentDelta::FullRecompute },
    );
    let error = || AddiVortesError::Extension { source: Handle { id: 3 } };
    let (at, result) = at.advance(Event::Reassigned(Err(error())));
    assert_eq!(result.unwrap_err(), error());
    assert!(matches!(at.stage, Stage::Finished));
    assert_eq!(at.unit.tessellations[0].n_cells(), 2);
}

#[test]
fn the_dense_path_guards_by_mass_and_accumulates_anew() {
    let unit = || {
        EnsembleUnit::new_dense(
            vec![cells(&[0.0, 1.0])],
            vec![cache(&[0, 0, 1])],
            vec![nums(&memberships())],
        )
    };
    let propose = || {
        let at = step(Backfit::begin(unit(), 0, 1), Event::Selected(Some(0)));
        step(
            at,
            Event::Proposed {
                tessellation: cells(&[0.0, 0.9]),
                delta: AssignmentDelta::CentreMoved { index: 1 },
            },
        )
    };
    let rows = [0.5, 0.5, 0.6, 0.4, 0.1, 0.9];
    let at = step(propose(), Event::Memberships(Ok(nums(&rows))));
    let at = step(at, Event::Scored(Ok(num(1.0))));
    let at = step(at, Event::Uniform(num(-0.1)));
    assert!(matches!(at.stage, Stage::Redrawing { stats: StatsSource::Fresh }));
    match &at.unit.path {
        Path::Dense { memberships } => assert_eq!(memberships[0], nums(&rows)),
        Path::Diagonal => panic!("the path changed"),
    }
    let at = step(propose(), Event::Memberships(Ok(nums(&[1.0, 0.0, 1.0, 0.0, 1.0, 0.0]))));
    assert!(matches!(at.stage, Stage::Redrawing { stats: StatsSource::Fresh }));
    assert_eq!(at.unit.tessellations[0].centres(), &nums(&[0.0, 1.0]));
}

#[test]
fn a_basis_marks_the_unit_only() {
    let unit = hard_unit().with_basis();
    assert!(unit.basis);
    assert!(!hard_unit().basis);
    assert_eq!(unit.composition, Composition::Additive);
}

/// Over a whole step the other tessellation and its assignment stay, and the step's own
/// assignment is the one of the structure that it keeps.
#[test]
fn a_whole_step_is_about_one_tessellation() {
    for (log_alpha, centres, assignment) in [
        (0.0, vec![0.0, 1.0, 0.4], vec![0, 2, 1]),
        (-1.0, vec![0.0, 1.0], vec![0, 1, 1]),
    ] {
        let at = proposed_step(-0.5, log_alpha);
        let values = vec![0.25; centres.len()];
        let at = step(at, Event::Drawn(Ok(nums(&values))));
        assert!(matches!(at.stage, Stage::Finished));
        assert_eq!(at.unit.tessellations[1], hard_unit().tessellations[1]);
        assert_eq!(at.unit.assignments[1].assignment, hard_unit().assignments[1].assignment);
        assert_eq!(at.unit.tessellations[0].centres(), &nums(&centres));
        assert_eq!(at.unit.assignments[0].assignment, assignment);
        assert_eq!(at.unit.tessellations[0].mus(), &nums(&values));
    }
}

/// A step changes the fit of a row by the contribution of its own tessellation alone.
#[test]
fn the_fit_changes_by_one_contribution() {
    let value = |unit: &EnsembleUnit, k: usize, row: usize| {
        let cell = unit.assignments[k].assignment[row];
        f64::from_bits(unit.tessellations[k].mus()[cell].bits)
    };
    let fit = |unit: &EnsembleUnit, row: usize| {
        (0..unit.tessellations.len()).map(|k| value(unit, k, row)).sum::<f64>()
    };
    let start = hard_unit();
    let at = step(proposed_step(-0.5, 0.0), Event::Drawn(Ok(nums(&[0.25, 0.5, -2.0]))));
    for row in 0..3 {
        assert_eq!(
            fit(&at.unit, row) - value(&at.unit, 0, row),
            fit(&start, row) - value(&start, 0, row)
        );
    }
    assert_eq!(value(&at.unit, 0, 1), -2.0);
}
