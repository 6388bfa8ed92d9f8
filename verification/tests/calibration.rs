use addivortes::binary64::{from_bits, Binary64};
use addivortes::calibration::geweke::{
    check_statistics, getting_it_right, outcomes, tabulate, GewekeOutcome, GewekeSpec,
    SuccessiveConditional,
};
use addivortes::calibration::prior::{
    after_attempt, all_subsets, coordinate_plan, draw_weighted_subset, Attempt, MAX_ATTEMPTS,
};
use addivortes::calibration::ranks::{SbcRanks, SbcSpec};
use addivortes::engine::error::{AddiVortesError, Result};
use addivortes::engine::handle::Handle;
use addivortes::engine::tessellation::Tessellation;
use addivortes::named::Named;

fn num(x: f64) -> Binary64 {
    from_bits(x.to_bits())
}

fn nums(xs: &[f64]) -> Vec<Binary64> {
    xs.iter().map(|&x| num(x)).collect()
}

/// A chain that counts its transitions and may fail at one of them.
struct Counter {
    transitions: usize,
    fails_at: Option<usize>,
    silent: bool,
}

impl SuccessiveConditional for Counter {
    fn transition(&mut self) -> Result<()> {
        if self.fails_at == Some(self.transitions) {
            return Err(AddiVortesError::Extension { source: Handle { id: 9 } });
        }
        self.transitions += 1;
        Ok(())
    }

    fn quantities(&self) -> Vec<(String, Binary64)> {
        let mut entries = vec![("count".to_string(), num(self.transitions as f64))];
        if !self.silent {
            entries.push(("twice".to_string(), num(2.0 * self.transitions as f64)));
        }
        entries
    }
}

fn counter() -> Counter {
    Counter { transitions: 0, fails_at: None, silent: false }
}

fn sizing() -> GewekeSpec {
    GewekeSpec { n_mc: 2, n_sc: 3, thin: 4, discard: 5, alpha: num(0.01) }
}

fn draws() -> Vec<Vec<(String, Binary64)>> {
    (0..2)
        .map(|i| {
            vec![("twice".to_string(), num(i as f64)), ("count".to_string(), num(10.0 + i as f64))]
        })
        .collect()
}

#[test]
fn the_default_sizing_is_that_of_the_calibration_leg() {
    let spec = GewekeSpec::default();
    assert_eq!((spec.n_mc, spec.n_sc, spec.thin, spec.discard), (4000, 1500, 20, 100));
    assert_eq!(f64::from_bits(spec.alpha.bits), 0.01);
    let spec = SbcSpec::default();
    assert_eq!((spec.replications, spec.n_draws, spec.thin, spec.burn_in), (300, 99, 10, 300));
}

#[test]
fn a_run_reads_the_end_of_every_block_after_the_discard() {
    let (chain, result) = getting_it_right(&sizing(), &draws(), counter());
    let samples = result.unwrap();
    assert_eq!(chain.transitions, 5 + 3 * 4);
    assert_eq!(samples.sc.get("count").unwrap(), &nums(&[9.0, 13.0, 17.0]));
    assert_eq!(samples.sc.get("twice").unwrap(), &nums(&[18.0, 26.0, 34.0]));
    // The statistics are in the order of their names.
    assert_eq!(samples.mc.name(0), "count");
    assert_eq!(samples.mc.list_at(0), &nums(&[10.0, 11.0]));
    let outcomes = outcomes(&samples, &vec![(num(0.2), num(0.3)), (num(0.4), num(0.3))]);
    assert_eq!(outcomes[0].statistic, "count");
    assert!(outcomes[0].passed());
    assert_eq!(outcomes[1].statistic, "twice");
    assert!(!outcomes[1].passed());
}

#[test]
fn a_failing_transition_ends_the_run() {
    let chain = Counter { fails_at: Some(7), ..counter() };
    let (chain, result) = getting_it_right(&sizing(), &draws(), chain);
    assert_eq!(chain.transitions, 7);
    assert_eq!(
        result.unwrap_err(),
        AddiVortesError::Extension { source: Handle { id: 9 } }
    );
}

#[test]
fn a_statistic_that_the_chain_never_emits_is_named() {
    let chain = Counter { silent: true, ..counter() };
    let (_, result) = getting_it_right(&sizing(), &draws(), chain);
    assert_eq!(
        result.unwrap_err(),
        AddiVortesError::MissingStatistic { statistic: "twice".into() }
    );
}

#[test]
fn without_thinning_blocks_nothing_is_read() {
    let spec = GewekeSpec { thin: 0, n_mc: 0, ..sizing() };
    let (chain, result) = getting_it_right(&spec, &vec![], counter());
    assert_eq!(chain.transitions, 5);
    assert_eq!(result.unwrap().sc.len(), 0);
}

#[test]
fn statistics_are_compared_by_name() {
    let mc = tabulate(&draws());
    assert!(check_statistics(&mc, &mc).is_ok());
    let empty: Named<Binary64> = Named::new();
    assert!(check_statistics(&empty, &mc).is_ok());
    assert_eq!(
        check_statistics(&mc, &empty).unwrap_err(),
        AddiVortesError::MissingStatistic { statistic: "count".into() }
    );
}

#[test]
fn an_outcome_passes_up_to_its_critical_value() {
    let outcome = |d: f64| GewekeOutcome { statistic: "s".into(), d: num(d), critical: num(0.5) };
    assert!(outcome(0.5).passed());
    assert!(!outcome(0.51).passed());
    assert!(!outcome(f64::NAN).passed());
}

#[test]
fn ranks_are_kept_per_quantity() {
    let mut ranks = SbcRanks::new(4);
    assert_eq!(ranks.ranks().len(), 0);
    ranks.record("sigma", num(0.25), &nums(&[0.1, 0.2, 0.3, 0.4]), 0);
    ranks.record("cells", num(1.0), &nums(&[1.0, 1.0, 2.0, 0.0]), 2);
    ranks.record("sigma", num(0.9), &nums(&[0.1, 0.2, 0.3, 0.4]), 0);
    assert_eq!(ranks.ranks().get("sigma").unwrap(), &vec![2, 4]);
    assert_eq!(ranks.ranks().get("cells").unwrap(), &vec![3]);
    assert!(ranks.ranks().get("absent").is_none());
    assert_eq!(
        ranks.csv(),
        "quantity,rank,n_draws\ncells,3,4\nsigma,2,4\nsigma,4,4\n"
    );
    assert_eq!(ranks.clone(), ranks);
    assert_ne!(SbcRanks::new(4), ranks);
}

#[test]
fn histograms_hold_every_rank_once() {
    let mut ranks = SbcRanks::new(9);
    let draws = nums(&[0.0, 1.0, 2.0, 3.0, 4.0, 5.0, 6.0, 7.0, 8.0]);
    for value in [-1.0, 0.5, 4.5, 8.5, 9.0] {
        ranks.record("q", num(value), &draws, 0);
    }
    // Ranks 0, 1, 5, 9 and 9 in five bins of two ranks each.
    assert_eq!(ranks.histogram(0, 5), vec![2, 0, 1, 0, 2]);
}

#[test]
fn all_subsets_are_listed_in_order() {
    assert_eq!(
        all_subsets(4, 2),
        vec![vec![0, 1], vec![0, 2], vec![0, 3], vec![1, 2], vec![1, 3], vec![2, 3]]
    );
    assert_eq!(all_subsets(3, 3), vec![vec![0, 1, 2]]);
    assert_eq!(all_subsets(3, 0), vec![Vec::<usize>::new()]);
    assert!(all_subsets(2, 3).is_empty());
    assert_eq!(all_subsets(6, 3).len(), 20);
}

#[test]
fn a_target_picks_the_first_subset_above_it() {
    // Masses 1, 2 and 3 of the singletons.
    let cumulative = nums(&[1.0, 3.0, 6.0]);
    let pick = |target: f64| draw_weighted_subset(3, 1, &cumulative, num(target));
    assert_eq!(pick(0.0), Some(vec![0]));
    assert_eq!(pick(1.0), Some(vec![1]));
    assert_eq!(pick(5.9), Some(vec![2]));
    // Rounding can leave the target at the total: the last subset is taken.
    assert_eq!(pick(6.0), Some(vec![2]));
    assert_eq!(draw_weighted_subset(3, 2, &nums(&[1.0]), num(0.5)), None);
    assert_eq!(draw_weighted_subset(1, 2, &[], num(0.5)), None);
}

#[test]
fn drawn_coordinates_form_a_tessellation() {
    let dims = vec![0, 2];
    let plan = coordinate_plan(3, &dims);
    assert_eq!(plan, vec![0, 2, 0, 2, 0, 2]);
    let centres: Vec<Binary64> = plan.iter().map(|&column| num(0.1 * column as f64)).collect();
    let t = Tessellation::new(centres, dims, nums(&[0.0; 6])).unwrap();
    assert_eq!(t.n_cells(), 3);
    assert_eq!(t.cell_payload(2).len(), 2);
}

#[test]
fn rejection_ends_after_its_last_attempt() {
    assert_eq!(after_attempt(0, true), Attempt::Accept);
    assert_eq!(after_attempt(0, false), Attempt::Again);
    assert_eq!(after_attempt(MAX_ATTEMPTS - 2, false), Attempt::Again);
    assert_eq!(after_attempt(MAX_ATTEMPTS - 1, false), Attempt::GiveUp);
    assert_eq!(after_attempt(MAX_ATTEMPTS - 1, true), Attempt::Accept);
}

#[test]
fn names_are_kept_in_order() {
    let mut table: Named<usize> = Named::new();
    for (name, value) in [("b", 1), ("a", 2), ("ab", 3), ("b", 4), ("", 5)] {
        table.push(name, value);
    }
    let names: Vec<&str> = (0..table.len()).map(|i| table.name(i).as_str()).collect();
    assert_eq!(names, vec!["", "a", "ab", "b"]);
    assert_eq!(table.get("b").unwrap(), &vec![1, 4]);
    assert_eq!(table.clone(), table);
}

#[test]
fn subsets_split_on_the_last_column_in_order() {
    let list = all_subsets(5, 3);
    let without: Vec<Vec<usize>> = list.iter().filter(|s| !s.contains(&4)).cloned().collect();
    assert_eq!(without, all_subsets(4, 3));
    let with_it: Vec<Vec<usize>> =
        list.iter().filter(|s| s.contains(&4)).map(|s| s[..2].to_vec()).collect();
    assert_eq!(with_it, all_subsets(4, 2));
}

#[test]
fn sizing_and_outcomes_compare_number_by_number() {
    let spec = |alpha: f64| GewekeSpec { alpha: num(alpha), ..GewekeSpec::default() };
    assert_eq!(spec(0.01), GewekeSpec::default());
    assert_ne!(spec(0.02), GewekeSpec::default());
    assert_ne!(spec(f64::NAN), spec(f64::NAN));
    let outcome = |d: f64| GewekeOutcome { statistic: "s".into(), d: num(d), critical: num(0.5) };
    assert_eq!(outcome(0.0).clone(), outcome(-0.0));
    assert_ne!(outcome(0.0), outcome(0.1));
    assert_ne!(outcome(f64::NAN), outcome(f64::NAN));
}

#[test]
fn empty_collectors_are_equal_where_their_draw_counts_are() {
    for n in [0, 4, usize::MAX] {
        assert!(SbcRanks::new(n).ranks().is_empty());
        assert_eq!(SbcRanks::new(n), SbcRanks::new(n));
    }
    assert_ne!(SbcRanks::new(4), SbcRanks::new(5));
    let table = |value: f64| {
        let mut named: Named<Binary64> = Named::new();
        named.push("a", num(value));
        named
    };
    assert_eq!(table(0.0), table(-0.0));
    assert_ne!(table(f64::NAN), table(f64::NAN));
}
