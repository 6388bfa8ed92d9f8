use addivortes::binary64::{from_bits, Binary64};
use addivortes::diagnostics::{
    doubled_ranks, ecdf_counts, indicators, initial_monotone_sequence, median_neighbours,
    order_points, pooled, sbc_rank, sbc_ties, split_chains, HEvidencePoint,
};
use addivortes::order::{sorted, stable_order};
use rand_chacha::ChaCha8Rng;
use rand_core::{Rng, SeedableRng};

fn num(x: f64) -> Binary64 {
    from_bits(x.to_bits())
}

fn nums(xs: &[f64]) -> Vec<Binary64> {
    xs.iter().map(|&x| num(x)).collect()
}

fn val(x: Binary64) -> f64 {
    f64::from_bits(x.bits)
}

/// The largest distance of the two empirical distributions.
fn ks_two_sample(a: &[f64], b: &[f64]) -> f64 {
    ecdf_counts(&nums(a), &nums(b))
        .iter()
        .map(|&(i, j)| (i as f64 / a.len() as f64 - j as f64 / b.len() as f64).abs())
        .fold(0.0, f64::max)
}

#[test]
fn ks_statistic_matches_hand_values() {
    // Disjoint samples: D = 1.
    assert_eq!(ks_two_sample(&[1.0, 2.0], &[3.0, 4.0]), 1.0);
    // Identical samples: D = 0.
    assert_eq!(ks_two_sample(&[1.0, 2.0, 3.0], &[1.0, 2.0, 3.0]), 0.0);
    // After value 1: 1/2 against 0; after 2: 1/2 against 1/3; after 3 (tie): 1 against
    // 2/3.
    assert!((ks_two_sample(&[1.0, 3.0], &[2.0, 3.0, 4.0]) - 0.5).abs() <= 1e-15);
}

#[test]
fn counts_step_past_ties_at_once() {
    assert_eq!(
        ecdf_counts(&nums(&[1.0, 3.0]), &nums(&[2.0, 3.0, 4.0])),
        vec![(1, 0), (2, 2), (1, 1), (2, 2), (2, 3)]
    );
}

/// A tie place below `n` that the generator picks.
fn uniform_index(n: usize, rng: &mut ChaCha8Rng) -> usize {
    (rng.next_u64() % n as u64) as usize
}

fn rank(true_value: f64, draws: &[f64], rng: &mut ChaCha8Rng) -> usize {
    let draws = nums(draws);
    let ties = sbc_ties(num(true_value), &draws);
    let tie_break = if ties == 0 { 0 } else { uniform_index(ties + 1, rng) };
    sbc_rank(num(true_value), &draws, tie_break)
}

#[test]
fn sbc_rank_counts_and_tie_breaks() {
    let mut rng = ChaCha8Rng::from_seed([1; 32]);
    let draws = [0.1, 0.2, 0.3, 0.4];
    assert_eq!(rank(0.05, &draws, &mut rng), 0);
    assert_eq!(rank(0.25, &draws, &mut rng), 2);
    assert_eq!(rank(0.9, &draws, &mut rng), 4);
    // Ties: the rank falls among the tied places; over many tie-broken draws every
    // admissible value appears.
    let tied = [1.0, 1.0, 1.0, 2.0];
    let mut seen = [false; 4];
    for _ in 0..200 {
        let r = rank(1.0, &tied, &mut rng);
        assert!(r <= 3);
        seen[r] = true;
    }
    assert_eq!(seen, [true, true, true, true]);
}

#[test]
fn chains_are_halved_and_an_odd_draw_is_dropped() {
    let chains = vec![nums(&[1.0, 2.0, 3.0, 4.0, 5.0]), nums(&[6.0, 7.0, 8.0, 9.0, 10.0])];
    let halves = split_chains(&chains);
    assert_eq!(
        halves,
        vec![nums(&[1.0, 2.0]), nums(&[3.0, 4.0]), nums(&[6.0, 7.0]), nums(&[8.0, 9.0])]
    );
    assert_eq!(pooled(&halves), nums(&[1.0, 2.0, 3.0, 4.0, 6.0, 7.0, 8.0, 9.0]));
}

#[test]
fn tied_values_share_their_average_rank() {
    // Ranks 1, 2.5, 2.5 and 4, doubled.
    assert_eq!(doubled_ranks(&nums(&[0.5, 2.0, 2.0, 7.0])), vec![2, 5, 5, 8]);
    // The two zeros tie.
    assert_eq!(doubled_ranks(&nums(&[0.0, -0.0, -1.0])), vec![5, 5, 2]);
    // A NaN ties with nothing, not even with its own pattern.
    assert_eq!(doubled_ranks(&nums(&[f64::NAN, 1.0, f64::NAN])), vec![4, 2, 6]);
    assert!(doubled_ranks(&[]).is_empty());
}

/// The ranks agree with a sort into groups of equal values.
#[test]
fn ranks_agree_with_sorted_groups() {
    let values: [f64; 7] = [0.3, -1.0, 0.3, 5.0, 2.0, 0.3, -1.0];
    let mut order: Vec<usize> = (0..values.len()).collect();
    order.sort_by(|&a, &b| values[a].total_cmp(&values[b]));
    let mut expected = vec![0; values.len()];
    let mut j = 0;
    while j < order.len() {
        let mut k = j;
        while k + 1 < order.len() && values[order[k + 1]] == values[order[j]] {
            k += 1;
        }
        for &i in &order[j..=k] {
            expected[i] = j + k + 2;
        }
        j = k + 1;
    }
    assert_eq!(doubled_ranks(&nums(&values)), expected);
}

#[test]
fn medians_lie_between_their_neighbours() {
    assert_eq!(median_neighbours(&nums(&[1.0, 2.0, 9.0])), (num(2.0), num(2.0)));
    assert_eq!(median_neighbours(&nums(&[1.0, 2.0, 4.0, 9.0])), (num(2.0), num(4.0)));
    assert_eq!(median_neighbours(&nums(&[3.0])), (num(3.0), num(3.0)));
}

#[test]
fn indicators_are_zero_or_one() {
    assert_eq!(
        indicators(&nums(&[0.1, 0.5, 0.9, f64::NAN]), num(0.5)),
        nums(&[1.0, 1.0, 0.0, 0.0])
    );
}

#[test]
fn autocorrelation_pairs_are_cut_off_and_never_rise() {
    let kept = initial_monotone_sequence(&nums(&[1.5, 0.7, 0.9, 0.4, -0.1, 2.0]));
    assert_eq!(kept, nums(&[1.5, 0.7, 0.7, 0.4]));
    assert!(initial_monotone_sequence(&nums(&[0.0, 1.0])).is_empty());
    assert_eq!(initial_monotone_sequence(&nums(&[1.0, 2.0])), nums(&[1.0, 1.0]));
}

/// The plotting order is by the estimates; ties keep their order.
#[test]
fn evidence_points_ascend_by_their_estimates() {
    let point = |observation, s_hat: f64| HEvidencePoint {
        observation,
        s_hat: num(s_hat),
        lower: num(s_hat - 0.9),
        upper: num(s_hat + 0.9),
    };
    let points = order_points(&vec![point(0, 5.0), point(1, 2.0), point(2, 5.0)]);
    let order: Vec<usize> = points.iter().map(|p| p.observation).collect();
    assert_eq!(order, vec![1, 0, 2]);
    assert_eq!(val(points[0].lower), 2.0 - 0.9);
}

#[test]
fn sorting_follows_the_total_order() {
    let values = nums(&[2.0, f64::NAN, -0.0, 0.0, f64::NEG_INFINITY, -3.5, 0.0]);
    let mut expected: Vec<f64> = values.iter().map(|v| val(*v)).collect();
    expected.sort_by(f64::total_cmp);
    let bits = |xs: &[Binary64]| xs.iter().map(|x| x.bits).collect::<Vec<u64>>();
    assert_eq!(bits(&sorted(&values)), bits(&nums(&expected)));
    assert_eq!(stable_order(&nums(&[1.0, 0.0, 1.0, 0.0])), vec![1, 3, 0, 2]);
}

#[test]
fn evidence_points_compare_number_by_number() {
    let point = |s_hat: f64| HEvidencePoint {
        observation: 1,
        s_hat: num(s_hat),
        lower: num(0.0),
        upper: num(1.0),
    };
    assert_eq!(point(0.0), point(-0.0));
    assert_ne!(point(0.0), point(0.5));
    assert_ne!(point(f64::NAN), point(f64::NAN));
}
