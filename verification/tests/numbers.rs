use addivortes::binary64::{from_bits, infinity, minus_pi, not_a_number, one, pi, zero, Binary64};
use addivortes::engine::column::{semantics_for, ColumnSemantics, CoordLaw, Scaling};
use addivortes::engine::data::Metric;
use addivortes::message::{Message, Style};

fn num(x: f64) -> Binary64 {
    from_bits(x.to_bits())
}

fn nums(xs: &[f64]) -> Vec<Binary64> {
    xs.iter().map(|&x| num(x)).collect()
}

fn samples() -> Vec<f64> {
    vec![
        0.0,
        -0.0,
        1.0,
        -1.0,
        f64::MIN_POSITIVE,
        5e-324,
        -5e-324,
        1e300,
        -1e300,
        f64::INFINITY,
        f64::NEG_INFINITY,
        f64::NAN,
        std::f64::consts::PI,
        0.1,
    ]
}

#[test]
fn comparisons_agree_with_the_machine() {
    for a in samples() {
        assert_eq!(num(a).is_nan(), a.is_nan());
        assert_eq!(num(a).is_finite(), a.is_finite());
        assert_eq!(num(a).is_positive_finite(), a.is_finite() && a > 0.0);
        assert_eq!(num(a).is_non_negative_finite(), a.is_finite() && a >= 0.0);
        assert_eq!(num(a).is_in_open_unit(), a > 0.0 && a < 1.0);
        for b in samples() {
            assert_eq!(num(a).is_below(num(b)), a < b, "{} {}", a, b);
            assert_eq!(num(a).is_at_most(num(b)), a <= b, "{} {}", a, b);
            assert_eq!(num(a).is_same(num(b)), a == b, "{} {}", a, b);
            assert_eq!(
                num(a).precedes(num(b)),
                a.total_cmp(&b) == std::cmp::Ordering::Less,
                "{} {}",
                a,
                b
            );
        }
    }
}

#[test]
fn named_numbers_have_their_patterns() {
    assert_eq!(zero().bits, 0.0_f64.to_bits());
    assert_eq!(one().bits, 1.0_f64.to_bits());
    assert_eq!(pi().bits, std::f64::consts::PI.to_bits());
    assert_eq!(minus_pi().bits, (-std::f64::consts::PI).to_bits());
    assert_eq!(infinity().bits, f64::INFINITY.to_bits());
    assert!(f64::from_bits(not_a_number().bits).is_nan());
}

/// A count becomes the nearest number, ties to even.
#[test]
fn counts_round_to_the_nearest_number() {
    let mut counts: Vec<usize> = vec![0, 1, 2, 3, 10, 12345];
    for shift in 50..64 {
        let base = 1usize << shift;
        for offset in 0..6 {
            counts.push(base + offset);
            counts.push(base - 1 - offset);
            counts.push(base + (base >> 53) * offset + (base >> 54) * offset);
        }
    }
    counts.push(usize::MAX);
    for n in counts {
        assert_eq!(Binary64::from_count(n).bits, (n as f64).to_bits(), "{}", n);
    }
}

#[test]
fn a_message_is_completed_by_its_numbers() {
    let message = Message::of("row ")
        .count(12)
        .text(" is ")
        .number(num(0.5), Style::Plain)
        .text(" at ")
        .hexadecimal(0x00ab)
        .text(": ")
        .flag(true)
        .text(" ")
        .counts(&[1, 20])
        .number(num(2.0), Style::Plain);
    assert_eq!(
        message.render(&vec!["0.5".to_string(), "2".to_string()]),
        "row 12 is 0.5 at 00000000000000ab: true [1, 20]2"
    );
    let nested = Message::of("failed: ").then_message(&Message::of("x").number(num(1.0), Style::Plain));
    assert_eq!(nested.render(&vec!["1".to_string()]), "failed: x1");
    assert!(nested.equals(&Message::of("failed: x").number(num(1.0), Style::Plain)));
    assert!(!nested.equals(&Message::of("failed: x").number(num(1.5), Style::Plain)));
}

#[test]
fn a_large_count_is_written_in_full() {
    assert_eq!(
        Message::of("").count(usize::MAX).render(&Vec::new()),
        format!("{}", usize::MAX)
    );
    assert_eq!(Message::of("").count(0).render(&Vec::new()), "0");
}

#[test]
fn columns_have_the_domain_of_their_metric() {
    let angle = semantics_for(Metric::Spherical);
    assert_eq!(angle, ColumnSemantics::Angle);
    assert!(angle.in_domain(pi()) && angle.in_domain(minus_pi()));
    assert!(!angle.in_domain(num(3.1416)) && !angle.in_domain(num(f64::NAN)));
    for metric in [Metric::Euclidean, Metric::Categorical, Metric::Prepared] {
        assert!(semantics_for(metric).in_domain(num(1e300)));
    }
}

#[test]
fn a_constant_column_has_no_range_where_it_is_scaled() {
    let spread = nums(&[2.0, -1.0, 0.5]);
    let constant = nums(&[3.0, 3.0]);
    let real = semantics_for(Metric::Euclidean);
    assert_eq!(real.fit_range(&spread), Some((num(-1.0), num(2.0))));
    assert_eq!(real.fit_range(&constant), None);
    let prepared = semantics_for(Metric::Prepared);
    assert_eq!(prepared.fit_range(&constant), Some((num(3.0), num(3.0))));
    let angle = semantics_for(Metric::Spherical);
    assert_eq!(angle.fit_range(&constant), Some((minus_pi(), pi())));
}

#[test]
fn columns_are_scaled_and_drawn_by_their_geometry() {
    let (lo, hi) = (num(-1.0), num(3.0));
    assert_eq!(
        semantics_for(Metric::Categorical).scale(lo, hi),
        Scaling::Affine { min: lo, max: hi }
    );
    assert_eq!(semantics_for(Metric::Spherical).scale(lo, hi), Scaling::Identity);
    assert_eq!(semantics_for(Metric::Prepared).scale(lo, hi), Scaling::Identity);
    let sigma_c = num(0.8);
    assert_eq!(
        semantics_for(Metric::Spherical).default_coord_law(sigma_c),
        CoordLaw::WrappedNormal { sigma_c }
    );
    assert_eq!(
        semantics_for(Metric::Prepared).default_coord_law(sigma_c),
        CoordLaw::EuclideanNormal { sigma_c }
    );
}
