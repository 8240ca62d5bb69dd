use null_or_die::number::Real;

fn samples() -> Vec<f64> {
    vec![
        0.0,
        -0.0,
        1.0,
        -1.0,
        1.5,
        f64::MIN_POSITIVE,
        -f64::MIN_POSITIVE,
        5e-324,
        f64::MAX,
        f64::MIN,
        f64::INFINITY,
        f64::NEG_INFINITY,
        f64::NAN,
        -f64::NAN,
        0.8,
        0.1 + 0.2,
        0.3,
    ]
}

fn num(v: f64) -> Real {
    Real { bits: v.to_bits() }
}

#[test]
fn comparisons_are_those_of_numbers() {
    for a in samples() {
        assert_eq!(num(a).is_nan(), a.is_nan());
        assert_eq!(num(a).is_finite(), a.is_finite());
        assert_eq!(num(a).negated().bits, (-a).to_bits());
        for b in samples() {
            assert_eq!(num(a).is_less(num(b)), a < b, "{a} {b}");
            assert_eq!(num(a).is_at_most(num(b)), a <= b, "{a} {b}");
            assert_eq!(
                num(a).rank_of().cmp(&num(b).rank_of()),
                a.total_cmp(&b),
                "{a} {b}"
            );
        }
    }
}
