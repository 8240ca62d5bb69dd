use null_or_die::number::Real;
use null_or_die::numeric::{Numerics, Place, Term};
use null_or_die::stats::{
    estimate_from_convolution, fingerprint_times_ms, mean, normalize_0_1, percentile,
    rivaling_strength, stdev_population,
};

fn num(v: f64) -> Real {
    Real { bits: v.to_bits() }
}

fn float(v: Real) -> f64 {
    f64::from_bits(v.bits)
}

fn nums(values: &[f64]) -> Vec<Real> {
    values.iter().map(|v| num(*v)).collect()
}

fn floats(values: &[Real]) -> Vec<f64> {
    values.iter().map(|v| float(*v)).collect()
}

fn calc(t: Term) -> Real {
    num(match t {
        Term::Plus(a, b) => float(a) + float(b),
        Term::Minus(a, b) => float(a) - float(b),
        Term::Times(a, b) => float(a) * float(b),
        Term::Over(a, b) => float(a) / float(b),
        Term::Power(a, b) => float(a).powf(float(b)),
        Term::Fourth(a) => float(a).powi(4),
        Term::Root(a) => float(a).sqrt(),
        Term::Floor(a) => float(a).floor(),
        Term::Fused(a, b, c) => float(a).mul_add(float(b), float(c)),
        Term::Exponential(a) => float(a).exp(),
        Term::Cosine(a) => float(a).cos(),
        Term::Logarithm(a) => float(a).log2(),
        Term::Whole(n) => n as f64,
    })
}

fn place(p: u32, n: usize) -> Place {
    let rank = (f64::from(p) / 100.0) * (n - 1) as f64;
    Place {
        lo: rank.floor() as usize,
        hi: rank.ceil() as usize,
        frac: num(rank - rank.floor()),
    }
}

fn numerics() -> Numerics<fn(Term) -> Real, fn(u32, usize) -> Place> {
    Numerics { calc, place }
}

#[test]
fn percentile_linear_interp_matches_expected() {
    let v = nums(&[0.0, 10.0, 20.0, 30.0]);
    let n = numerics();
    assert!((float(percentile(&n, &v, 50)) - 15.0).abs() < 1e-12);
    assert!((float(percentile(&n, &v, 20)) - 6.0).abs() < 1e-12);
    assert!((float(percentile(&n, &v, 80)) - 24.0).abs() < 1e-12);
}

#[test]
fn percentiles_of_short_lists() {
    let n = numerics();
    assert_eq!(percentile(&n, &nums(&[]), 50), num(0.0));
    assert_eq!(percentile(&n, &nums(&[7.0]), 3), num(7.0));
    let v = nums(&[3.0, 1.0, 2.0]);
    assert_eq!(percentile(&n, &v, 0), num(1.0));
    assert_eq!(percentile(&n, &v, 50), num(2.0));
    assert_eq!(percentile(&n, &v, 100), num(3.0));
}

#[test]
fn means_and_deviations() {
    let n = numerics();
    let v = nums(&[2.0, 4.0, 4.0, 4.0, 5.0, 5.0, 7.0, 9.0]);
    assert_eq!(mean(&n, &v), num(5.0));
    assert_eq!(stdev_population(&n, &v), num(2.0));
    assert_eq!(stdev_population(&n, &nums(&[])), num(0.0));
}

#[test]
fn values_are_normalized() {
    let n = numerics();
    let v = nums(&[3.0, 1.0, 5.0]);
    assert_eq!(floats(&normalize_0_1(&n, &v)), vec![0.5, 0.0, 1.0]);
    let flat = nums(&[2.0, 2.0 + 1e-13, 2.0]);
    assert_eq!(floats(&normalize_0_1(&n, &flat)), vec![0.0, 0.0, 0.0]);
}

#[test]
fn rivals_are_weighed_against_the_peak() {
    let n = numerics();
    let strength = |v: f64| float(rivaling_strength(&n, num(v), num(0.5), num(1.0)));
    assert_eq!(strength(0.75), 0.5);
    assert_eq!(strength(1.0), 1.0);
    assert_eq!(strength(0.25), 0.0);
    assert_eq!(
        rivaling_strength(&n, num(3.0), num(1.0), num(1.0)),
        num(0.0)
    );
}

#[test]
fn columns_stand_round_the_beat() {
    let n = numerics();
    let times = fingerprint_times_ms(&n, 4, num(0.25));
    assert_eq!(floats(&times), vec![-500.0, -250.0, 0.0, 250.0]);
}

/// The bias, the confidence, the spread and the deviation, computed in one go.
fn expected(flat: &[f64], step: f64, magic: f64) -> (f64, f64, f64, f64) {
    let clip = &flat[2..flat.len() - 2];
    let lo = clip.iter().copied().fold(f64::INFINITY, f64::min);
    let hi = clip.iter().copied().fold(f64::NEG_INFINITY, f64::max);
    let v: Vec<f64> = clip.iter().map(|x| (x - lo) / (hi - lo)).collect();
    let mut s = v.clone();
    s.sort_by(f64::total_cmp);
    let pct = |p: f64| {
        let rank = (p / 100.0) * (s.len() - 1) as f64;
        let (a, b) = (rank.floor() as usize, rank.ceil() as usize);
        let frac = rank - a as f64;
        if a == b {
            s[a]
        } else {
            s[a] * (1.0 - frac) + s[b] * frac
        }
    };
    let quint = pct(80.0) - pct(20.0);
    let top = clip.iter().position(|x| *x == hi).unwrap();
    let time = |i: usize| (i as isize - (flat.len() / 2) as isize) as f64 * (step * 1e3);
    let median = pct(50.0);
    let mut total = 0.0;
    for (i, x) in v.iter().enumerate() {
        let rival = ((x - median) / (v[top] - median)).max(0.0);
        let close = ((time(i + 2) - time(top + 2)).abs() - 0.5).max(0.0) / 10.0;
        total += rival.powi(4) * close.powf(1.5);
    }
    let influence = total / v.len() as f64;
    let confidence = ((1.0 - influence.powf(0.2)) / 0.83).min(1.0).clamp(0.0, 1.0);
    let avg = v.iter().sum::<f64>() / v.len() as f64;
    let var = v.iter().map(|x| (x - avg) * (x - avg)).sum::<f64>() / v.len() as f64;
    (time(top + 2) + magic, confidence, quint, var.sqrt())
}

#[test]
fn the_bias_is_read_from_the_peak() {
    let flat = [
        90.0, 80.0, 1.0, 3.0, 2.0, 9.0, 4.0, 6.0, 0.5, 1.5, 7.0, 2.5, 70.0, 60.0,
    ];
    let n = numerics();
    let stats = estimate_from_convolution(&n, &nums(&flat), num(0.0002), num(1.5)).expect("stats");
    let (bias, confidence, quint, stdev) = expected(&flat, 0.0002, 1.5);
    assert_eq!(stats.result.i_max, 3);
    assert!((float(stats.estimate.bias_ms) - bias).abs() < 1e-12);
    assert!((float(stats.estimate.confidence) - confidence).abs() < 1e-12);
    assert!((float(stats.estimate.conv_quint) - quint).abs() < 1e-12);
    assert!((float(stats.estimate.conv_stdev) - stdev).abs() < 1e-12);
    assert!(confidence > 0.0 && confidence < 1.0);
    assert_eq!(stats.convolution.top_peaks[0].full_index, 5);
    assert_eq!(stats.convolution.clip_max, num(9.0));
    assert_eq!(stats.convolution.clip_min, num(0.5));
    assert_eq!(stats.result.v_max, num(1.0));
}

#[test]
fn a_flat_peak_moves_back() {
    let mut flat = vec![1000.0; 40];
    flat[20] = 1001.0;
    flat[23] = 1000.5;
    flat[30] = 0.0;
    let n = numerics();
    let stats = estimate_from_convolution(&n, &nums(&flat), num(0.001), num(0.0)).expect("stats");
    assert_eq!(stats.result.i_max, 22);
    assert_eq!(stats.estimate.bias_ms, num(4.0));
}

#[test]
fn confidences_are_shares() {
    let n = numerics();
    for k in 0..20u32 {
        let flat: Vec<f64> = (0..30u32).map(|i| f64::from((i * 7 + k * i * i) % 23)).collect();
        let stats =
            estimate_from_convolution(&n, &nums(&flat), num(0.002), num(0.0)).expect("stats");
        let sure = float(stats.estimate.confidence);
        assert!((0.0..=1.0).contains(&sure));
    }
}

#[test]
fn short_convolutions_are_refused() {
    let n = numerics();
    let out = estimate_from_convolution(&n, &nums(&[1.0; 4]), num(0.1), num(0.0));
    assert_eq!(
        out.err(),
        Some("convolution output too small for edge discard".to_string())
    );
    assert!(estimate_from_convolution(&n, &nums(&[1.0; 5]), num(0.1), num(0.0)).is_ok());
}

#[test]
fn offsets_are_added_to_the_bias() {
    let n = numerics();
    let flat: Vec<f64> = (0..30u32).map(|i| f64::from((i * i * 7 + i) % 23)).collect();
    let read = |offset: f64| {
        estimate_from_convolution(&n, &nums(&flat), num(0.002), num(offset)).expect("stats")
    };
    let (base, moved) = (read(0.0), read(-3.25));
    assert_eq!(
        moved.estimate.bias_ms,
        num(float(base.estimate.bias_ms) - 3.25)
    );
    assert_eq!(moved.estimate.confidence, base.estimate.confidence);
    assert_eq!(moved.estimate.conv_quint, base.estimate.conv_quint);
    assert_eq!(moved.estimate.conv_stdev, base.estimate.conv_stdev);
    assert_eq!(moved.result.i_max, base.result.i_max);
    assert_eq!(moved.convolution.top_peaks, base.convolution.top_peaks);
    let still = |offset: f64| {
        let mut flat = vec![0.0; 12];
        flat[3] = 5.0;
        let out = estimate_from_convolution(&n, &nums(&flat), num(0.0), num(offset));
        float(out.expect("stats").estimate.bias_ms)
    };
    for offset in [0.0, -0.0, 4.5, -4.5, f64::INFINITY] {
        assert_eq!(still(offset), still(0.0) + offset);
    }
    assert_eq!(
        estimate_from_convolution(&n, &nums(&[1.0; 4]), num(0.002), num(0.0)).err(),
        Some("convolution output too small for edge discard".to_string())
    );
}
