use null_or_die::number::Real;
use null_or_die::numeric::{Numerics, Place, Term};
use null_or_die::spectrum::{frequency_weights, hann_periodic, log_column, Bin};

fn num(v: f64) -> Real {
    Real { bits: v.to_bits() }
}

fn float(v: Real) -> f64 {
    f64::from_bits(v.bits)
}

fn calc(t: Term) -> Real {
    num(match t {
        Term::Plus(a, b) => float(a) + float(b),
        Term::Minus(a, b) => float(a) - float(b),
        Term::Times(a, b) => float(a) * float(b),
        Term::Over(a, b) => float(a) / float(b),
        Term::Fused(a, b, c) => float(a).mul_add(float(b), float(c)),
        Term::Exponential(a) => float(a).exp(),
        Term::Cosine(a) => float(a).cos(),
        Term::Logarithm(a) => float(a).log2(),
        Term::Whole(n) => n as f64,
        _ => unreachable!(),
    })
}

fn place(_: u32, _: usize) -> Place {
    unreachable!()
}

#[test]
fn high_and_low_frequencies_weigh_little() {
    let weights = frequency_weights(&Numerics { calc, place }, 48_000, 480, 240);
    assert_eq!(weights.len(), 240);
    assert_eq!(weights[0], num(0.0));
    assert_eq!(weights[30], num(3000.0 * (-1.0_f64).exp()));
    assert_eq!(weights[60], num(6000.0 * (-2.0_f64).exp()));
    assert!(weights.iter().all(|w| float(*w) <= float(weights[30])));
}

#[test]
fn windows_rise_and_fall() {
    let numerics = Numerics { calc, place };
    let window: Vec<f64> = hann_periodic(&numerics, 4).into_iter().map(float).collect();
    assert_eq!(window.len(), 4);
    assert_eq!(window[0], 0.0);
    assert_eq!(window[2], 1.0);
    assert!((window[1] - 0.5).abs() < 1e-15);
    assert!((window[3] - 0.5).abs() < 1e-15);
    let long = hann_periodic(&numerics, 441);
    let expected = 0.5 - 0.5 * (2.0 * std::f64::consts::PI * 17.0 / 441.0).cos();
    assert_eq!(long[17], num(expected));
}

#[test]
fn columns_are_made_of_weighed_samples() {
    let audio: Vec<Real> = [9.0, 1.0, 2.0, 3.0, 9.0].into_iter().map(num).collect();
    let window: Vec<Real> = [0.5, 1.0, 2.0].into_iter().map(num).collect();
    let transform = |input: Vec<Real>| -> Vec<Bin> {
        input
            .iter()
            .map(|v| Bin {
                re: *v,
                im: num(10.0 * float(*v)),
            })
            .collect()
    };
    let column = log_column(&Numerics { calc, place }, &transform, &audio, &window, 2, 1);
    let level = |re: f64, im: f64| num((re.mul_add(re, im * im) + 1e-9).log2());
    assert_eq!(column, vec![level(0.5, 5.0), level(2.0, 20.0)]);
}

#[test]
fn silence_has_a_level() {
    let audio = vec![num(0.0); 3];
    let window = vec![num(1.0); 3];
    let transform = |input: Vec<Real>| -> Vec<Bin> {
        input.iter().map(|v| Bin { re: *v, im: *v }).collect()
    };
    let column = log_column(&Numerics { calc, place }, &transform, &audio, &window, 1, 0);
    assert_eq!(column, vec![num(1e-9_f64.log2())]);
}
