use null_or_die::number::Real;
use null_or_die::peaks::{
    argmax, clip_range, fingerprint_offsets, highest, lowest, sorted_values,
    stabilized_peak_index, top_peaks, PEAK_STABILIZE_QUINT_MAX,
};

fn num(v: f64) -> Real {
    Real { bits: v.to_bits() }
}

fn nums(values: &[f64]) -> Vec<Real> {
    values.iter().map(|v| num(*v)).collect()
}

fn value(r: Real) -> f64 {
    f64::from_bits(r.bits)
}

#[test]
fn the_first_highest_value_is_the_peak() {
    assert_eq!(argmax(&nums(&[1.0, 3.0, 3.0, 2.0])), 1);
    assert_eq!(argmax(&nums(&[f64::NAN, -5.0, f64::NAN, -7.0])), 1);
    assert_eq!(argmax(&nums(&[f64::NEG_INFINITY, f64::NAN])), 0);
    assert_eq!(argmax(&Vec::new()), 0);
    assert_eq!(argmax(&nums(&[-0.0, 0.0])), 0);
}

#[test]
fn flat_peaks_move_to_the_right() {
    let values = nums(&[0.0, 10.0, 9.999, 9.5, 9.99, 9.99, 9.999]);
    let floor = num(10.0 * (1.0 - 0.002));
    assert_eq!(stabilized_peak_index(&values, 1, num(0.06), floor), 5);
    assert_eq!(stabilized_peak_index(&values, 1, num(0.0601), floor), 1);
    assert_eq!(stabilized_peak_index(&values, 6, num(0.0), floor), 6);
    let odd = nums(&[f64::INFINITY, f64::INFINITY]);
    assert_eq!(stabilized_peak_index(&odd, 0, num(0.0), num(0.0)), 0);
    assert_eq!(PEAK_STABILIZE_QUINT_MAX, 0.06f64.to_bits());
}

#[test]
fn twelve_peaks_at_most_and_the_highest_first() {
    let values: Vec<f64> = (0..20).map(|i| f64::from((i * 7) % 20)).collect();
    let top = top_peaks(&nums(&values));
    assert_eq!(top.len(), 12);
    let mut expected: Vec<usize> = (0..20).collect();
    expected.sort_by(|a, b| values[*b].total_cmp(&values[*a]));
    expected.truncate(12);
    assert_eq!(top, expected);
    assert_eq!(top_peaks(&nums(&[1.0, 2.0, 2.0])), vec![1, 2, 0]);
    assert_eq!(top_peaks(&nums(&[0.0, f64::NAN, -0.0])), vec![1, 0, 2]);
}

#[test]
fn values_sort_in_the_total_order() {
    let values = [3.0, f64::NAN, -0.0, 0.0, f64::NEG_INFINITY, -1.5, f64::INFINITY, 2.0];
    let mut expected = values.to_vec();
    expected.sort_by(f64::total_cmp);
    let sorted: Vec<u64> = sorted_values(&nums(&values)).iter().map(|r| r.bits).collect();
    assert_eq!(sorted, expected.iter().map(|v| v.to_bits()).collect::<Vec<u64>>());
}

#[test]
fn lowest_and_highest_leave_out_what_is_no_number() {
    let values = nums(&[2.0, f64::NAN, -3.0, 7.0]);
    assert_eq!(value(lowest(&values)), -3.0);
    assert_eq!(value(highest(&values)), 7.0);
    assert_eq!(value(lowest(&nums(&[f64::NAN]))), f64::INFINITY);
    assert_eq!(value(highest(&Vec::new())), f64::NEG_INFINITY);
}

#[test]
fn edges_of_a_convolution_are_discarded() {
    assert_eq!(clip_range(5), Ok((2, 3)));
    assert_eq!(
        clip_range(4),
        Err("convolution output too small for edge discard".to_string())
    );
}

#[test]
fn offsets_count_from_the_middle() {
    assert_eq!(fingerprint_offsets(4), vec![-2, -1, 0, 1]);
    assert_eq!(fingerprint_offsets(5), vec![-2, -1, 0, 1, 2]);
    assert!(fingerprint_offsets(0).is_empty());
}
