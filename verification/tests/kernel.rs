use null_or_die::fingerprint::Arith;
use null_or_die::kernel::{convolve_wrap_5x5, flatten_columns_sum, make_kernel, wrap_idx};
use null_or_die::model::BiasKernel;

fn plus(a: i64, b: i64) -> i64 {
    a + b
}

fn times(a: i64, b: i64) -> i64 {
    a * b
}

fn whole() -> Arith<i64, fn(i64, i64) -> i64, fn(i64, i64) -> i64> {
    Arith {
        zero: 0,
        plus,
        times,
    }
}

#[test]
fn kernels_have_expected_center_column_polarity() {
    let rising = make_kernel(BiasKernel::Rising).map(f64::from);
    let loud = make_kernel(BiasKernel::Loudest).map(f64::from);
    assert_eq!(rising[2], 0.0);
    assert!(rising[0] > rising[4]);
    assert_eq!(loud[2], 10.0);
}

#[test]
fn kernels_are_the_same_row_five_times() {
    for r in 0..5 {
        assert_eq!(make_kernel(BiasKernel::Loudest)[r * 5..r * 5 + 5], [1, 3, 10, 3, 1]);
        assert_eq!(make_kernel(BiasKernel::Rising)[r * 5..r * 5 + 5], [1, 1, 0, -1, -1]);
    }
}

#[test]
fn kernels_are_symmetric_or_change_their_sign() {
    let loud = make_kernel(BiasKernel::Loudest);
    let rising = make_kernel(BiasKernel::Rising);
    for c in 0..5 {
        assert_eq!(loud[c], loud[4 - c]);
        assert_eq!(rising[c], -rising[4 - c]);
    }
}

#[test]
fn indices_wrap_round() {
    for i in -17isize..17 {
        assert_eq!(wrap_idx(i, 5), i.rem_euclid(5) as usize);
    }
    assert_eq!(wrap_idx(isize::MIN, 3), isize::MIN.rem_euclid(3) as usize);
}

#[test]
fn convolution_turns_the_kernel_round() {
    // A single one in the input gives the kernel itself, not its mirror image.
    let (rows, cols) = (7usize, 9usize);
    let mut input = vec![0i64; rows * cols];
    input[3 * cols + 4] = 1;
    let mut taps = [0i64; 25];
    for (i, t) in taps.iter_mut().enumerate() {
        *t = i as i64 + 1;
    }
    let out = convolve_wrap_5x5(&whole(), &input, rows, cols, &taps);
    for r in 0..5 {
        for c in 0..5 {
            assert_eq!(out[(r + 1) * cols + c + 2], taps[r * 5 + c]);
        }
    }
    assert_eq!(out.iter().sum::<i64>(), taps.iter().sum::<i64>());
}

#[test]
fn convolution_repeats_the_input_beyond_its_edges() {
    let mut taps = [0i64; 25];
    taps[2 * 5] = 1;
    // The tap two columns left of the middle reads two columns to the right.
    let out = convolve_wrap_5x5(&whole(), &vec![1, 2, 3], 1, 3, &taps);
    assert_eq!(out, vec![3, 1, 2]);
}

#[test]
fn columns_are_summed() {
    assert_eq!(
        flatten_columns_sum(&whole(), &vec![1, 2, 3, 10, 20, 30], 2, 3),
        vec![11, 22, 33]
    );
    assert_eq!(flatten_columns_sum(&whole(), &Vec::new(), 0, 2), vec![0, 0]);
}

#[test]
fn convolution_turns_with_its_input() {
    let arith = Arith {
        zero: 0i64,
        plus: |a: i64, b: i64| a + b,
        times: |a: i64, b: i64| a * b,
    };
    let taps = make_kernel(BiasKernel::Rising).map(i64::from);
    let (rows, cols) = (3usize, 7usize);
    let input: Vec<i64> = (0..21).map(|i| (i * i * 5 + i) % 17).collect();
    let by = 3usize;
    let turn = |m: &[i64]| -> Vec<i64> {
        (0..m.len())
            .map(|i| m[(i / cols) * cols + (i % cols + cols - by) % cols])
            .collect()
    };
    let out = convolve_wrap_5x5(&arith, &input, rows, cols, &taps);
    let turned = convolve_wrap_5x5(&arith, &turn(&input), rows, cols, &taps);
    assert_eq!(turned, turn(&out));
    assert_eq!(
        flatten_columns_sum(&arith, &turned, rows, cols),
        turn(&flatten_columns_sum(&arith, &out, rows, cols))
    );
}
