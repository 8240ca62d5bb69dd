use null_or_die::beats::{BeatWindow, Setup};
use null_or_die::estimate::convolve_fingerprint;
use null_or_die::fingerprint::{
    build_fingerprints_full, build_fingerprints_legacy, full_columns, should_use_full_spectrogram,
    snippet_span, window_matches_legacy_rules, Arith, Fingerprint,
};
use null_or_die::model::KernelTarget;
use null_or_die::number::Real;
use rustfft::num_complex::Complex;
use rustfft::FftPlanner;

fn setup(nperseg: usize, nstep: usize, fp_size: usize, n_freq_taps: usize) -> Setup {
    Setup {
        nperseg,
        nstep,
        fp_size,
        n_freq_taps,
        n_time_taps: 0,
        actual_step_sec: Real { bits: 0 },
        spectrogram_offset: Real { bits: 0 },
    }
}

fn window(beat_index: usize, t_s: usize, t_f: usize) -> BeatWindow {
    BeatWindow {
        beat_index,
        beat_time_sec: Real { bits: 0 },
        t_s_raw: t_s as isize,
        t_f_raw: t_f as isize,
        t_s,
        t_f,
    }
}

/// The logarithm of the power spectrum of the samples from `base` on.
fn log_column(audio: &[f32], base: usize, nperseg: usize, rows: usize) -> Vec<f64> {
    let fft = FftPlanner::<f64>::new().plan_fft_forward(nperseg);
    let mut buf: Vec<Complex<f64>> = (0..nperseg)
        .map(|i| {
            let w = 0.5 - 0.5 * (2.0 * std::f64::consts::PI * i as f64 / nperseg as f64).cos();
            Complex::new(f64::from(audio[base + i]) * w, 0.0)
        })
        .collect();
    fft.process(&mut buf);
    (0..rows)
        .map(|r| (buf[r].re.mul_add(buf[r].re, buf[r].im * buf[r].im) + 1e-9).log2())
        .collect()
}

fn weights(sample_rate: u32, nperseg: usize, rows: usize) -> Vec<f64> {
    let step = f64::from(sample_rate) / nperseg as f64;
    (0..rows)
        .map(|r| {
            let f = r as f64 * step;
            f * (-f / 3000.0).exp()
        })
        .collect()
}

#[test]
fn full_spectrogram_matches_legacy_fingerprints() {
    let sample_rate = 8_000u32;
    let mut audio: Vec<f32> = Vec::with_capacity(400);
    for i in 0..400 {
        let t = i as f32 * 0.07;
        audio.push((t.sin() * 0.8) + (t * 0.5).cos() * 0.2);
    }
    let setup = setup(32, 8, 10, 17);
    let windows = vec![
        window(0, 0, 10),
        window(5, 5, 15),
        window(9, 9, 19),
        window(20, 20, 30),
    ];
    let weights = weights(sample_rate, setup.nperseg, setup.n_freq_taps);
    let column = |base: usize| log_column(&audio, base, 32, 17);
    let arith = Arith {
        zero: 0.0,
        plus: |a: f64, b: f64| a + b,
        times: |a: f64, b: f64| a * b,
    };
    let full = build_fingerprints_full(&arith, audio.len(), &setup, &windows, &weights, &column)
        .expect("full fingerprint build should succeed");
    let legacy = build_fingerprints_legacy(&arith, audio.len(), &setup, &windows, &weights, &column)
        .expect("legacy fingerprint build should succeed");
    assert_eq!(full.taken.len(), legacy.taken.len());
    assert_eq!(full.acc.len(), legacy.acc.len());
    assert_eq!(full.digest.len(), legacy.digest.len());
    for (a, b) in full.acc.iter().zip(legacy.acc.iter()) {
        assert!((*a - *b).abs() < 1e-12);
    }
    for (a, b) in full.digest.iter().zip(legacy.digest.iter()) {
        assert!((*a - *b).abs() < 1e-12);
    }
}

fn plus(a: i64, b: i64) -> i64 {
    a + b
}

fn times(a: i64, b: i64) -> i64 {
    a * b
}

fn whole() -> Arith<i64, fn(i64, i64) -> i64, fn(i64, i64) -> i64> {
    Arith {
        zero: 0,
        plus,
        times,
    }
}

fn numbered(base: usize) -> Vec<i64> {
    vec![base as i64, 1000 + base as i64]
}

fn shape(fp: &Fingerprint<i64>) -> (Vec<i64>, Vec<i64>, Vec<usize>) {
    (
        fp.acc.clone(),
        fp.digest.clone(),
        fp.taken.iter().map(|w| w.beat_index).collect(),
    )
}

#[test]
fn fingerprints_add_up_weighted_columns() {
    let setup = setup(4, 2, 3, 2);
    let windows = vec![window(0, 0, 3), window(1, 1, 3), window(2, 4, 7)];
    let weights: Vec<i64> = vec![10, 1];
    let fp = build_fingerprints_legacy(&whole(), 40, &setup, &windows, &weights, &numbered)
        .expect("windows that fit");
    // The columns of the first window start at 0, 2 and 4, those of the last at 8, 10 and 12.
    assert_eq!(
        shape(&fp),
        (
            vec![80, 120, 160, 2008, 2012, 2016],
            vec![1000, 1022, 1044, 1088, 1110, 1132],
            vec![0, 2]
        )
    );
    let full = build_fingerprints_full(&whole(), 40, &setup, &windows, &weights, &numbered)
        .expect("windows that fit");
    assert_eq!(shape(&full), shape(&fp));
}

#[test]
fn fingerprints_of_no_window_are_refused() {
    let setup = setup(4, 2, 3, 2);
    let weights: Vec<i64> = vec![1, 1];
    let error = Some("no valid beat snippets for spectrogram digest".to_string());
    let windows = vec![window(0, 30, 33)];
    assert_eq!(
        build_fingerprints_legacy(&whole(), 40, &setup, &windows, &weights, &numbered).err(),
        error
    );
    assert_eq!(
        build_fingerprints_full(&whole(), 40, &setup, &windows, &weights, &numbered).err(),
        error
    );
    assert_eq!(
        build_fingerprints_full(&whole(), 3, &setup, &windows, &weights, &numbered).err(),
        Some("audio too short for full spectrogram".to_string())
    );
}

#[test]
fn columns_are_counted() {
    assert_eq!(full_columns(3, 4, 2), None);
    assert_eq!(full_columns(4, 4, 2), Some(1));
    assert_eq!(full_columns(9, 4, 2), Some(3));
}

#[test]
fn snippets_give_as_many_columns_as_a_window_has() {
    let setup = setup(4, 2, 3, 2);
    assert_eq!(snippet_span(40, &setup, 0, 3, 3), Some((0, 9)));
    assert_eq!(snippet_span(8, &setup, 0, 3, 3), Some((0, 8)));
    assert_eq!(snippet_span(7, &setup, 0, 3, 3), None);
    assert_eq!(snippet_span(40, &setup, usize::MAX - 3, usize::MAX, 3), None);
    assert!(window_matches_legacy_rules(40, &setup, 2, 5, 3, 19));
    assert!(!window_matches_legacy_rules(40, &setup, 2, 5, 3, 4));
}

#[test]
fn whole_spectrograms_must_pay() {
    let small = setup(4, 2, 3, 3);
    assert!(should_use_full_spectrogram(9, &small, 1));
    assert!(!should_use_full_spectrogram(9, &small, 0));
    assert!(!should_use_full_spectrogram(3, &small, 5));
    let wide = setup(4, 1, 1000, 33_554_433);
    assert!(!should_use_full_spectrogram(4, &wide, 1));
    let most = setup(4, 1, 1000, 33_554_432);
    assert!(should_use_full_spectrogram(4, &most, 1));
}

#[test]
fn convolved_fingerprints() {
    let mut setup = setup(8, 2, 8, 5);
    setup.n_time_taps = 100;
    let column = |base: usize| vec![base as i64, 0, 0, 0, 0];
    let weights: Vec<i64> = vec![1; 5];
    let taps: [i64; 25] = [1; 25];
    let windows = vec![window(0, 0, 8)];
    for full in [false, true] {
        let out = convolve_fingerprint(
            &whole(),
            60,
            &setup,
            full,
            KernelTarget::Digest,
            &windows,
            &weights,
            &column,
            &taps,
        )
        .expect("a window");
        assert_eq!(out.rows, 1);
        // One row repeats itself, so each cell adds five neighbours five times.
        let row: Vec<i64> = (0..8).map(|c| 2 * c).collect();
        let expected: Vec<i64> = (0..8i64)
            .map(|c| (-2..=2).map(|d| 5 * row[(c + d).rem_euclid(8) as usize]).sum())
            .collect();
        assert_eq!(out.post, expected);
        assert_eq!(out.flat, expected);
        let acc = convolve_fingerprint(
            &whole(),
            60,
            &setup,
            full,
            KernelTarget::Accumulator,
            &windows,
            &weights,
            &column,
            &taps,
        )
        .expect("a window");
        assert_eq!(acc.rows, 5);
        assert_eq!(acc.flat, expected);
    }
    assert_eq!(
        convolve_fingerprint(
            &whole(),
            60,
            &setup,
            false,
            KernelTarget::Digest,
            &Vec::new(),
            &weights,
            &column,
            &taps
        )
        .err(),
        Some("no beat windows produced for bias calculation".to_string())
    );
}
