use null_or_die::beats::{BeatWindow, Setup};
use null_or_die::model::{BiasEstimate, KernelTarget};
use null_or_die::number::Real;
use null_or_die::trace::{
    beat_trace, build_plot_data, trace_convolution, trace_setup, BiasEstimateWithPlot,
    BiasPlotData, BiasResult, BiasRuntime, BiasTrace, BiasTraceCfg, SpectrogramKey, TraceCollector,
};
use null_or_die::beats::{BiasTraceLoop, BiasTraceSkips};
use null_or_die::trace::{BiasTraceConv, BiasTraceResult};
use std::cell::Cell;

fn num(v: f64) -> Real {
    Real { bits: v.to_bits() }
}

fn nums(values: &[f64]) -> Vec<Real> {
    values.iter().map(|v| num(*v)).collect()
}

fn setup() -> Setup {
    Setup {
        nperseg: 8,
        nstep: 3,
        fp_size: 8,
        n_freq_taps: 5,
        n_time_taps: 40,
        actual_step_sec: num(0.1),
        spectrogram_offset: num(0.2),
    }
}

fn estimate() -> BiasEstimate {
    BiasEstimate {
        bias_ms: num(1.0),
        confidence: num(0.5),
        conv_quint: num(0.25),
        conv_stdev: num(0.125),
    }
}

#[test]
fn both_ends_of_a_run_are_kept() {
    let mut run: TraceCollector<u32> = TraceCollector::new(BiasTraceCfg { keep: 2 });
    for i in 0..5 {
        run.push_beat(i);
    }
    assert_eq!(run.beat_head, vec![0, 1]);
    assert_eq!(run.beat_tail, vec![3, 4]);
    let mut short: TraceCollector<u32> = TraceCollector::new(BiasTraceCfg { keep: 9 });
    short.push_beat(7);
    assert_eq!(short.beat_head, vec![7]);
    assert_eq!(short.beat_tail, vec![7]);
    let mut one: TraceCollector<u32> = TraceCollector::new(BiasTraceCfg { keep: 0 });
    one.push_beat(1);
    one.push_beat(2);
    assert_eq!((one.beat_head, one.beat_tail), (vec![1], vec![2]));
}

#[test]
fn a_beat_is_described() {
    let window = BeatWindow {
        beat_index: 4,
        beat_time_sec: num(2.5),
        t_s_raw: -1,
        t_f_raw: 7,
        t_s: 0,
        t_f: 7,
    };
    let row = nums(&[1.0, 5.0, -2.0]);
    let out = beat_trace(&window, &row, num(4.0 / 3.0), num(2.0), &nums(&[-1.0, 0.0, 1.0]));
    assert_eq!(out.beat_index, 4);
    assert_eq!(out.window_time_idx_raw_start, -1);
    assert_eq!(out.window_time_idx_end, 7);
    assert_eq!(out.digest_peak_idx, 1);
    assert_eq!(out.digest_peak_ms, num(0.0));
    assert_eq!(out.digest_min, num(-2.0));
    assert_eq!(out.digest_max, num(5.0));
    assert_eq!(out.digest_std, num(2.0));
    let bare = beat_trace(&window, &row, num(0.0), num(0.0), &nums(&[-1.0]));
    assert_eq!(bare.digest_peak_ms, num(0.0));
}

#[test]
fn a_convolution_is_described() {
    let clip = nums(&[1.0, 3.0, 2.0]);
    let times = nums(&[-3.0, -2.0, -1.0, 0.0, 1.0, 2.0, 3.0]);
    let out = trace_convolution(&clip, &times, num(2.0), num(0.8));
    assert_eq!(out.edge_discard, 2);
    assert_eq!(out.clip_min, num(1.0));
    assert_eq!(out.clip_max, num(3.0));
    let peaks: Vec<(usize, usize)> = out
        .top_peaks
        .iter()
        .map(|p| (p.clip_index, p.full_index))
        .collect();
    assert_eq!(peaks, vec![(1, 3), (2, 4), (0, 2)]);
    assert_eq!(out.top_peaks[0].time_ms, num(0.0));
    assert_eq!(out.top_peaks[0].value, num(3.0));
}

#[test]
fn a_setup_is_described() {
    let out = trace_setup(44100, 1000, &setup(), num(0.05));
    assert_eq!(out.noverlap, 5);
    assert_eq!(out.samples, 1000);
    let mut wide = setup();
    wide.nstep = 9;
    assert_eq!(trace_setup(1, 1, &wide, num(0.0)).noverlap, 0);
}

fn plot() -> BiasPlotData {
    build_plot_data(
        &setup(),
        KernelTarget::Digest,
        vec![num(0.0); 40],
        vec![num(0.0); 16],
        2,
        vec![num(0.0); 16],
        vec![num(0.0); 8],
        vec![num(0.0); 8],
        vec![num(0.0); 5],
        vec![num(0.0); 2],
        num(1.0),
    )
}

fn trace() -> BiasTrace {
    let zero = num(0.0);
    BiasTrace {
        setup: trace_setup(1, 1, &setup(), zero),
        skip_counts: BiasTraceSkips::default(),
        loop_stats: BiasTraceLoop {
            beats_scanned: 0,
            beats_used: 0,
            first_beat_index: 0,
            last_beat_index: 0,
            first_beat_time_s: zero,
            last_beat_time_s: zero,
        },
        beat_head: Vec::new(),
        beat_tail: Vec::new(),
        convolution: BiasTraceConv {
            edge_discard: 2,
            clip_min: zero,
            clip_max: zero,
            clip_mean: zero,
            clip_std: zero,
            top_peaks: Vec::new(),
        },
        result: BiasTraceResult {
            bias_ms: zero,
            confidence: zero,
            conv_quint: zero,
            conv_stdev: zero,
            i_max: 0,
            v_median: zero,
            v_max: zero,
            v20: zero,
            v80: zero,
            total_max_influence: zero,
        },
    }
}

#[test]
fn plot_data_has_the_rows_of_its_target() {
    assert_eq!(plot().post_rows, 2);
    assert_eq!(plot().freq_rows, 5);
    assert_eq!(plot().digest_rows, 2);
    assert_eq!(plot().cols, 8);
    assert_eq!(plot().edge_discard, 2);
}

#[test]
fn results_are_taken_apart() {
    let plain = || BiasResult::Estimate(estimate());
    let traced = || BiasResult::WithTrace(estimate(), trace());
    let plotted = || {
        BiasResult::WithPlot(BiasEstimateWithPlot {
            estimate: estimate(),
            plot: plot(),
        })
    };
    assert_eq!(plain().into_estimate(), estimate());
    assert_eq!(traced().into_estimate(), estimate());
    assert_eq!(plotted().into_estimate(), estimate());
    assert!(traced().into_pair().is_ok());
    assert!(plotted().into_plot().is_ok());
    assert_eq!(
        plotted().into_pair().err(),
        Some("bias trace requested but not produced".to_string())
    );
    assert_eq!(
        plain().into_pair().err(),
        Some("bias trace requested but not produced".to_string())
    );
    assert_eq!(
        traced().into_plot().err(),
        Some("bias plot requested but not produced".to_string())
    );
}

#[test]
fn preparations_are_made_once() {
    let made = Cell::new(0usize);
    let prepare = |n: usize| {
        made.set(made.get() + 1);
        n * 10
    };
    let key = |nperseg: usize| SpectrogramKey {
        sample_rate_hz: 44100,
        nperseg,
        nstep: 8,
    };
    let mut runtime: BiasRuntime<usize> = BiasRuntime::default();
    assert_eq!(runtime.spectrogram_ctx(key(4), prepare), 0);
    assert_eq!(runtime.spectrogram_ctx(key(5), prepare), 1);
    assert_eq!(runtime.spectrogram_ctx(key(4), prepare), 0);
    assert_eq!(made.get(), 2);
    assert_eq!(runtime.spectrogram[1].ctx, 50);
    assert_eq!(runtime.slot(key(6)), None);
}
