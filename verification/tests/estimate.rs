use null_or_die::analyze::default_bias_cfg;
use null_or_die::audio::OggDecode;
use null_or_die::beats::Setup;
use null_or_die::estimate::estimate_bias_with_beat_fn;
use null_or_die::model::{BiasCfg, BiasEstimate, BiasKernel, KernelTarget};
use null_or_die::number::Real;
use null_or_die::numeric::{Numerics, Place, Term};
use null_or_die::paths::{PartKind, PathPart, SimPath};
use null_or_die::song::{analyze_chart_with_runtime, inspect_simfile, ChartInfo, SongSummary};
use null_or_die::spectrum::Bin;
use null_or_die::trace::{BiasResult, BiasRuntime, BiasTraceCfg, SpectrogramKey};
use rustfft::num_complex::Complex;
use rustfft::{Fft, FftPlanner};
use std::cell::RefCell;
use std::sync::Arc;

fn num(v: f64) -> Real {
    Real { bits: v.to_bits() }
}

fn float(v: Real) -> f64 {
    f64::from_bits(v.bits)
}

fn calc(t: Term) -> Real {
    num(match t {
        Term::Plus(a, b) => float(a) + float(b),
        Term::Minus(a, b) => float(a) - float(b),
        Term::Times(a, b) => float(a) * float(b),
        Term::Over(a, b) => float(a) / float(b),
        Term::Power(a, b) => float(a).powf(float(b)),
        Term::Fourth(a) => float(a).powi(4),
        Term::Root(a) => float(a).sqrt(),
        Term::Floor(a) => float(a).floor(),
        Term::Fused(a, b, c) => float(a).mul_add(float(b), float(c)),
        Term::Exponential(a) => float(a).exp(),
        Term::Cosine(a) => float(a).cos(),
        Term::Logarithm(a) => float(a).log2(),
        Term::Whole(n) => n as f64,
    })
}

fn place(p: u32, n: usize) -> Place {
    let rank = (f64::from(p) / 100.0) * (n - 1) as f64;
    Place {
        lo: rank.floor() as usize,
        hi: rank.ceil() as usize,
        frac: num(rank - rank.floor()),
    }
}

/// A transform that is planned once.
struct Spectrum {
    fft: Arc<dyn Fft<f64>>,
}

impl Spectrum {
    fn new(n: usize) -> Spectrum {
        Spectrum {
            fft: FftPlanner::<f64>::new().plan_fft_forward(n),
        }
    }

    fn transform(&self, input: Vec<Real>) -> Vec<Bin> {
        let mut buf: Vec<Complex<f64>> =
            input.iter().map(|v| Complex::new(float(*v), 0.0)).collect();
        self.fft.process(&mut buf);
        buf.iter().map(|v| Bin { re: num(v.re), im: num(v.im) }).collect()
    }
}

fn cfg() -> BiasCfg {
    BiasCfg {
        fingerprint_ms: num(50.0),
        window_ms: num(10.0),
        step_ms: num(0.2),
        magic_offset_ms: num(0.0),
        kernel_target: KernelTarget::Digest,
        kernel_type: BiasKernel::Rising,
        full_spectrogram: false,
    }
}

fn cut(v: Real) -> usize {
    float(v).floor() as usize
}

fn nearest(v: Real) -> isize {
    float(v).round_ties_even() as isize
}

fn run(
    audio: &[f32],
    rate: u32,
    cfg: &BiasCfg,
    runtime: &mut BiasRuntime<Spectrum>,
    gap: f64,
    trace: Option<BiasTraceCfg>,
    plot: bool,
) -> Result<BiasResult, String> {
    let runtime = RefCell::new(runtime);
    let transform = |setup: &Setup, input: Vec<Real>| {
        let key = SpectrogramKey {
            sample_rate_hz: rate,
            nperseg: setup.nperseg,
            nstep: setup.nstep,
        };
        let mut runtime = runtime.borrow_mut();
        let at = runtime.spectrogram_ctx(key, Spectrum::new);
        runtime.spectrogram[at].ctx.transform(input)
    };
    let time = |beat: usize| num(beat as f64 * gap);
    let samples: Vec<Real> = audio.iter().map(|v| num(f64::from(*v))).collect();
    let numerics = Numerics { calc, place };
    estimate_bias_with_beat_fn(
        &numerics, &cut, &nearest, &transform, &samples, rate, cfg, trace, plot, &time,
    )
    .expect("a fingerprint of some length")
}

fn tone(sample_rate: u32) -> Vec<f32> {
    let len = (sample_rate as usize) * 4;
    let mut audio = Vec::with_capacity(len);
    for i in 0..len {
        let t = i as f32 * 0.01;
        audio.push((t.sin() * (t * 0.1).cos()) * 0.8);
    }
    audio
}

fn estimate_bias_with_beat_fn_reuse(
    audio: &[f32],
    rate: u32,
    cfg: &BiasCfg,
    runtime: &mut BiasRuntime<Spectrum>,
) -> Result<BiasEstimate, String> {
    run(audio, rate, cfg, runtime, 0.25, None, false).map(BiasResult::into_estimate)
}

#[test]
fn fft_runtime_reuse_matches_one_shot() {
    let sample_rate = 4_000u32;
    let audio = tone(sample_rate);
    let cfg = cfg();
    let mut fresh = BiasRuntime::default();
    let one_shot = estimate_bias_with_beat_fn_reuse(&audio, sample_rate, &cfg, &mut fresh)
        .expect("one-shot estimate should succeed");
    let mut runtime = BiasRuntime::default();
    let first = estimate_bias_with_beat_fn_reuse(&audio, sample_rate, &cfg, &mut runtime)
        .expect("first cached estimate should succeed");
    let second = estimate_bias_with_beat_fn_reuse(&audio, sample_rate, &cfg, &mut runtime)
        .expect("second cached estimate should succeed");
    let apart = |a: Real, b: Real| (float(a) - float(b)).abs();
    assert!(apart(one_shot.bias_ms, first.bias_ms) < 1e-12);
    assert!(apart(one_shot.confidence, first.confidence) < 1e-12);
    assert!(apart(one_shot.conv_quint, first.conv_quint) < 1e-12);
    assert!(apart(one_shot.conv_stdev, first.conv_stdev) < 1e-12);
    assert!(apart(first.bias_ms, second.bias_ms) < 1e-12);
    assert!(apart(first.confidence, second.confidence) < 1e-12);
    assert!(apart(first.conv_quint, second.conv_quint) < 1e-12);
    assert!(apart(first.conv_stdev, second.conv_stdev) < 1e-12);
    assert_eq!(runtime.spectrogram.len(), 1);
}

#[test]
fn estimates_are_determined() {
    let audio = tone(4_000);
    let mut runtime = BiasRuntime::default();
    for target in [KernelTarget::Digest, KernelTarget::Accumulator] {
        for kind in [BiasKernel::Rising, BiasKernel::Loudest] {
            let mut cfg = cfg();
            cfg.kernel_target = target;
            cfg.kernel_type = kind;
            let mut go = |trace, plot| {
                run(&audio, 4_000, &cfg, &mut runtime, 0.25, trace, plot).expect("estimate")
            };
            let plain = go(None, false).into_estimate();
            let (traced, trace) = go(Some(BiasTraceCfg { keep: 2 }), true)
                .into_pair()
                .expect("trace");
            let plotted = go(None, true).into_plot().expect("plot");
            assert_eq!(plain, traced);
            assert_eq!(plain, plotted.estimate);
            assert_eq!(trace.beat_head.len(), 2);
            assert_eq!(trace.beat_tail.len(), 2);
            assert_eq!(trace.loop_stats.beats_used, plotted.plot.digest_rows);
            assert_eq!(trace.result.bias_ms, plain.bias_ms);
            assert_eq!(float(trace.setup.min_sep_sec), 0.05);
            let plot = plotted.plot;
            assert_eq!(plot.freqs_khz[1], num(4000.0 / 40.0 * 1e-3));
            assert_eq!(plot.beat_indices[2], num(2.0));
            assert_eq!(plot.convolution.len(), plot.cols);
            assert_eq!(plot.bias_ms, plain.bias_ms);
            let rows = if target == KernelTarget::Digest {
                plot.digest_rows
            } else {
                plot.freq_rows
            };
            assert_eq!(plot.post_kernel.len(), rows * plot.cols);
        }
    }
}

#[test]
fn a_click_behind_each_beat_is_found() {
    let rate = 8_000u32;
    let shift = 0.012;
    let mut audio = vec![0.0f32; rate as usize * 6];
    for beat in 0..12 {
        let at = ((beat as f64 * 0.5 + shift) * f64::from(rate)) as usize;
        for k in 0..200 {
            if let Some(v) = audio.get_mut(at + k) {
                *v = 0.7 * (k as f32 * 1.3).sin() * (-(k as f32) / 60.0).exp();
            }
        }
    }
    let mut cfg = default_bias_cfg();
    cfg.step_ms = num(0.25);
    let mut runtime = BiasRuntime::default();
    let est = run(&audio, rate, &cfg, &mut runtime, 0.5, None, false)
        .map(BiasResult::into_estimate)
        .expect("estimate");
    assert!((float(est.bias_ms) - shift * 1e3).abs() < 4.0);
    assert!((0.0..=1.0).contains(&float(est.confidence)));
}

#[test]
fn estimates_need_windows() {
    let audio = tone(4_000);
    let mut runtime = BiasRuntime::default();
    let none = run(&audio, 4_000, &cfg(), &mut runtime, f64::NAN, None, false);
    assert_eq!(
        none.err(),
        Some("no beat windows produced for bias calculation".to_string())
    );
}

#[test]
fn the_same_audio_leads_to_the_same_estimate() {
    let audio = tone(4_000);
    let go = |trace, plot| {
        let mut runtime = BiasRuntime::default();
        run(&audio, 4_000, &cfg(), &mut runtime, 0.25, trace, plot)
    };
    let first = go(None, false).expect("estimate").into_estimate();
    let second = go(None, true).expect("estimate").into_estimate();
    let third = go(Some(BiasTraceCfg { keep: 1 }), false).expect("estimate").into_estimate();
    assert_eq!(first, second);
    assert_eq!(first, third);
}

#[test]
fn audio_and_settings_have_to_fit() {
    let audio = tone(4_000);
    let mut runtime = BiasRuntime::default();
    let mut go = |len: usize, rate: u32, cfg: &BiasCfg| {
        run(&audio[..len], rate, cfg, &mut runtime, 0.25, None, false).err()
    };
    assert_eq!(go(100, 0, &cfg()), Some("sample rate is zero".to_string()));
    assert_eq!(
        go(100, 700, &cfg()),
        Some("spectrogram window is too small".to_string())
    );
    assert_eq!(
        go(40, 4_000, &cfg()),
        Some("audio too short for spectrogram window".to_string())
    );
    let mut tiny = cfg();
    tiny.fingerprint_ms = num(0.5);
    assert_eq!(
        go(100, 4_000, &tiny),
        Some("fingerprint size is too small".to_string())
    );
    let mut back = cfg();
    back.fingerprint_ms = num(-50.0);
    let transform = |_: &Setup, _: Vec<Real>| Vec::new();
    let out = estimate_bias_with_beat_fn(
        &Numerics { calc, place },
        &cut,
        &nearest,
        &transform,
        &vec![num(0.0); 100],
        4_000,
        &back,
        None,
        false,
        &|_: usize| num(0.0),
    );
    assert!(out.is_none());
}

fn simple_path(text: &str) -> SimPath {
    let names: Vec<&str> = text.split('/').collect();
    let part = |name: &&str| PathPart {
        kind: PartKind::Name,
        bytes: name.as_bytes().to_vec(),
    };
    SimPath {
        text: text.to_string(),
        ext: text.rsplit_once('.').map(|(_, ext)| ext.to_string()),
        parts: names.iter().map(part).collect(),
        tails: (0..=names.len()).map(|i| names[i..].join("/")).collect(),
    }
}

#[test]
fn offered_charts_are_analyzed() {
    let simfile = simple_path("pack/song.ssc");
    let chart = |difficulty: &str| ChartInfo {
        step_type: "dance-single".to_string(),
        difficulty: difficulty.to_string(),
        description: format!("by {difficulty}"),
        has_own_timing: false,
    };
    let load = || {
        Ok(SongSummary {
            title: "Title".to_string(),
            subtitle: "Subtitle".to_string(),
            artist: "Artist".to_string(),
            music_path: " song.ogg".to_string(),
            charts: vec![chart("Easy"), chart("Hard")],
        })
    };
    let lookup = |tag: &str| Some(simple_path(&format!("pack/{tag}")));
    let rate = 8_000u32;
    let decode = |_: &SimPath| {
        Ok(OggDecode {
            sample_rate_hz: rate,
            mono: tone(rate).iter().map(|v| (v * 20_000.0) as i16).collect(),
        })
    };
    let estimate = |i: usize, audio: &OggDecode| {
        let samples: Vec<f32> = audio.mono.iter().map(|v| f32::from(*v) / 32_768.0).collect();
        let gap = 0.25 * (i + 1) as f64;
        let mut runtime = BiasRuntime::default();
        run(&samples, audio.sample_rate_hz, &default_bias_cfg(), &mut runtime, gap, None, true)
            .and_then(BiasResult::into_plot)
    };
    let offered = inspect_simfile(&simfile, true, &load, &lookup).expect("charts");
    let analyze = |i: usize| {
        analyze_chart_with_runtime(&simfile, true, i, &load, &lookup, &decode, &estimate)
    };
    assert_eq!(offered.len(), 2);
    for (i, meta) in offered.iter().enumerate() {
        let found = analyze(i).expect("a result");
        assert_eq!(format!("{:?}", found.meta), format!("{meta:?}"));
        let plot = &found.plot;
        assert_eq!(plot.bias_ms, found.estimate.bias_ms);
        assert_eq!(plot.freq_domain.len(), plot.freq_rows * plot.cols);
        assert_eq!(plot.beat_digest.len(), plot.digest_rows * plot.cols);
        assert_eq!(plot.post_kernel.len(), plot.post_rows * plot.cols);
        assert_eq!(plot.convolution.len(), plot.cols);
        assert!(plot.cols > 0 && plot.digest_rows > 0);
    }
    assert_eq!(analyze(2).err(), Some("chart index out of range: 2".to_string()));
}
