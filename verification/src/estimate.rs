//! From the windows of a chart to the curve that its bias is read from.

use crate::beats;
use crate::beats::{
    build_setup, measure_setup, scan_beats, BeatReading, BeatScan, BeatWindow, BeatWindows, Measures,
    Setup,
};
use crate::fingerprint;
use crate::fingerprint::{
    build_fingerprints_full, build_fingerprints_legacy, should_use_full_spectrogram, Arith,
    Fingerprint, Ops,
};
use crate::kernel;
use crate::kernel::{convolve_wrap_5x5, flatten_columns_sum, make_kernel};
use crate::matrix;
use crate::model::{BiasCfg, BiasEstimate, BiasKernel, KernelTarget};
use crate::number;
use crate::number::{Real, THOUSANDTH};
use crate::numeric::{Meaning, Numerics, Place, Term};
use crate::spectrum;
use crate::spectrum::{frequency_weights, hann_periodic, log_column, Bin};
use crate::stats;
use crate::stats::{
    estimate_from_convolution, fingerprint_times_ms, mean, part_of, stdev_population, ConvStats,
};
use crate::trace;
use crate::trace::{
    beat_trace, build_plot_data, trace_setup, BiasEstimateWithPlot, BiasPlotData, BiasResult,
    BiasTrace, BiasTraceBeat, BiasTraceCfg, TraceCollector,
};
use vstd::prelude::*;

verus! {

/// A fingerprint, the matrix that the kernel made of one of its two parts, and
/// the sum of each column of that matrix.
pub struct Convolved<T> {
    pub fingerprint: Fingerprint<T>,
    pub rows: usize,
    pub post: Vec<T>,
    pub flat: Vec<T>,
}

/// The part of a fingerprint that the kernel is run over.
pub open spec fn targeted<T>(target: KernelTarget, fp: Fingerprint<T>) -> Seq<T> {
    if target == KernelTarget::Accumulator {
        fp.acc@
    } else {
        fp.digest@
    }
}

/// How many rows that part has.
pub open spec fn targeted_rows<T>(target: KernelTarget, setup: Setup, fp: Fingerprint<T>) -> int {
    if target == KernelTarget::Accumulator {
        setup.n_freq_taps as int
    } else {
        fp.taken.len() as int
    }
}

impl<T> Convolved<T> {
    /// Whether the matrix and the curve come of the fingerprint.
    pub open spec fn follows(
        self,
        ops: Ops<T>,
        setup: Setup,
        target: KernelTarget,
        taps: Seq<T>,
    ) -> bool {
        let rows = targeted_rows(target, setup, self.fingerprint);
        let cols = setup.fp_size as int;
        &&& kernel::convolves(
            ops,
            targeted(target, self.fingerprint),
            taps,
            self.post@,
            rows,
            cols,
            rows,
            0,
        )
        &&& kernel::totals(ops, self.post@, cols, rows as nat, self.flat@)
    }
}

proof fn lemma_taken_count(audio_len: usize, setup: Setup, windows: Seq<BeatWindow>)
    ensures
        fingerprint::windows_taken(audio_len, setup, windows).len() <= windows.len(),
    decreases windows.len(),
{
    if windows.len() > 0 {
        lemma_taken_count(audio_len, setup, windows.drop_last());
    }
}

/// Takes the fingerprint of the windows and convolves it. The spectrogram of the
/// whole audio is taken only where it is asked for and pays.
pub fn convolve_fingerprint<
    T: Copy,
    P: Fn(T, T) -> T,
    M: Fn(T, T) -> T,
    F: Fn(usize) -> Vec<T>,
>(
    arith: &Arith<T, P, M>,
    audio_len: usize,
    setup: &Setup,
    full_spectrogram: bool,
    target: KernelTarget,
    windows: &Vec<BeatWindow>,
    weights: &Vec<T>,
    column: &F,
    taps: &[T; 25],
) -> (out: Result<Convolved<T>, String>)
    requires
        arith.ready(),
        setup.wf(),
        setup.nperseg <= isize::MAX,
        setup.fp_size < isize::MAX - 2,
        setup.n_freq_taps * setup.fp_size <= usize::MAX,
        windows.len() < isize::MAX - 2,
        weights.len() == setup.n_freq_taps,
        fingerprint::gives_columns(*column, audio_len, setup.nperseg, setup.n_freq_taps),
    ensures
        windows.len() == 0 ==> out is Err && out->Err_0@
            == "no beat windows produced for bias calculation"@,
        windows.len() > 0 ==> match out {
            Ok(v) => {
                &&& fingerprint::fingerprinted(
                    Ok(v.fingerprint),
                    *arith,
                    audio_len,
                    *setup,
                    windows@,
                    weights@,
                    *column,
                )
                &&& v.rows == targeted_rows(target, *setup, v.fingerprint)
                &&& v.post.len() == v.rows * setup.fp_size
                &&& v.flat.len() == setup.fp_size
                &&& forall|ops: Ops<T>| #[trigger]
                    arith.follows(ops) ==> v.follows(ops, *setup, target, taps@)
            },
            Err(e) => fingerprint::fingerprinted(
                Err::<Fingerprint<T>, String>(e),
                *arith,
                audio_len,
                *setup,
                windows@,
                weights@,
                *column,
            ),
        },
{
    if windows.len() == 0 {
        return Err("no beat windows produced for bias calculation".to_owned());
    }
    let full: bool = full_spectrogram && should_use_full_spectrogram(
        audio_len,
        setup,
        windows.len(),
    );
    let built: Result<Fingerprint<T>, String> = if full {
        build_fingerprints_full(arith, audio_len, setup, windows, weights, column)
    } else {
        build_fingerprints_legacy(arith, audio_len, setup, windows, weights, column)
    };
    let fp: Fingerprint<T> = match built {
        Ok(fp) => fp,
        Err(e) => {
            return Err(e);
        },
    };
    proof {
        lemma_taken_count(audio_len, *setup, windows@);
    }
    let cols: usize = setup.fp_size;
    let rows: usize = if target == KernelTarget::Accumulator {
        setup.n_freq_taps
    } else {
        fp.taken.len()
    };
    let post: Vec<T> = if target == KernelTarget::Accumulator {
        convolve_wrap_5x5(arith, &fp.acc, rows, cols, taps)
    } else {
        convolve_wrap_5x5(arith, &fp.digest, rows, cols, taps)
    };
    let flat: Vec<T> = flatten_columns_sum(arith, &post, rows, cols);
    Ok(Convolved { fingerprint: fp, rows, post, flat })
}

// ---------------------------------------------------------------------------
// From the curve to the estimate
// ---------------------------------------------------------------------------

/// How the cells of the matrices are computed with.
pub open spec fn cell_ops(m: Meaning) -> Ops<Real> {
    Ops {
        zero: number::zero(),
        sum: |a: Real, b: Real| m.plus(a, b),
        product: |a: Real, b: Real| m.times(a, b),
    }
}

/// The numbers of a kernel.
pub open spec fn taps_of(m: Meaning, kind: BiasKernel) -> Seq<Real> {
    Seq::new(25, |k: int| m.whole(kernel::kernel_row(kind)[k % 5]))
}

fn kernel_taps<C: Fn(Term) -> Real, L: Fn(u32, usize) -> Place>(
    num: &Numerics<C, L>,
    kind: BiasKernel,
) -> (taps: [Real; 25])
    requires
        num.ready(),
    ensures
        forall|m: Meaning| #[trigger] num.follows(m) ==> taps@ == taps_of(m, kind),
{
    let kernel: [i32; 25] = make_kernel(kind);
    let mut taps: [Real; 25] = [Real { bits: 0 };25];
    let mut k: usize = 0;
    while k < 25
        invariant
            k <= 25,
            num.ready(),
            forall|i: int|
                0 <= i < 25 ==> #[trigger] kernel@[i] == kernel::kernel_row(kind)[i % 5],
            forall|m: Meaning, i: int|
                #![trigger num.follows(m), taps@[i]]
                num.follows(m) && 0 <= i < k ==> taps@[i] == m.whole(
                    kernel::kernel_row(kind)[i % 5],
                ),
        decreases 25 - k,
    {
        taps[k] = num.value(Term::Whole(kernel[k] as i128));
        k += 1;
    }
    assert forall|m: Meaning| #[trigger] num.follows(m) implies taps@ == taps_of(m, kind) by {
        assert(taps@ =~= taps_of(m, kind));
    }
    taps
}

/// What an estimate is made of.
pub struct BiasInput<'a> {
    pub audio_len: usize,
    pub sample_rate_hz: u32,
    pub cfg: BiasCfg,
    pub setup: Setup,
    /// What the scan of the beats found.
    pub found: &'a BeatWindows,
}

impl<'a> BiasInput<'a> {
    pub open spec fn wf(self) -> bool {
        &&& self.setup.wf()
        &&& self.audio_len <= isize::MAX
        &&& self.setup.nperseg <= isize::MAX
        &&& self.setup.fp_size < isize::MAX - 2
        &&& self.setup.n_freq_taps * self.setup.fp_size <= usize::MAX
        &&& self.found.windows.len() < isize::MAX - 2
    }

    /// The windows whose samples all lie in the audio.
    pub open spec fn taken(self) -> Seq<BeatWindow> {
        fingerprint::windows_taken(self.audio_len, self.setup, self.found.windows@)
    }

    /// Whether another input says the same of the audio, the settings and the windows.
    pub open spec fn agrees(self, other: BiasInput) -> bool {
        &&& self.audio_len == other.audio_len
        &&& self.sample_rate_hz == other.sample_rate_hz
        &&& self.cfg == other.cfg
        &&& self.setup == other.setup
        &&& self.found.windows@ == other.found.windows@
    }

    /// Why no estimate can be made, if none can.
    pub open spec fn fault(self) -> Option<Seq<char>> {
        if self.found.windows.len() == 0 {
            Some("no beat windows produced for bias calculation"@)
        } else if self.taken().len() == 0 {
            Some("no valid beat snippets for spectrogram digest"@)
        } else {
            None
        }
    }

    /// Whether the fingerprint sums up the audio that has this spectrum.
    pub open spec fn sums_up(
        self,
        m: Meaning,
        spectrum: spec_fn(int) -> Seq<Real>,
        c: Convolved<Real>,
    ) -> bool {
        c.fingerprint.sums_up(
            cell_ops(m),
            spectrum,
            self.setup,
            spectrum::weights_of(
                m,
                self.sample_rate_hz,
                self.setup.nperseg,
                self.setup.n_freq_taps as nat,
            ),
        )
    }

    /// Whether the curve comes of the fingerprint of the windows.
    pub open spec fn curves(self, m: Meaning, c: Convolved<Real>) -> bool {
        &&& c.fingerprint.taken@ == self.taken()
        &&& c.fingerprint.acc.len() == self.setup.n_freq_taps * self.setup.fp_size
        &&& c.fingerprint.digest.len() == c.fingerprint.taken.len() * self.setup.fp_size
        &&& c.rows == targeted_rows(self.cfg.kernel_target, self.setup, c.fingerprint)
        &&& c.post.len() == c.rows * self.setup.fp_size
        &&& c.flat.len() == self.setup.fp_size
        &&& c.follows(
            cell_ops(m),
            self.setup,
            self.cfg.kernel_target,
            taps_of(m, self.cfg.kernel_type),
        )
    }
}

// ---------------------------------------------------------------------------
// Traces
// ---------------------------------------------------------------------------

/// A row of a matrix.
pub open spec fn row_of(matrix: Seq<Real>, cols: int, k: int) -> Seq<Real> {
    matrix.subrange(k * cols, (k + 1) * cols)
}

/// Whether a trace says this of the beats whose windows were taken.
pub open spec fn beats_told(
    m: Meaning,
    setup: Setup,
    fp: Fingerprint<Real>,
    beats: Seq<BiasTraceBeat>,
) -> bool {
    let cols = setup.fp_size as int;
    &&& beats.len() == fp.taken.len()
    &&& forall|k: int|
        0 <= k < beats.len() ==> trace::beat_told(
            fp.taken@[k],
            row_of(fp.digest@, cols, k),
            stats::mean_of(m, row_of(fp.digest@, cols, k)),
            stats::deviation_of(m, row_of(fp.digest@, cols, k)),
            stats::times_of(m, cols, setup.actual_step_sec),
            #[trigger] beats[k],
        )
}

/// The first and the last of the beats whose windows were taken, as a trace tells
/// of them.
fn collect_beats<C: Fn(Term) -> Real, L: Fn(u32, usize) -> Place>(
    num: &Numerics<C, L>,
    setup: &Setup,
    fp: &Fingerprint<Real>,
    cfg: BiasTraceCfg,
) -> (out: TraceCollector<BiasTraceBeat>)
    requires
        num.ready(),
        setup.fp_size <= isize::MAX,
        fp.digest.len() == fp.taken.len() * setup.fp_size,
    ensures
        out.keep == (if cfg.keep == 0 {
            1
        } else {
            cfg.keep
        }),
        exists|beats: Seq<BiasTraceBeat>|
            #![trigger out.collected(beats)]
            out.collected(beats) && forall|m: Meaning| #[trigger]
                num.follows(m) ==> beats_told(m, *setup, *fp, beats),
{
    let cols: usize = setup.fp_size;
    let times: Vec<Real> = fingerprint_times_ms(num, cols, setup.actual_step_sec);
    let mut out: TraceCollector<BiasTraceBeat> = TraceCollector::new(cfg);
    let ghost mut beats: Seq<BiasTraceBeat> = Seq::empty();
    let mut from: usize = 0;
    let mut k: usize = 0;
    while k < fp.taken.len()
        invariant
            k <= fp.taken.len(),
            from == k * cols,
            cols == setup.fp_size,
            num.ready(),
            fp.digest.len() == fp.taken.len() * cols,
            out.keep == (if cfg.keep == 0 {
                1
            } else {
                cfg.keep
            }),
            out.collected(beats),
            beats.len() == k,
            forall|m: Meaning| #[trigger]
                num.follows(m) ==> times@ == stats::times_of(
                    m,
                    cols as int,
                    setup.actual_step_sec,
                ),
            forall|m: Meaning, i: int|
                #![trigger num.follows(m), beats[i]]
                num.follows(m) && 0 <= i < k ==> trace::beat_told(
                    fp.taken@[i],
                    row_of(fp.digest@, cols as int, i),
                    stats::mean_of(m, row_of(fp.digest@, cols as int, i)),
                    stats::deviation_of(m, row_of(fp.digest@, cols as int, i)),
                    times@,
                    beats[i],
                ),
        decreases fp.taken.len() - k,
    {
        proof {
            matrix::lemma_row(fp.taken.len() as int, cols as int, k as int);
        }
        let row: Vec<Real> = part_of(&fp.digest, from, from + cols);
        let row_mean: Real = mean(num, &row);
        let row_std: Real = stdev_population(num, &row);
        let beat: BiasTraceBeat = beat_trace(&fp.taken[k], &row, row_mean, row_std, &times);
        out.push_beat(beat);
        proof {
            beats = beats.push(beat);
        }
        from = from + cols;
        k += 1;
    }
    out
}

/// Whether a trace tells of an estimate.
pub open spec fn traced(
    m: Meaning,
    input: BiasInput,
    c: Convolved<Real>,
    s: ConvStats,
    cfg: BiasTraceCfg,
    t: BiasTrace,
) -> bool {
    let keep = if cfg.keep == 0 {
        1int
    } else {
        cfg.keep as int
    };
    &&& t.setup == trace::setup_told(
        input.sample_rate_hz,
        input.audio_len,
        input.setup,
        m.times(input.cfg.fingerprint_ms, Real { bits: THOUSANDTH }),
    )
    &&& t.skip_counts == input.found.skips
    &&& t.loop_stats == input.found.told()
    &&& exists|beats: Seq<BiasTraceBeat>|
        {
            &&& #[trigger] beats_told(m, input.setup, c.fingerprint, beats)
            &&& t.beat_head@ == trace::first_of(beats, keep)
            &&& t.beat_tail@ == trace::last_of(beats, keep)
        }
    &&& t.convolution == s.convolution
    &&& t.result == s.result
}

/// The frequencies of the rows, in kilohertz.
pub open spec fn freqs_of(m: Meaning, sample_rate_hz: u32, setup: Setup) -> Seq<Real> {
    let hz_step = m.over(m.whole(sample_rate_hz as int), m.whole(setup.nperseg as int));
    Seq::new(
        setup.n_freq_taps as nat,
        |i: int| m.times(m.times(m.whole(i), hz_step), Real { bits: THOUSANDTH }),
    )
}

/// Whether this is what can be plotted of an estimate.
pub open spec fn plotted(
    m: Meaning,
    input: BiasInput,
    c: Convolved<Real>,
    s: ConvStats,
    plot: BiasPlotData,
) -> bool {
    &&& plot.wf()
    &&& plot.freq_rows == input.setup.n_freq_taps
    &&& plot.digest_rows == c.fingerprint.taken.len()
    &&& plot.cols == input.setup.fp_size
    &&& plot.post_target == input.cfg.kernel_target
    &&& plot.freq_domain@ == c.fingerprint.acc@
    &&& plot.beat_digest@ == c.fingerprint.digest@
    &&& plot.post_kernel@ == c.post@
    &&& plot.convolution@ == c.flat@
    &&& plot.times_ms@ == stats::times_of(
        m,
        input.setup.fp_size as int,
        input.setup.actual_step_sec,
    )
    &&& plot.freqs_khz@ == freqs_of(m, input.sample_rate_hz, input.setup)
    &&& plot.beat_indices@ == Seq::new(c.fingerprint.taken@.len(), |i: int| m.whole(i))
    &&& plot.bias_ms == s.estimate.bias_ms
    &&& plot.edge_discard == 2
}

fn counts<C: Fn(Term) -> Real, L: Fn(u32, usize) -> Place>(num: &Numerics<C, L>, n: usize) -> (out:
    Vec<Real>)
    requires
        num.ready(),
    ensures
        out.len() == n,
        forall|m: Meaning| #[trigger]
            num.follows(m) ==> out@ == Seq::new(n as nat, |i: int| m.whole(i)),
{
    let mut out: Vec<Real> = Vec::new();
    let mut i: usize = 0;
    while i < n
        invariant
            i <= n,
            num.ready(),
            out.len() == i,
            forall|m: Meaning, k: int|
                #![trigger num.follows(m), out@[k]]
                num.follows(m) && 0 <= k < i ==> out@[k] == m.whole(k),
        decreases n - i,
    {
        out.push(num.count(i));
        i += 1;
    }
    assert forall|m: Meaning| #[trigger] num.follows(m) implies out@ == Seq::new(
        n as nat,
        |i: int| m.whole(i),
    ) by {
        assert(out@ =~= Seq::new(n as nat, |i: int| m.whole(i)));
    }
    out
}

fn frequencies<C: Fn(Term) -> Real, L: Fn(u32, usize) -> Place>(
    num: &Numerics<C, L>,
    sample_rate_hz: u32,
    setup: &Setup,
) -> (out: Vec<Real>)
    requires
        num.ready(),
    ensures
        out.len() == setup.n_freq_taps,
        forall|m: Meaning| #[trigger]
            num.follows(m) ==> out@ == freqs_of(m, sample_rate_hz, *setup),
{
    let hz_step: Real = num.over(
        num.value(Term::Whole(sample_rate_hz as i128)),
        num.count(setup.nperseg),
    );
    let mut out: Vec<Real> = Vec::new();
    let mut i: usize = 0;
    while i < setup.n_freq_taps
        invariant
            i <= setup.n_freq_taps,
            num.ready(),
            out.len() == i,
            forall|m: Meaning, k: int|
                #![trigger num.follows(m), out@[k]]
                num.follows(m) && 0 <= k < i ==> out@[k] == m.times(
                    m.times(m.whole(k), hz_step),
                    Real { bits: THOUSANDTH },
                ),
        decreases setup.n_freq_taps - i,
    {
        out.push(num.times(num.times(num.count(i), hz_step), Real { bits: THOUSANDTH }));
        i += 1;
    }
    assert forall|m: Meaning| #[trigger] num.follows(m) implies out@ == freqs_of(
        m,
        sample_rate_hz,
        *setup,
    ) by {
        assert(out@ =~= freqs_of(m, sample_rate_hz, *setup));
    }
    out
}

// ---------------------------------------------------------------------------
// The estimate
// ---------------------------------------------------------------------------

/// Whether this is what comes of an input, by way of the curve `c` and of what is
/// read from it: with a trace where one is asked for, else with what can be plotted
/// where that is asked for.
pub open spec fn results(
    m: Meaning,
    input: BiasInput,
    trace_cfg: Option<BiasTraceCfg>,
    want_plot: bool,
    c: Convolved<Real>,
    s: ConvStats,
    out: BiasResult,
) -> bool {
    &&& input.curves(m, c)
    &&& s.reads(m, c.flat@, input.setup.actual_step_sec, input.cfg.magic_offset_ms)
    &&& out.estimate() == s.estimate
    &&& match trace_cfg {
        Some(cfg) => out matches BiasResult::WithTrace(_, t) && traced(m, input, c, s, cfg, t),
        None => if want_plot {
            out matches BiasResult::WithPlot(v) && plotted(m, input, c, s, v.plot)
        } else {
            out is Estimate
        },
    }
}

/// Estimates the bias from the windows that a scan of the beats found. `column`
/// hands out the spectrum from a sample on.
pub fn estimate_bias_with_setup<
    C: Fn(Term) -> Real,
    L: Fn(u32, usize) -> Place,
    F: Fn(usize) -> Vec<Real>,
>(
    num: &Numerics<C, L>,
    input: &BiasInput,
    column: &F,
    trace_cfg: Option<BiasTraceCfg>,
    want_plot: bool,
) -> (out: Result<BiasResult, String>)
    requires
        num.ready(),
        input.wf(),
        fingerprint::gives_columns(
            *column,
            input.audio_len,
            input.setup.nperseg,
            input.setup.n_freq_taps,
        ),
    ensures
        match out {
            Err(e) => input.fault() == Some(e@),
            Ok(r) => input.fault() is None && exists|c: Convolved<Real>, s: ConvStats|
                #![trigger c.flat, s.result]
                forall|m: Meaning| #[trigger]
                    num.follows(m) ==> {
                        &&& results(m, *input, trace_cfg, want_plot, c, s, r)
                        &&& forall|spectrum: spec_fn(int) -> Seq<Real>| #[trigger]
                            fingerprint::tells(*column, spectrum) ==> input.sums_up(
                                m,
                                spectrum,
                                c,
                            )
                    },
        },
{
    let plus = |a: Real, b: Real| -> (r: Real)
        ensures
            call_ensures(num.calc, (Term::Plus(a, b),), r),
        { (num.calc)(Term::Plus(a, b)) };
    let times = |a: Real, b: Real| -> (r: Real)
        ensures
            call_ensures(num.calc, (Term::Times(a, b),), r),
        { (num.calc)(Term::Times(a, b)) };
    let arith = Arith { zero: Real { bits: 0 }, plus, times };
    assert forall|m: Meaning| #[trigger] num.follows(m) implies arith.follows(cell_ops(m)) by {}
    let setup: &Setup = &input.setup;
    let cfg: &BiasCfg = &input.cfg;
    let taps: [Real; 25] = kernel_taps(num, cfg.kernel_type);
    let weights: Vec<Real> = frequency_weights(
        num,
        input.sample_rate_hz,
        setup.nperseg,
        setup.n_freq_taps,
    );
    let c: Convolved<Real> = match convolve_fingerprint(
        &arith,
        input.audio_len,
        setup,
        cfg.full_spectrogram,
        cfg.kernel_target,
        &input.found.windows,
        &weights,
        column,
        &taps,
    ) {
        Ok(c) => c,
        Err(e) => {
            return Err(e);
        },
    };
    let s: ConvStats = match estimate_from_convolution(
        num,
        &c.flat,
        setup.actual_step_sec,
        cfg.magic_offset_ms,
    ) {
        Ok(s) => s,
        Err(e) => {
            return Err(e);
        },
    };
    let ghost c0 = c;
    let ghost s0 = s;
    let estimate: BiasEstimate = s.estimate;
    let out: BiasResult = match trace_cfg {
        Some(trace_cfg) => {
            let told: TraceCollector<BiasTraceBeat> = collect_beats(
                num,
                setup,
                &c.fingerprint,
                trace_cfg,
            );
            let min_sep_sec: Real = num.times(cfg.fingerprint_ms, Real { bits: THOUSANDTH });
            let t: BiasTrace = BiasTrace {
                setup: trace_setup(input.sample_rate_hz, input.audio_len, setup, min_sep_sec),
                skip_counts: input.found.skips,
                loop_stats: input.found.loop_stats(),
                beat_head: told.beat_head,
                beat_tail: told.beat_tail,
                convolution: s.convolution,
                result: s.result,
            };
            assert forall|m: Meaning| #[trigger] num.follows(m) implies traced(
                m,
                *input,
                c0,
                s0,
                trace_cfg,
                t,
            ) by {
                let beats = choose|beats: Seq<BiasTraceBeat>|
                    #![trigger told.collected(beats)]
                    told.collected(beats) && forall|m: Meaning| #[trigger]
                        num.follows(m) ==> beats_told(m, *setup, c0.fingerprint, beats);
                assert(told.collected(beats));
                assert(beats_told(m, *setup, c0.fingerprint, beats));
            }
            BiasResult::WithTrace(estimate, t)
        },
        None => if want_plot {
            let beats: usize = c.fingerprint.taken.len();
            proof {
                lemma_taken_count(input.audio_len, *setup, input.found.windows@);
            }
            let times: Vec<Real> = fingerprint_times_ms(
                num,
                setup.fp_size,
                setup.actual_step_sec,
            );
            let plot: BiasPlotData = build_plot_data(
                setup,
                cfg.kernel_target,
                c.fingerprint.acc,
                c.fingerprint.digest,
                beats,
                c.post,
                c.flat,
                times,
                frequencies(num, input.sample_rate_hz, setup),
                counts(num, beats),
                estimate.bias_ms,
            );
            BiasResult::WithPlot(BiasEstimateWithPlot { estimate, plot })
        } else {
            BiasResult::Estimate(estimate)
        },
    };
    assert forall|m: Meaning| #[trigger] num.follows(m) implies {
        &&& results(m, *input, trace_cfg, want_plot, c0, s0, out)
        &&& forall|spectrum: spec_fn(int) -> Seq<Real>| #[trigger]
            fingerprint::tells(*column, spectrum) ==> input.sums_up(m, spectrum, c0)
    } by {
        assert(arith.follows(cell_ops(m)));
    }
    assert(c0.flat == c0.flat && s0.result == s0.result);
    Ok(out)
}

// ---------------------------------------------------------------------------
// From audio to the estimate
// ---------------------------------------------------------------------------

/// Whether `t` says what a transform makes of numbers in a setup.
pub open spec fn transforms_in<T: Fn(&Setup, Vec<Real>) -> Vec<Bin>>(
    transform: T,
    setup: Setup,
    t: spec_fn(Seq<Real>) -> Seq<Bin>,
) -> bool {
    forall|input: Vec<Real>, bins: Vec<Bin>| #[trigger]
        call_ensures(transform, (&setup, input), bins) ==> bins@ == t(input@)
}

/// Whether a transform takes as many numbers as a window of a setup has, and tells of as
/// many frequencies as it looks at.
pub open spec fn serves<T: Fn(&Setup, Vec<Real>) -> Vec<Bin>>(transform: T, setup: Setup) -> bool {
    &&& forall|input: Vec<Real>|
        input.len() == setup.nperseg ==> #[trigger] call_requires(transform, (&setup, input))
    &&& forall|input: Vec<Real>, bins: Vec<Bin>| #[trigger]
        call_ensures(transform, (&setup, input), bins) && input.len() == setup.nperseg
            ==> bins.len() >= setup.n_freq_taps
}

/// How some audio is looked at: its spectrum is taken with a window of the setup's
/// length, and beats are looked for in it.
pub struct BiasJob<'a> {
    pub audio: &'a Vec<Real>,
    pub sample_rate_hz: u32,
    pub cfg: BiasCfg,
    pub setup: Setup,
    pub window: &'a Vec<Real>,
}

impl<'a> BiasJob<'a> {
    pub open spec fn wf(self) -> bool {
        &&& self.setup.wf()
        &&& self.audio.len() <= isize::MAX
        &&& self.setup.nperseg <= isize::MAX
        &&& self.setup.fp_size < isize::MAX - 2
        &&& self.setup.n_freq_taps * self.setup.fp_size <= usize::MAX
        &&& self.window.len() == self.setup.nperseg
    }

    /// The input that a scan of the beats leads to.
    pub open spec fn input(self, found: &BeatWindows) -> BiasInput {
        BiasInput {
            audio_len: self.audio.len(),
            sample_rate_hz: self.sample_rate_hz,
            cfg: self.cfg,
            setup: self.setup,
            found,
        }
    }

    /// The spectrum of the audio.
    pub open spec fn spectrum(self, m: Meaning, t: spec_fn(Seq<Real>) -> Seq<Bin>) -> spec_fn(
        int,
    ) -> Seq<Real> {
        |base: int|
            spectrum::column_of(
                m,
                t,
                self.audio@,
                self.window@,
                self.setup.n_freq_taps as nat,
                base,
            )
    }

    /// Whether a result comes of the audio by way of the curve `c` and of what is read
    /// from it.
    pub open spec fn comes_by<
        C: Fn(Term) -> Real,
        L: Fn(u32, usize) -> Place,
        T: Fn(&Setup, Vec<Real>) -> Vec<Bin>,
    >(
        self,
        num: Numerics<C, L>,
        transform: T,
        input: BiasInput,
        trace_cfg: Option<BiasTraceCfg>,
        want_plot: bool,
        c: Convolved<Real>,
        s: ConvStats,
        r: BiasResult,
    ) -> bool {
        &&& forall|m: Meaning| #[trigger]
            num.follows(m) ==> results(m, input, trace_cfg, want_plot, c, s, r)
        &&& forall|m: Meaning, t: spec_fn(Seq<Real>) -> Seq<Bin>| #[trigger]
            num.follows(m) && #[trigger] transforms_in(transform, self.setup, t) ==> input.sums_up(
                m,
                self.spectrum(m, t),
                c,
            )
    }

    /// Whether this comes of the audio, once a scan has found these windows.
    pub open spec fn leads_to<
        C: Fn(Term) -> Real,
        L: Fn(u32, usize) -> Place,
        T: Fn(&Setup, Vec<Real>) -> Vec<Bin>,
    >(
        self,
        num: Numerics<C, L>,
        transform: T,
        found: &BeatWindows,
        trace_cfg: Option<BiasTraceCfg>,
        want_plot: bool,
        out: Result<BiasResult, String>,
    ) -> bool {
        let input = self.input(found);
        match out {
            Err(e) => input.fault() == Some(e@),
            Ok(r) => input.fault() is None && exists|c: Convolved<Real>, s: ConvStats| #[trigger]
                self.comes_by(num, transform, input, trace_cfg, want_plot, c, s, r),
        }
    }
}

proof fn lemma_few_windows<
    C: Fn(Term) -> Real,
    L: Fn(u32, usize) -> Place,
    R: Fn(Real) -> isize,
    F: Fn(usize) -> Real,
>(num: Numerics<C, L>, nearest: R, setup: Setup, beat_time: F, scan: BeatScan)
    requires
        beats::scanned_beats(num, nearest, setup, beat_time, scan),
    ensures
        scan.found.windows.len() <= beats::BEAT_LIMIT,
{
    let readings = choose|readings: Seq<BeatReading>| #[trigger]
        beats::scan_runs(scan.limits, readings) && scan@ == beats::scan_of(scan.limits, readings);
    beats::every_beat_is_accounted_for(scan.limits, readings);
    assert(scan@.windows == scan.found.windows@);
}

/// Whether this comes of a job, with beats at the times that `beat_time` tells.
pub open spec fn job_done<
    C: Fn(Term) -> Real,
    L: Fn(u32, usize) -> Place,
    R: Fn(Real) -> isize,
    T: Fn(&Setup, Vec<Real>) -> Vec<Bin>,
    F: Fn(usize) -> Real,
>(
    num: Numerics<C, L>,
    nearest: R,
    transform: T,
    job: BiasJob,
    trace_cfg: Option<BiasTraceCfg>,
    want_plot: bool,
    beat_time: F,
    out: Result<BiasResult, String>,
) -> bool {
    exists|scan: BeatScan|
        {
            &&& #[trigger] beats::scanned_beats(num, nearest, job.setup, beat_time, scan)
            &&& scan.done
            &&& forall|m: Meaning| #[trigger]
                num.follows(m) ==> scan.limits == beats::limits_of(
                    m,
                    job.audio.len(),
                    job.sample_rate_hz,
                    job.cfg.fingerprint_ms,
                    job.setup,
                )
            &&& job.leads_to(num, transform, &scan.found, trace_cfg, want_plot, out)
        }
}

fn do_job<
    C: Fn(Term) -> Real,
    L: Fn(u32, usize) -> Place,
    R: Fn(Real) -> isize,
    T: Fn(&Setup, Vec<Real>) -> Vec<Bin>,
    F: Fn(usize) -> Real,
>(
    num: &Numerics<C, L>,
    nearest: &R,
    transform: &T,
    job: &BiasJob,
    trace_cfg: Option<BiasTraceCfg>,
    want_plot: bool,
    beat_time: &F,
) -> (out: Result<BiasResult, String>)
    requires
        num.ready(),
        forall|v: Real| #[trigger] call_requires(nearest, (v,)),
        forall|beat: usize| #[trigger] call_requires(beat_time, (beat,)),
        job.wf(),
        serves(*transform, job.setup),
    ensures
        job_done(*num, *nearest, *transform, *job, trace_cfg, want_plot, *beat_time, out),
{
    let setup: &Setup = &job.setup;
    let audio: &Vec<Real> = job.audio;
    let window: &Vec<Real> = job.window;
    let rows: usize = setup.n_freq_taps;
    let scan: BeatScan = scan_beats(
        num,
        nearest,
        audio.len(),
        job.sample_rate_hz,
        job.cfg.fingerprint_ms,
        setup,
        beat_time,
    );
    proof {
        lemma_few_windows(*num, *nearest, job.setup, *beat_time, scan);
    }
    let input = BiasInput {
        audio_len: audio.len(),
        sample_rate_hz: job.sample_rate_hz,
        cfg: job.cfg,
        setup: job.setup,
        found: &scan.found,
    };
    let own = |input: Vec<Real>| -> (bins: Vec<Bin>)
        requires
            input.len() == setup.nperseg,
        ensures
            call_ensures(*transform, (setup, input), bins),
        { transform(setup, input) };
    let column = |base: usize| -> (v: Vec<Real>)
        requires
            base + window.len() <= audio.len(),
        ensures
            v.len() == rows,
            forall|m: Meaning, t: spec_fn(Seq<Real>) -> Seq<Bin>| #[trigger]
                num.follows(m) && #[trigger] transforms_in(*transform, *setup, t) ==> v@
                    == spectrum::column_of(m, t, audio@, window@, rows as nat, base as int),
        {
            let v: Vec<Real> = log_column(num, &own, audio, window, rows, base);
            assert forall|m: Meaning, t: spec_fn(Seq<Real>) -> Seq<Bin>| #[trigger]
                num.follows(m) && #[trigger] transforms_in(*transform, *setup, t) implies v@
                == spectrum::column_of(m, t, audio@, window@, rows as nat, base as int) by {
                assert(spectrum::transforms_as(own, t));
            }
            v
        };
    let out: Result<BiasResult, String> = estimate_bias_with_setup(
        num,
        &input,
        &column,
        trace_cfg,
        want_plot,
    );
    proof {
        assert(input == job.input(&scan.found));
        if out is Ok {
            let r = out->Ok_0;
            let (c, s) = choose|c: Convolved<Real>, s: ConvStats|
                #![trigger c.flat, s.result]
                forall|m: Meaning| #[trigger]
                    num.follows(m) ==> {
                        &&& results(m, input, trace_cfg, want_plot, c, s, r)
                        &&& forall|spectrum: spec_fn(int) -> Seq<Real>| #[trigger]
                            fingerprint::tells(column, spectrum) ==> input.sums_up(
                                m,
                                spectrum,
                                c,
                            )
                    };
            assert forall|m: Meaning, t: spec_fn(Seq<Real>) -> Seq<Bin>| #[trigger]
                num.follows(m) && #[trigger] transforms_in(
                *transform,
                *setup,
                t,
            ) implies input.sums_up(m, job.spectrum(m, t), c) by {
                assert(fingerprint::tells(column, job.spectrum(m, t)));
            }
            assert(job.comes_by(*num, *transform, input, trace_cfg, want_plot, c, s, r));
        }
        assert(job.leads_to(*num, *transform, &scan.found, trace_cfg, want_plot, out));
        assert(beats::scanned_beats(*num, *nearest, job.setup, *beat_time, scan));
    }
    out
}

/// Whether a setup can be worked with: its fingerprint has no more cells than a machine
/// word can count.
pub open spec fn manageable(setup: Setup) -> bool {
    &&& setup.fp_size < isize::MAX - 2
    &&& setup.n_freq_taps * setup.fp_size <= usize::MAX
}

/// Whether this comes of some audio. Nothing comes of it where the fingerprint would have
/// a negative length or more cells than can be counted.
pub open spec fn estimated<
    C: Fn(Term) -> Real,
    L: Fn(u32, usize) -> Place,
    W: Fn(Real) -> usize,
    R: Fn(Real) -> isize,
    T: Fn(&Setup, Vec<Real>) -> Vec<Bin>,
    F: Fn(usize) -> Real,
>(
    num: Numerics<C, L>,
    floor: W,
    nearest: R,
    transform: T,
    audio: &Vec<Real>,
    sample_rate_hz: u32,
    cfg: BiasCfg,
    trace_cfg: Option<BiasTraceCfg>,
    want_plot: bool,
    beat_time: F,
    out: Option<Result<BiasResult, String>>,
) -> bool {
    exists|measures: Result<Measures, String>| #[trigger]
        beats::measured(num, floor, nearest, audio.len(), sample_rate_hz, cfg, measures)
            && comes_of(
            num,
            nearest,
            transform,
            audio,
            sample_rate_hz,
            cfg,
            measures,
            trace_cfg,
            want_plot,
            beat_time,
            out,
        )
}

/// Whether this comes of some audio of which this was measured.
pub open spec fn comes_of<
    C: Fn(Term) -> Real,
    L: Fn(u32, usize) -> Place,
    R: Fn(Real) -> isize,
    T: Fn(&Setup, Vec<Real>) -> Vec<Bin>,
    F: Fn(usize) -> Real,
>(
    num: Numerics<C, L>,
    nearest: R,
    transform: T,
    audio: &Vec<Real>,
    sample_rate_hz: u32,
    cfg: BiasCfg,
    measures: Result<Measures, String>,
    trace_cfg: Option<BiasTraceCfg>,
    want_plot: bool,
    beat_time: F,
    out: Option<Result<BiasResult, String>>,
) -> bool {
    match measures {
        Err(e) => out matches Some(Err(why)) && why@ == e@,
        Ok(found) => {
            let setup = beats::setup_of(audio.len(), found);
            if found.half < 0 {
                out is None
            } else if found.half < 4 {
                out matches Some(Err(why)) && why@ == "fingerprint size is too small"@
            } else if !manageable(setup) {
                out is None
            } else {
                out is Some && window_serves(
                    num,
                    nearest,
                    transform,
                    audio,
                    sample_rate_hz,
                    cfg,
                    setup,
                    trace_cfg,
                    want_plot,
                    beat_time,
                    out->Some_0,
                )
            }
        },
    }
}

/// Whether this comes of some audio in a setup, with the window that belongs to it.
pub open spec fn window_serves<
    C: Fn(Term) -> Real,
    L: Fn(u32, usize) -> Place,
    R: Fn(Real) -> isize,
    T: Fn(&Setup, Vec<Real>) -> Vec<Bin>,
    F: Fn(usize) -> Real,
>(
    num: Numerics<C, L>,
    nearest: R,
    transform: T,
    audio: &Vec<Real>,
    sample_rate_hz: u32,
    cfg: BiasCfg,
    setup: Setup,
    trace_cfg: Option<BiasTraceCfg>,
    want_plot: bool,
    beat_time: F,
    out: Result<BiasResult, String>,
) -> bool {
    exists|window: Vec<Real>|
        {
            &&& #[trigger] hann_window(num, setup.nperseg, window)
            &&& job_done(
                num,
                nearest,
                transform,
                BiasJob { audio, sample_rate_hz, cfg, setup, window: &window },
                trace_cfg,
                want_plot,
                beat_time,
                out,
            )
        }
}

/// Whether this is the window that `n` samples are weighed with.
pub open spec fn hann_window<C: Fn(Term) -> Real, L: Fn(u32, usize) -> Place>(
    num: Numerics<C, L>,
    n: usize,
    window: Vec<Real>,
) -> bool {
    &&& window.len() == n
    &&& forall|m: Meaning| #[trigger]
        num.follows(m) ==> window@ == spectrum::hann_of(m, n as nat)
}

/// Estimates the bias of a chart in some audio, of which `beat_time` tells the time of each
/// beat. `floor` tells the whole number that a number is cut to, `nearest` the one nearest
/// to it, and `transform` the frequencies of as many numbers as a window of a setup has.
pub fn estimate_bias_with_beat_fn<
    C: Fn(Term) -> Real,
    L: Fn(u32, usize) -> Place,
    W: Fn(Real) -> usize,
    R: Fn(Real) -> isize,
    T: Fn(&Setup, Vec<Real>) -> Vec<Bin>,
    F: Fn(usize) -> Real,
>(
    num: &Numerics<C, L>,
    floor: &W,
    nearest: &R,
    transform: &T,
    audio: &Vec<Real>,
    sample_rate_hz: u32,
    cfg: &BiasCfg,
    trace_cfg: Option<BiasTraceCfg>,
    want_plot: bool,
    beat_time: &F,
) -> (out: Option<Result<BiasResult, String>>)
    requires
        num.ready(),
        forall|v: Real| #[trigger] call_requires(floor, (v,)),
        forall|v: Real| #[trigger] call_requires(nearest, (v,)),
        forall|beat: usize| #[trigger] call_requires(beat_time, (beat,)),
        forall|setup: Setup| setup.wf() ==> #[trigger] serves(*transform, setup),
        audio.len() <= isize::MAX,
    ensures
        estimated(
            *num,
            *floor,
            *nearest,
            *transform,
            audio,
            sample_rate_hz,
            *cfg,
            trace_cfg,
            want_plot,
            *beat_time,
            out,
        ),
{
    let found: Result<Measures, String> = measure_setup(
        num,
        floor,
        nearest,
        audio.len(),
        sample_rate_hz,
        cfg,
    );
    assert(beats::measured(*num, *floor, *nearest, audio.len(), sample_rate_hz, *cfg, found));
    let measures: Measures = match found {
        Ok(measures) => measures,
        Err(e) => {
            return Some(Err(e));
        },
    };
    if measures.half < 0 {
        return None;
    }
    let setup: Setup = match build_setup(audio.len(), &measures) {
        Ok(setup) => setup,
        Err(e) => {
            return Some(Err(e));
        },
    };
    if setup.fp_size >= isize::MAX as usize - 2 {
        return None;
    }
    if setup.n_freq_taps.checked_mul(setup.fp_size).is_none() {
        return None;
    }
    let window: Vec<Real> = hann_periodic(num, setup.nperseg);
    assert(hann_window(*num, setup.nperseg, window));
    assert(serves(*transform, setup));
    let job = BiasJob { audio, sample_rate_hz, cfg: *cfg, setup, window: &window };
    let out: Result<BiasResult, String> = do_job(
        num,
        nearest,
        transform,
        &job,
        trace_cfg,
        want_plot,
        beat_time,
    );
    assert(job_done(*num, *nearest, *transform, job, trace_cfg, want_plot, *beat_time, out));
    Some(out)
}

proof fn lemma_same_cells(a: Seq<Real>, b: Seq<Real>, rows: int, cols: int)
    requires
        a.len() == rows * cols,
        b.len() == rows * cols,
        rows >= 0,
        cols > 0,
        forall|r: int, c: int|
            0 <= r < rows && 0 <= c < cols ==> #[trigger] a[r * cols + c] == b[r * cols + c],
    ensures
        a == b,
{
    assert forall|i: int| 0 <= i < a.len() implies a[i] == b[i] by {
        vstd::arithmetic::div_mod::lemma_fundamental_div_mod(i, cols);
        vstd::arithmetic::div_mod::lemma_mod_bound(i, cols);
        let r = i / cols;
        let c = i % cols;
        assert(0 <= r < rows) by (nonlinear_arith)
            requires
                0 <= i < rows * cols,
                i == cols * r + c,
                0 <= c < cols,
        ;
        assert(r * cols == cols * r) by (nonlinear_arith);
        assert(a[r * cols + c] == b[r * cols + c]);
    }
    assert(a =~= b);
}

proof fn lemma_same_curve(
    m: Meaning,
    spectrum: spec_fn(int) -> Seq<Real>,
    input: BiasInput,
    a: Convolved<Real>,
    input_b: BiasInput,
    b: Convolved<Real>,
)
    requires
        input.wf(),
        input.agrees(input_b),
        input.curves(m, a),
        input_b.curves(m, b),
        input.sums_up(m, spectrum, a),
        input_b.sums_up(m, spectrum, b),
    ensures
        a.flat@ == b.flat@,
{
    let setup = input.setup;
    let cols = setup.fp_size as int;
    let rows = a.rows as int;
    let ops = cell_ops(m);
    let target = input.cfg.kernel_target;
    let taps = taps_of(m, input.cfg.kernel_type);
    fingerprint::fingerprints_are_determined(
        a.fingerprint,
        b.fingerprint,
        ops,
        spectrum,
        setup,
        spectrum::weights_of(
            m,
            input.sample_rate_hz,
            setup.nperseg,
            setup.n_freq_taps as nat,
        ),
    );
    let cells = targeted(target, a.fingerprint);
    assert(cells == targeted(target, b.fingerprint));
    assert forall|r: int, c: int| 0 <= r < rows && 0 <= c < cols implies #[trigger] a.post@[r * cols
        + c] == b.post@[r * cols + c] by {
        let there = kernel::tap_sum(ops, cells, taps, rows, cols, r, c, 25);
        assert(a.post@[r * cols + c] == there);
        assert(b.post@[r * cols + c] == there);
    }
    lemma_same_cells(a.post@, b.post@, rows, cols);
    assert(a.flat@ =~= b.flat@);
}

/// An estimate depends on the spectrum of the audio, on the windows and on the
/// settings, and on nothing else: neither a trace nor a plot changes it.
pub proof fn estimates_are_determined(
    m: Meaning,
    spectrum: spec_fn(int) -> Seq<Real>,
    input_a: BiasInput,
    trace_a: Option<BiasTraceCfg>,
    plot_a: bool,
    a: (Convolved<Real>, ConvStats, BiasResult),
    input_b: BiasInput,
    trace_b: Option<BiasTraceCfg>,
    plot_b: bool,
    b: (Convolved<Real>, ConvStats, BiasResult),
)
    requires
        input_a.wf(),
        input_a.agrees(input_b),
        results(m, input_a, trace_a, plot_a, a.0, a.1, a.2),
        results(m, input_b, trace_b, plot_b, b.0, b.1, b.2),
        input_a.sums_up(m, spectrum, a.0),
        input_b.sums_up(m, spectrum, b.0),
    ensures
        a.2.estimate() == b.2.estimate(),
{
    lemma_same_curve(m, spectrum, input_a, a.0, input_b, b.0);
    stats::readings_are_determined(
        m,
        a.0.flat@,
        input_a.setup.actual_step_sec,
        input_a.cfg.magic_offset_ms,
        a.1.result,
        b.1.result,
    );
}

/// Whether two estimates are the same, or fail for the same reason.
pub open spec fn same_estimate(a: Result<BiasResult, String>, b: Result<BiasResult, String>) -> bool {
    match (a, b) {
        (Ok(x), Ok(y)) => x.estimate() == y.estimate(),
        (Err(x), Err(y)) => x@ == y@,
        _ => false,
    }
}

/// The same audio, at the same rate, with the same settings and with beats at the same
/// times, leads to the same estimate, or to none for the same reason, whether it is traced
/// or plotted or neither.
pub proof fn the_same_audio_leads_to_the_same_estimate<
    C: Fn(Term) -> Real,
    L: Fn(u32, usize) -> Place,
    W: Fn(Real) -> usize,
    R: Fn(Real) -> isize,
    T: Fn(&Setup, Vec<Real>) -> Vec<Bin>,
    F: Fn(usize) -> Real,
>(
    num: Numerics<C, L>,
    m: Meaning,
    floor: W,
    w: spec_fn(Real) -> usize,
    nearest: R,
    s: spec_fn(Real) -> isize,
    transform: T,
    t: spec_fn(Setup) -> spec_fn(Seq<Real>) -> Seq<Bin>,
    beat_time: F,
    times: spec_fn(int) -> Real,
    audio: Vec<Real>,
    sample_rate_hz: u32,
    cfg: BiasCfg,
    trace_a: Option<BiasTraceCfg>,
    plot_a: bool,
    a: Option<Result<BiasResult, String>>,
    trace_b: Option<BiasTraceCfg>,
    plot_b: bool,
    b: Option<Result<BiasResult, String>>,
)
    requires
        num.follows(m),
        beats::cuts_as(floor, w),
        beats::rounds_as(nearest, s),
        forall|setup: Setup|
            setup.wf() ==> #[trigger] transforms_in(transform, setup, t(setup)),
        beats::timed_as(beat_time, times),
        audio.len() <= isize::MAX,
        estimated(
            num,
            floor,
            nearest,
            transform,
            &audio,
            sample_rate_hz,
            cfg,
            trace_a,
            plot_a,
            beat_time,
            a,
        ),
        estimated(
            num,
            floor,
            nearest,
            transform,
            &audio,
            sample_rate_hz,
            cfg,
            trace_b,
            plot_b,
            beat_time,
            b,
        ),
    ensures
        match (a, b) {
            (Some(x), Some(y)) => same_estimate(x, y),
            (None, None) => true,
            _ => false,
        },
{
    let len = audio.len();
    let found_a = choose|measures: Result<Measures, String>| #[trigger]
        beats::measured(num, floor, nearest, len, sample_rate_hz, cfg, measures) && comes_of(
            num,
            nearest,
            transform,
            &audio,
            sample_rate_hz,
            cfg,
            measures,
            trace_a,
            plot_a,
            beat_time,
            a,
        );
    let found_b = choose|measures: Result<Measures, String>| #[trigger]
        beats::measured(num, floor, nearest, len, sample_rate_hz, cfg, measures) && comes_of(
            num,
            nearest,
            transform,
            &audio,
            sample_rate_hz,
            cfg,
            measures,
            trace_b,
            plot_b,
            beat_time,
            b,
        );
    let told = beats::measures_of(m, w, s, sample_rate_hz, cfg);
    assert(found_a is Ok ==> found_a->Ok_0 == told);
    assert(found_b is Ok ==> found_b->Ok_0 == told);
    assert(told.nperseg == beats::samples_in(m, w, sample_rate_hz, cfg.window_ms));
    if found_a is Ok && found_b is Ok && told.half >= 4 {
        let setup = beats::setup_of(len, told);
        if manageable(setup) {
            beats::measured_setups_are_wf(len, told);
            lemma_same_job(
                num,
                m,
                nearest,
                s,
                transform,
                t(setup),
                beat_time,
                times,
                audio,
                sample_rate_hz,
                cfg,
                setup,
                trace_a,
                plot_a,
                a->Some_0,
                trace_b,
                plot_b,
                b->Some_0,
            );
        }
    }
}

proof fn lemma_same_job<
    C: Fn(Term) -> Real,
    L: Fn(u32, usize) -> Place,
    R: Fn(Real) -> isize,
    T: Fn(&Setup, Vec<Real>) -> Vec<Bin>,
    F: Fn(usize) -> Real,
>(
    num: Numerics<C, L>,
    m: Meaning,
    nearest: R,
    s: spec_fn(Real) -> isize,
    transform: T,
    t: spec_fn(Seq<Real>) -> Seq<Bin>,
    beat_time: F,
    times: spec_fn(int) -> Real,
    audio: Vec<Real>,
    sample_rate_hz: u32,
    cfg: BiasCfg,
    setup: Setup,
    trace_a: Option<BiasTraceCfg>,
    plot_a: bool,
    a: Result<BiasResult, String>,
    trace_b: Option<BiasTraceCfg>,
    plot_b: bool,
    b: Result<BiasResult, String>,
)
    requires
        num.follows(m),
        beats::rounds_as(nearest, s),
        transforms_in(transform, setup, t),
        beats::timed_as(beat_time, times),
        audio.len() <= isize::MAX,
        setup.wf(),
        setup.nperseg <= isize::MAX,
        manageable(setup),
        window_serves(
            num,
            nearest,
            transform,
            &audio,
            sample_rate_hz,
            cfg,
            setup,
            trace_a,
            plot_a,
            beat_time,
            a,
        ),
        window_serves(
            num,
            nearest,
            transform,
            &audio,
            sample_rate_hz,
            cfg,
            setup,
            trace_b,
            plot_b,
            beat_time,
            b,
        ),
    ensures
        same_estimate(a, b),
{
    let window_a = choose|window: Vec<Real>|
        {
            &&& #[trigger] hann_window(num, setup.nperseg, window)
            &&& job_done(
                num,
                nearest,
                transform,
                BiasJob { audio: &audio, sample_rate_hz, cfg, setup, window: &window },
                trace_a,
                plot_a,
                beat_time,
                a,
            )
        };
    let window_b = choose|window: Vec<Real>|
        {
            &&& #[trigger] hann_window(num, setup.nperseg, window)
            &&& job_done(
                num,
                nearest,
                transform,
                BiasJob { audio: &audio, sample_rate_hz, cfg, setup, window: &window },
                trace_b,
                plot_b,
                beat_time,
                b,
            )
        };
    lemma_same_window(num, m, setup.nperseg, window_a, window_b);
    let job_a = BiasJob { audio: &audio, sample_rate_hz, cfg, setup, window: &window_a };
    let job_b = BiasJob { audio: &audio, sample_rate_hz, cfg, setup, window: &window_b };
    let scan_a = lemma_scan_of(num, nearest, transform, job_a, trace_a, plot_a, beat_time, a);
    let scan_b = lemma_scan_of(num, nearest, transform, job_b, trace_b, plot_b, beat_time, b);
    assert(scan_a.limits == scan_b.limits) by {
        assert(num.follows(m));
    }
    beats::scans_are_determined(num, m, nearest, s, setup, beat_time, times, scan_a, scan_b);
    assert(scan_a.found.windows@ == scan_b.found.windows@) by {
        assert(scan_a@.windows == scan_b@.windows);
    }
    lemma_few_windows(num, nearest, setup, beat_time, scan_a);
    lemma_same_lead(
        num,
        m,
        transform,
        t,
        job_a,
        &scan_a.found,
        trace_a,
        plot_a,
        a,
        job_b,
        &scan_b.found,
        trace_b,
        plot_b,
        b,
    );
}

/// Windows of the same length are the same.
proof fn lemma_same_window<C: Fn(Term) -> Real, L: Fn(u32, usize) -> Place>(
    num: Numerics<C, L>,
    m: Meaning,
    n: usize,
    a: Vec<Real>,
    b: Vec<Real>,
)
    requires
        num.follows(m),
        hann_window(num, n, a),
        hann_window(num, n, b),
    ensures
        a@ == b@,
{
}

/// The scan that a job was done with.
proof fn lemma_scan_of<
    C: Fn(Term) -> Real,
    L: Fn(u32, usize) -> Place,
    R: Fn(Real) -> isize,
    T: Fn(&Setup, Vec<Real>) -> Vec<Bin>,
    F: Fn(usize) -> Real,
>(
    num: Numerics<C, L>,
    nearest: R,
    transform: T,
    job: BiasJob,
    trace_cfg: Option<BiasTraceCfg>,
    want_plot: bool,
    beat_time: F,
    out: Result<BiasResult, String>,
) -> (scan: BeatScan)
    requires
        job_done(num, nearest, transform, job, trace_cfg, want_plot, beat_time, out),
    ensures
        beats::scanned_beats(num, nearest, job.setup, beat_time, scan),
        scan.done,
        forall|m: Meaning| #[trigger]
            num.follows(m) ==> scan.limits == beats::limits_of(
                m,
                job.audio.len(),
                job.sample_rate_hz,
                job.cfg.fingerprint_ms,
                job.setup,
            ),
        job.leads_to(num, transform, &scan.found, trace_cfg, want_plot, out),
{
    choose|scan: BeatScan|
        {
            &&& #[trigger] beats::scanned_beats(num, nearest, job.setup, beat_time, scan)
            &&& scan.done
            &&& forall|m: Meaning| #[trigger]
                num.follows(m) ==> scan.limits == beats::limits_of(
                    m,
                    job.audio.len(),
                    job.sample_rate_hz,
                    job.cfg.fingerprint_ms,
                    job.setup,
                )
            &&& job.leads_to(num, transform, &scan.found, trace_cfg, want_plot, out)
        }
}

/// Jobs on the same audio with the same windows lead to the same.
proof fn lemma_same_lead<
    C: Fn(Term) -> Real,
    L: Fn(u32, usize) -> Place,
    T: Fn(&Setup, Vec<Real>) -> Vec<Bin>,
>(
    num: Numerics<C, L>,
    m: Meaning,
    transform: T,
    t: spec_fn(Seq<Real>) -> Seq<Bin>,
    job_a: BiasJob,
    found_a: &BeatWindows,
    trace_a: Option<BiasTraceCfg>,
    plot_a: bool,
    a: Result<BiasResult, String>,
    job_b: BiasJob,
    found_b: &BeatWindows,
    trace_b: Option<BiasTraceCfg>,
    plot_b: bool,
    b: Result<BiasResult, String>,
)
    requires
        num.follows(m),
        transforms_in(transform, job_a.setup, t),
        job_a.input(found_a).wf(),
        job_a.audio@ == job_b.audio@,
        job_a.sample_rate_hz == job_b.sample_rate_hz,
        job_a.cfg == job_b.cfg,
        job_a.setup == job_b.setup,
        job_a.window@ == job_b.window@,
        found_a.windows@ == found_b.windows@,
        job_a.leads_to(num, transform, found_a, trace_a, plot_a, a),
        job_b.leads_to(num, transform, found_b, trace_b, plot_b, b),
    ensures
        same_estimate(a, b),
{
    let input_a = job_a.input(found_a);
    let input_b = job_b.input(found_b);
    assert(input_a.agrees(input_b));
    assert(input_a.fault() == input_b.fault());
    if a is Ok && b is Ok {
        let (ca, sa) = choose|c: Convolved<Real>, s: ConvStats| #[trigger]
            job_a.comes_by(num, transform, input_a, trace_a, plot_a, c, s, a->Ok_0);
        let (cb, sb) = choose|c: Convolved<Real>, s: ConvStats| #[trigger]
            job_b.comes_by(num, transform, input_b, trace_b, plot_b, c, s, b->Ok_0);
        let spectrum = job_a.spectrum(m, t);
        assert(spectrum =~= job_b.spectrum(m, t));
        assert(input_a.sums_up(m, spectrum, ca));
        assert(input_b.sums_up(m, spectrum, cb));
        estimates_are_determined(
            m,
            spectrum,
            input_a,
            trace_a,
            plot_a,
            (ca, sa, a->Ok_0),
            input_b,
            trace_b,
            plot_b,
            (cb, sb, b->Ok_0),
        );
    }
}

/// Whether an estimate and what can be plotted of it come of some audio together.
pub open spec fn plotted_together(v: BiasEstimateWithPlot) -> bool {
    exists|m: Meaning, input: BiasInput, c: Convolved<Real>, s: ConvStats| #[trigger]
        results(m, input, None, true, c, s, BiasResult::WithPlot(v))
}

/// Where a plot is asked for, an estimate comes with one, and both of the same audio.
pub proof fn asked_plots_come_with_the_estimate<
    C: Fn(Term) -> Real,
    L: Fn(u32, usize) -> Place,
    W: Fn(Real) -> usize,
    R: Fn(Real) -> isize,
    T: Fn(&Setup, Vec<Real>) -> Vec<Bin>,
    F: Fn(usize) -> Real,
>(
    num: Numerics<C, L>,
    m: Meaning,
    floor: W,
    nearest: R,
    transform: T,
    audio: Vec<Real>,
    sample_rate_hz: u32,
    cfg: BiasCfg,
    beat_time: F,
    out: BiasResult,
)
    requires
        num.follows(m),
        estimated(
            num,
            floor,
            nearest,
            transform,
            &audio,
            sample_rate_hz,
            cfg,
            None,
            true,
            beat_time,
            Some(Ok::<BiasResult, String>(out)),
        ),
    ensures
        out is WithPlot,
        plotted_together(out->WithPlot_0),
{
    let answer = Ok::<BiasResult, String>(out);
    let found = choose|measures: Result<Measures, String>| #[trigger]
        beats::measured(num, floor, nearest, audio.len(), sample_rate_hz, cfg, measures)
            && comes_of(
            num,
            nearest,
            transform,
            &audio,
            sample_rate_hz,
            cfg,
            measures,
            None,
            true,
            beat_time,
            Some(answer),
        );
    let setup = beats::setup_of(audio.len(), found->Ok_0);
    let window = choose|window: Vec<Real>|
        {
            &&& #[trigger] hann_window(num, setup.nperseg, window)
            &&& job_done(
                num,
                nearest,
                transform,
                BiasJob { audio: &audio, sample_rate_hz, cfg, setup, window: &window },
                None,
                true,
                beat_time,
                answer,
            )
        };
    let job = BiasJob { audio: &audio, sample_rate_hz, cfg, setup, window: &window };
    let scan = lemma_scan_of(num, nearest, transform, job, None, true, beat_time, answer);
    let input = job.input(&scan.found);
    let (c, s) = choose|c: Convolved<Real>, s: ConvStats| #[trigger]
        job.comes_by(num, transform, input, None, true, c, s, out);
    assert(results(m, input, None, true, c, s, out));
    assert(out == BiasResult::WithPlot(out->WithPlot_0));
}

/// The confidence of every estimate is a number from zero to one.
pub proof fn estimates_are_sure_to_a_degree(
    m: Meaning,
    input: BiasInput,
    trace_cfg: Option<BiasTraceCfg>,
    want_plot: bool,
    c: Convolved<Real>,
    s: ConvStats,
    out: BiasResult,
)
    requires
        results(m, input, trace_cfg, want_plot, c, s, out),
    ensures
        number::zero().at_most(out.estimate().confidence),
        out.estimate().confidence.at_most(stats::one()),
{
    stats::confidences_are_shares(m, s.result.total_max_influence);
}

/// The kernel is run over the part of the fingerprint that is asked for: over the frequencies
/// of the accumulated spectrum, or over the digests of the beats, of which there are as many
/// rows. Every cell of what it makes is the sum of its taps there, and the curve has the sum
/// of each column.
pub proof fn kernels_run_over_what_is_asked_for(
    m: Meaning,
    input: BiasInput,
    c: Convolved<Real>,
    row: int,
    col: int,
)
    requires
        input.curves(m, c),
        0 <= row < c.rows,
        0 <= col < input.setup.fp_size,
    ensures
        ({
            let cols = input.setup.fp_size as int;
            let over_acc = input.cfg.kernel_target == KernelTarget::Accumulator;
            let part = if over_acc {
                c.fingerprint.acc@
            } else {
                c.fingerprint.digest@
            };
            let rows = if over_acc {
                input.setup.n_freq_taps as int
            } else {
                c.fingerprint.taken.len() as int
            };
            let taps = if input.cfg.kernel_type == BiasKernel::Loudest {
                Seq::new(25, |k: int| m.whole(seq![1int, 3, 10, 3, 1][k % 5]))
            } else {
                Seq::new(25, |k: int| m.whole(seq![1int, 1, 0, -1, -1][k % 5]))
            };
            &&& c.rows == rows
            &&& c.post@[row * cols + col] == kernel::tap_sum(
                cell_ops(m),
                part,
                taps,
                rows,
                cols,
                row,
                col,
                25,
            )
            &&& c.flat@[col] == kernel::column_total(cell_ops(m), c.post@, cols, rows as nat, col)
        }),
        forall|a: Real, b: Real| #[trigger] (cell_ops(m).sum)(a, b) == m.plus(a, b),
        forall|a: Real, b: Real| #[trigger] (cell_ops(m).product)(a, b) == m.times(a, b),
        cell_ops(m).zero == number::zero(),
{
    let taps = if input.cfg.kernel_type == BiasKernel::Loudest {
        Seq::new(25, |k: int| m.whole(seq![1int, 3, 10, 3, 1][k % 5]))
    } else {
        Seq::new(25, |k: int| m.whole(seq![1int, 1, 0, -1, -1][k % 5]))
    };
    assert(taps =~= taps_of(m, input.cfg.kernel_type));
}

/// An estimate fails just where there is no window, or none whose samples lie in the audio.
pub proof fn estimates_fail_without_windows(input: BiasInput)
    ensures
        input.fault() is None <==> input.found.windows.len() > 0 && input.taken().len() > 0,
        input.found.windows.len() == 0 ==> input.fault() == Some(
            "no beat windows produced for bias calculation"@,
        ),
        input.found.windows.len() > 0 && input.taken().len() == 0 ==> input.fault() == Some(
            "no valid beat snippets for spectrogram digest"@,
        ),
{
}

/// The rows of a spectrum stand in even steps of frequency, from zero up, and are told in
/// kilohertz.
pub proof fn rows_stand_in_even_steps(m: Meaning, rate: u32, setup: Setup, i: int)
    requires
        0 <= i < setup.n_freq_taps,
    ensures
        freqs_of(m, rate, setup).len() == setup.n_freq_taps,
        freqs_of(m, rate, setup)[i] == m.times(
            m.times(m.whole(i), m.over(m.whole(rate as int), m.whole(setup.nperseg as int))),
            Real { bits: 0x3f50_624d_d2f1_a9fc },
        ),
{
}

/// What can be plotted of an estimate is what it was made from: the accumulated spectrum, the
/// digests, what the kernel made, the curve and the bias that was read from it, with an axis
/// for each.
pub proof fn plots_are_of_what_was_estimated(
    m: Meaning,
    input: BiasInput,
    c: Convolved<Real>,
    s: ConvStats,
    v: BiasEstimateWithPlot,
)
    requires
        results(m, input, None, true, c, s, BiasResult::WithPlot(v)),
    ensures
        v.estimate == s.estimate,
        v.plot.bias_ms == v.estimate.bias_ms,
        v.plot.freq_domain@ == c.fingerprint.acc@,
        v.plot.beat_digest@ == c.fingerprint.digest@,
        v.plot.post_kernel@ == c.post@,
        v.plot.convolution@ == c.flat@,
        v.plot.cols == input.setup.fp_size,
        v.plot.freq_rows == input.setup.n_freq_taps,
        v.plot.digest_rows == c.fingerprint.taken.len(),
        v.plot.post_rows == c.rows || input.setup.fp_size == 0,
        v.plot.post_target == input.cfg.kernel_target,
        v.plot.edge_discard == 2,
        v.plot.times_ms@ == stats::times_of(
            m,
            input.setup.fp_size as int,
            input.setup.actual_step_sec,
        ),
        v.plot.freqs_khz@ == freqs_of(m, input.sample_rate_hz, input.setup),
        forall|i: int| 0 <= i < v.plot.beat_indices.len() ==> #[trigger] v.plot.beat_indices@[i]
            == m.whole(i),
{
}

/// What comes of an estimate is what was asked for: a trace comes before a plot, and without
/// either there is the estimate alone. The estimate is the same.
pub proof fn results_are_what_was_asked_for(
    m: Meaning,
    input: BiasInput,
    trace_cfg: Option<BiasTraceCfg>,
    want_plot: bool,
    c: Convolved<Real>,
    s: ConvStats,
    out: BiasResult,
)
    requires
        results(m, input, trace_cfg, want_plot, c, s, out),
    ensures
        out is WithTrace <==> trace_cfg is Some,
        out is WithPlot <==> trace_cfg is None && want_plot,
        out is Estimate <==> trace_cfg is None && !want_plot,
        out matches BiasResult::WithTrace(est, _) ==> est == s.estimate,
        out matches BiasResult::WithPlot(v) ==> v.estimate == s.estimate,
        out matches BiasResult::Estimate(est) ==> est == s.estimate,
{
}

/// A trace tells of the beats whose windows were taken: of the first ones from the front and of
/// the last ones to the end, as many of each as are to be kept, but one at least, or all. Each
/// is told of its own window and its own row of the digests.
pub proof fn traces_tell_of_the_first_and_last_beats(
    m: Meaning,
    input: BiasInput,
    want_plot: bool,
    c: Convolved<Real>,
    s: ConvStats,
    cfg: BiasTraceCfg,
    est: BiasEstimate,
    t: BiasTrace,
    k: int,
)
    requires
        results(m, input, Some(cfg), want_plot, c, s, BiasResult::WithTrace(est, t)),
        0 <= k < t.beat_head.len(),
    ensures
        ({
            let taken = c.fingerprint.taken@;
            let keep = if cfg.keep == 0 {
                1int
            } else {
                cfg.keep as int
            };
            &&& t.beat_head.len() == (if taken.len() < keep {
                taken.len() as int
            } else {
                keep
            })
            &&& t.beat_tail.len() == t.beat_head.len()
            &&& t.beat_head@[k].beat_index == taken[k].beat_index
            &&& t.beat_head@[k].beat_time_s == taken[k].beat_time_sec
            &&& t.beat_tail@[k].beat_index == taken[taken.len() - t.beat_tail.len()
                + k].beat_index
            &&& t.beat_tail@[k].beat_time_s == taken[taken.len() - t.beat_tail.len()
                + k].beat_time_sec
            &&& t.beat_head@[k].digest_mean == stats::mean_of(
                m,
                row_of(c.fingerprint.digest@, input.setup.fp_size as int, k),
            )
            &&& t.beat_head@[k].digest_std == stats::deviation_of(
                m,
                row_of(c.fingerprint.digest@, input.setup.fp_size as int, k),
            )
            &&& t.skip_counts == input.found.skips
            &&& t.loop_stats == input.found.told()
            &&& t.convolution == s.convolution
            &&& t.result == s.result
            &&& t.setup == trace::setup_told(
                input.sample_rate_hz,
                input.audio_len,
                input.setup,
                m.times(input.cfg.fingerprint_ms, Real { bits: 0x3f50_624d_d2f1_a9fc }),
            )
        }),
{
    let keep = if cfg.keep == 0 {
        1int
    } else {
        cfg.keep as int
    };
    let beats = choose|beats: Seq<BiasTraceBeat>|
        {
            &&& #[trigger] beats_told(m, input.setup, c.fingerprint, beats)
            &&& t.beat_head@ == trace::first_of(beats, keep)
            &&& t.beat_tail@ == trace::last_of(beats, keep)
        };
    assert(t.beat_head@[k] == beats[k]);
    assert(t.beat_tail@[k] == beats[beats.len() - t.beat_tail.len() + k]);
}

/// The rows of a matrix lie one behind the other.
pub proof fn rows_lie_one_behind_the_other(matrix: Seq<Real>, cols: int, k: int, i: int)
    requires
        0 <= i < cols,
        0 <= k,
        (k + 1) * cols <= matrix.len(),
    ensures
        row_of(matrix, cols, k).len() == cols,
        row_of(matrix, cols, k)[i] == matrix[k * cols + i],
{
    assert((k + 1) * cols == k * cols + cols) by (nonlinear_arith);
    assert(k * cols >= 0) by (nonlinear_arith)
        requires
            0 <= k,
            0 <= cols,
    ;
}

} // verus!
