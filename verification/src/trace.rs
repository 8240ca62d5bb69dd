//! What an estimate leaves behind besides its result: traces, plot data, and the
//! work that later estimates use again.

use crate::beats::{BeatWindow, BiasTraceLoop, BiasTraceSkips, Setup};
use crate::model::{BiasEstimate, KernelTarget};
use crate::number;
use crate::number::Real;
use crate::peaks;
use crate::peaks::{argmax, highest, lowest, top_peaks, EDGE_DISCARD};
use vstd::prelude::*;

verus! {

/// How many beats a trace keeps at each end.
#[derive(Debug, Clone, Copy, PartialEq, Eq, Structural)]
pub struct BiasTraceCfg {
    pub keep: usize,
}

#[derive(Debug, Clone, Copy, PartialEq, Eq, Structural)]
pub struct BiasTraceSetup {
    pub sample_rate_hz: u32,
    pub samples: usize,
    pub nperseg: usize,
    pub nstep: usize,
    pub noverlap: usize,
    pub actual_step_sec: Real,
    pub fp_size: usize,
    pub n_freq_taps: usize,
    pub n_time_taps: isize,
    pub spectrogram_offset: Real,
    pub min_sep_sec: Real,
}

#[derive(Debug, Clone, Copy, PartialEq, Eq, Structural)]
pub struct BiasTraceBeat {
    pub beat_index: usize,
    pub beat_time_s: Real,
    pub window_time_idx_raw_start: isize,
    pub window_time_idx_raw_end: isize,
    pub window_time_idx_start: usize,
    pub window_time_idx_end: usize,
    pub digest_min: Real,
    pub digest_max: Real,
    pub digest_mean: Real,
    pub digest_std: Real,
    pub digest_peak_idx: usize,
    pub digest_peak_ms: Real,
}

#[derive(Debug, Clone, Copy, PartialEq, Eq, Structural)]
pub struct BiasTracePeak {
    pub clip_index: usize,
    pub full_index: usize,
    pub time_ms: Real,
    pub value: Real,
}

#[derive(Debug, Clone)]
pub struct BiasTraceConv {
    pub edge_discard: usize,
    pub clip_min: Real,
    pub clip_max: Real,
    pub clip_mean: Real,
    pub clip_std: Real,
    pub top_peaks: Vec<BiasTracePeak>,
}

#[derive(Debug, Clone, Copy, PartialEq, Eq, Structural)]
pub struct BiasTraceResult {
    pub bias_ms: Real,
    pub confidence: Real,
    pub conv_quint: Real,
    pub conv_stdev: Real,
    pub i_max: usize,
    pub v_median: Real,
    pub v_max: Real,
    pub v20: Real,
    pub v80: Real,
    pub total_max_influence: Real,
}

/// Everything that an estimate went by.
#[derive(Debug, Clone)]
pub struct BiasTrace {
    pub setup: BiasTraceSetup,
    pub skip_counts: BiasTraceSkips,
    pub loop_stats: BiasTraceLoop,
    pub beat_head: Vec<BiasTraceBeat>,
    pub beat_tail: Vec<BiasTraceBeat>,
    pub convolution: BiasTraceConv,
    pub result: BiasTraceResult,
}

/// What the plots of an estimate show.
#[derive(Debug, Clone)]
pub struct BiasPlotData {
    pub freq_rows: usize,
    pub digest_rows: usize,
    pub cols: usize,
    pub post_rows: usize,
    pub post_target: KernelTarget,
    pub freq_domain: Vec<Real>,
    pub beat_digest: Vec<Real>,
    pub post_kernel: Vec<Real>,
    pub convolution: Vec<Real>,
    pub times_ms: Vec<Real>,
    pub freqs_khz: Vec<Real>,
    pub beat_indices: Vec<Real>,
    pub bias_ms: Real,
    pub edge_discard: usize,
}

#[derive(Debug, Clone)]
pub struct BiasEstimateWithPlot {
    pub estimate: BiasEstimate,
    pub plot: BiasPlotData,
}

// ---------------------------------------------------------------------------
// The beats of a trace
// ---------------------------------------------------------------------------

/// The first and the last beats of a run.
pub struct TraceCollector<T> {
    pub keep: usize,
    pub beat_head: Vec<T>,
    pub beat_tail: Vec<T>,
}

/// The last `n` items, or all.
pub open spec fn last_of<T>(items: Seq<T>, n: int) -> Seq<T> {
    if items.len() <= n {
        items
    } else {
        items.skip(items.len() - n)
    }
}

/// The first `n` items, or all.
pub open spec fn first_of<T>(items: Seq<T>, n: int) -> Seq<T> {
    if items.len() <= n {
        items
    } else {
        items.take(n)
    }
}

impl<T: Copy> TraceCollector<T> {
    /// Whether the collector has been given these beats.
    pub open spec fn collected(self, beats: Seq<T>) -> bool {
        &&& self.keep >= 1
        &&& self.beat_head@ == first_of(beats, self.keep as int)
        &&& self.beat_tail@ == last_of(beats, self.keep as int)
    }

    pub fn new(cfg: BiasTraceCfg) -> (out: TraceCollector<T>)
        ensures
            out.keep == (if cfg.keep == 0 {
                1
            } else {
                cfg.keep
            }),
            out.collected(Seq::empty()),
    {
        TraceCollector {
            keep: if cfg.keep == 0 {
                1
            } else {
                cfg.keep
            },
            beat_head: Vec::new(),
            beat_tail: Vec::new(),
        }
    }

    /// Takes one beat more. The beats before it are whatever the collector has
    /// been given.
    pub fn push_beat(&mut self, beat: T)
        requires
            old(self).keep >= 1,
            old(self).beat_head.len() <= old(self).keep,
            old(self).beat_tail.len() <= old(self).keep,
        ensures
            final(self).keep == old(self).keep,
            final(self).beat_head@ == first_of(
                old(self).beat_head@.push(beat),
                old(self).keep as int,
            ),
            final(self).beat_tail@ == last_of(
                old(self).beat_tail@.push(beat),
                old(self).keep as int,
            ),
            forall|beats: Seq<T>| #[trigger]
                old(self).collected(beats) ==> final(self).collected(beats.push(beat)),
    {
        let ghost head0 = self.beat_head@;
        let ghost tail0 = self.beat_tail@;
        if self.beat_head.len() < self.keep {
            self.beat_head.push(beat);
        }
        self.beat_tail.push(beat);
        if self.beat_tail.len() > self.keep {
            self.beat_tail.remove(0);
        }
        proof {
            let keep = self.keep as int;
            assert(self.beat_head@ =~= first_of(head0.push(beat), keep));
            assert(self.beat_tail@ =~= last_of(tail0.push(beat), keep));
            assert forall|beats: Seq<T>| #[trigger] old(self).collected(beats) implies self.collected(
                beats.push(beat),
            ) by {
                let more = beats.push(beat);
                assert(self.beat_head@ =~= first_of(more, keep));
                assert(self.beat_tail@ =~= last_of(more, keep));
            }
        }
    }
}

/// A run of no more beats than are kept is kept whole at both ends; of a longer
/// run every beat within reach of an end is kept.
pub proof fn short_runs_are_kept_whole<T: Copy>(collector: TraceCollector<T>, beats: Seq<T>, i: int)
    requires
        collector.collected(beats),
        0 <= i < beats.len(),
    ensures
        beats.len() <= collector.keep ==> collector.beat_head@ == beats && collector.beat_tail@
            == beats,
        i < collector.keep ==> collector.beat_head@[i] == beats[i],
        i >= beats.len() - collector.keep ==> collector.beat_tail@.contains(beats[i]),
{
    if beats.len() > collector.keep && i >= beats.len() - collector.keep {
        let k = i - (beats.len() - collector.keep);
        assert(collector.beat_tail@[k] == beats[i]);
    }
    if beats.len() <= collector.keep {
        assert(collector.beat_tail@[i] == beats[i]);
    }
}

/// Whether a trace says this of one beat, whose row of the digest has this mean
/// and this deviation.
pub open spec fn beat_told(
    window: BeatWindow,
    digest_row: Seq<Real>,
    digest_mean: Real,
    digest_std: Real,
    fp_times_ms: Seq<Real>,
    out: BiasTraceBeat,
) -> bool {
    &&& out.beat_index == window.beat_index
    &&& out.beat_time_s == window.beat_time_sec
    &&& out.window_time_idx_raw_start == window.t_s_raw
    &&& out.window_time_idx_raw_end == window.t_f_raw
    &&& out.window_time_idx_start == window.t_s
    &&& out.window_time_idx_end == window.t_f
    &&& peaks::is_peak(digest_row, out.digest_peak_idx as int)
    &&& out.digest_peak_ms == (if out.digest_peak_idx < fp_times_ms.len() {
        fp_times_ms[out.digest_peak_idx as int]
    } else {
        number::zero()
    })
    &&& out.digest_mean == digest_mean
    &&& out.digest_std == digest_std
    &&& out.digest_min == peaks::lowest_of(digest_row)
    &&& out.digest_max == peaks::highest_of(digest_row)
}

pub fn beat_trace(
    window: &BeatWindow,
    digest_row: &Vec<Real>,
    digest_mean: Real,
    digest_std: Real,
    fp_times_ms: &Vec<Real>,
) -> (out: BiasTraceBeat)
    ensures
        beat_told(*window, digest_row@, digest_mean, digest_std, fp_times_ms@, out),
{
    let peak_idx: usize = argmax(digest_row);
    let digest_peak_ms: Real = if peak_idx < fp_times_ms.len() {
        fp_times_ms[peak_idx]
    } else {
        Real { bits: 0 }
    };
    BiasTraceBeat {
        beat_index: window.beat_index,
        beat_time_s: window.beat_time_sec,
        window_time_idx_raw_start: window.t_s_raw,
        window_time_idx_raw_end: window.t_f_raw,
        window_time_idx_start: window.t_s,
        window_time_idx_end: window.t_f,
        digest_min: lowest(digest_row),
        digest_max: highest(digest_row),
        digest_mean,
        digest_std,
        digest_peak_idx: peak_idx,
        digest_peak_ms,
    }
}

/// Whether a trace says this of the convolution, whose part between the discarded
/// edges is `clip` and has this mean and this deviation. The peaks that are listed
/// are the highest, the highest first.
pub open spec fn convolution_told(
    clip: Seq<Real>,
    times_ms: Seq<Real>,
    clip_mean: Real,
    clip_std: Real,
    out: BiasTraceConv,
) -> bool {
    &&& out.edge_discard == 2
    &&& out.clip_mean == clip_mean
    &&& out.clip_std == clip_std
    &&& out.clip_min == peaks::lowest_of(clip)
    &&& out.clip_max == peaks::highest_of(clip)
    &&& out.top_peaks.len() == (if clip.len() < 12 {
        clip.len()
    } else {
        12
    })
    &&& forall|a: int|
        0 <= a < out.top_peaks.len() ==> {
            let peak = #[trigger] out.top_peaks@[a];
            &&& peak.clip_index < clip.len()
            &&& peak.full_index == peak.clip_index + 2
            &&& peak.time_ms == times_ms[peak.clip_index + 2]
            &&& peak.value == clip[peak.clip_index as int]
        }
    &&& forall|a: int, b: int|
        0 <= a < b < out.top_peaks.len() ==> peaks::higher(
            clip,
            #[trigger] out.top_peaks@[a].clip_index as int,
            #[trigger] out.top_peaks@[b].clip_index as int,
        )
    &&& forall|i: int, a: int|
        #![trigger clip[i], out.top_peaks@[a]]
        0 <= i < clip.len() && 0 <= a < out.top_peaks.len() && (forall|b: int|
            0 <= b < out.top_peaks.len() ==> #[trigger] out.top_peaks@[b].clip_index != i)
            ==> peaks::higher(clip, out.top_peaks@[a].clip_index as int, i)
}

/// What a trace says of a convolution is determined by it.
pub proof fn tellings_are_determined(
    clip: Seq<Real>,
    times_ms: Seq<Real>,
    clip_mean: Real,
    clip_std: Real,
    a: BiasTraceConv,
    b: BiasTraceConv,
)
    requires
        convolution_told(clip, times_ms, clip_mean, clip_std, a),
        convolution_told(clip, times_ms, clip_mean, clip_std, b),
    ensures
        a.edge_discard == b.edge_discard,
        a.clip_min == b.clip_min,
        a.clip_max == b.clip_max,
        a.clip_mean == b.clip_mean,
        a.clip_std == b.clip_std,
        a.top_peaks@ == b.top_peaks@,
{
    assert forall|k: int| 0 <= k < a.top_peaks.len() implies a.top_peaks@[k] == b.top_peaks@[k] by {
        lemma_same_peak(clip, times_ms, clip_mean, clip_std, a, b, k);
    }
    assert(a.top_peaks@ =~= b.top_peaks@);
}

proof fn lemma_same_peak(
    clip: Seq<Real>,
    times_ms: Seq<Real>,
    clip_mean: Real,
    clip_std: Real,
    a: BiasTraceConv,
    b: BiasTraceConv,
    k: int,
)
    requires
        convolution_told(clip, times_ms, clip_mean, clip_std, a),
        convolution_told(clip, times_ms, clip_mean, clip_std, b),
        0 <= k < a.top_peaks.len(),
    ensures
        a.top_peaks@[k] == b.top_peaks@[k],
    decreases k,
{
    let p = a.top_peaks@[k];
    let q = b.top_peaks@[k];
    assert forall|j: int| 0 <= j < k implies a.top_peaks@[j] == b.top_peaks@[j] by {
        lemma_same_peak(clip, times_ms, clip_mean, clip_std, a, b, j);
    }
    if p.clip_index != q.clip_index {
        lemma_next_peak(clip, times_ms, clip_mean, clip_std, a, b, k);
        lemma_next_peak(clip, times_ms, clip_mean, clip_std, b, a, k);
    }
}

/// Where two tellings agree up to a peak and differ in it, the peak of the first is
/// higher.
proof fn lemma_next_peak(
    clip: Seq<Real>,
    times_ms: Seq<Real>,
    clip_mean: Real,
    clip_std: Real,
    a: BiasTraceConv,
    b: BiasTraceConv,
    k: int,
)
    requires
        convolution_told(clip, times_ms, clip_mean, clip_std, a),
        convolution_told(clip, times_ms, clip_mean, clip_std, b),
        0 <= k < a.top_peaks.len(),
        forall|j: int| 0 <= j < k ==> a.top_peaks@[j] == b.top_peaks@[j],
        a.top_peaks@[k].clip_index != b.top_peaks@[k].clip_index,
    ensures
        peaks::higher(
            clip,
            a.top_peaks@[k].clip_index as int,
            b.top_peaks@[k].clip_index as int,
        ),
{
    let q = b.top_peaks@[k].clip_index as int;
    if exists|j: int| 0 <= j < a.top_peaks.len() && #[trigger] a.top_peaks@[j].clip_index == q {
        let j = choose|j: int|
            0 <= j < a.top_peaks.len() && #[trigger] a.top_peaks@[j].clip_index == q;
        if j < k {
            assert(b.top_peaks@[j].clip_index == q);
            assert(peaks::higher(
                clip,
                b.top_peaks@[j].clip_index as int,
                b.top_peaks@[k].clip_index as int,
            ));
        }
    } else {
        assert(clip[q] == clip[q]);
    }
}

pub fn trace_convolution(
    clip: &Vec<Real>,
    times_ms: &Vec<Real>,
    clip_mean: Real,
    clip_std: Real,
) -> (out: BiasTraceConv)
    requires
        times_ms.len() == clip.len() + 4,
    ensures
        convolution_told(clip@, times_ms@, clip_mean, clip_std, out),
{
    let places: Vec<usize> = top_peaks(clip);
    let mut top: Vec<BiasTracePeak> = Vec::new();
    let mut i: usize = 0;
    while i < places.len()
        invariant
            i <= places.len(),
            times_ms.len() == clip.len() + 4,
            forall|a: int| 0 <= a < places.len() ==> #[trigger] places@[a] < clip.len(),
            top.len() == i,
            forall|a: int|
                0 <= a < i ==> {
                    let peak = #[trigger] top@[a];
                    &&& peak.clip_index == places@[a]
                    &&& peak.full_index == peak.clip_index + 2
                    &&& peak.time_ms == times_ms@[peak.clip_index + 2]
                    &&& peak.value == clip@[peak.clip_index as int]
                },
        decreases places.len() - i,
    {
        let k: usize = places[i];
        top.push(
            BiasTracePeak {
                clip_index: k,
                full_index: k + EDGE_DISCARD,
                time_ms: times_ms[k + EDGE_DISCARD],
                value: clip[k],
            },
        );
        i += 1;
    }
    proof {
        assert forall|i: int, a: int|
            #![trigger clip@[i], top@[a]]
            0 <= i < clip.len() && 0 <= a < top.len() && (forall|b: int|
                0 <= b < top.len() ==> #[trigger] top@[b].clip_index != i) implies peaks::higher(
            clip@,
            top@[a].clip_index as int,
            i,
        ) by {
            if places@.contains(i as usize) {
                let b = choose|b: int| 0 <= b < places.len() && places@[b] == i as usize;
                assert(top@[b].clip_index == i);
            }
            assert(higher_than_rest(clip@, places@, i as usize, a));
        }
    }
    BiasTraceConv {
        edge_discard: EDGE_DISCARD,
        clip_min: lowest(clip),
        clip_max: highest(clip),
        clip_mean,
        clip_std,
        top_peaks: top,
    }
}

spec fn higher_than_rest(clip: Seq<Real>, places: Seq<usize>, i: usize, a: int) -> bool {
    !places.contains(i) ==> peaks::higher(clip, places[a] as int, i as int)
}

/// What a trace says of the sizes that were worked with.
pub open spec fn setup_told(
    sample_rate_hz: u32,
    samples: usize,
    setup: Setup,
    min_sep_sec: Real,
) -> BiasTraceSetup {
    BiasTraceSetup {
        sample_rate_hz,
        samples,
        nperseg: setup.nperseg,
        nstep: setup.nstep,
        noverlap: (if setup.nstep < setup.nperseg {
            setup.nperseg - setup.nstep
        } else {
            0
        }) as usize,
        actual_step_sec: setup.actual_step_sec,
        fp_size: setup.fp_size,
        n_freq_taps: setup.n_freq_taps,
        n_time_taps: setup.n_time_taps,
        spectrogram_offset: setup.spectrogram_offset,
        min_sep_sec,
    }
}

pub fn trace_setup(
    sample_rate_hz: u32,
    samples: usize,
    setup: &Setup,
    min_sep_sec: Real,
) -> (out: BiasTraceSetup)
    ensures
        out == setup_told(sample_rate_hz, samples, *setup, min_sep_sec),
{
    BiasTraceSetup {
        sample_rate_hz,
        samples,
        nperseg: setup.nperseg,
        nstep: setup.nstep,
        noverlap: if setup.nstep < setup.nperseg {
            setup.nperseg - setup.nstep
        } else {
            0
        },
        actual_step_sec: setup.actual_step_sec,
        fp_size: setup.fp_size,
        n_freq_taps: setup.n_freq_taps,
        n_time_taps: setup.n_time_taps,
        spectrogram_offset: setup.spectrogram_offset,
        min_sep_sec,
    }
}

// ---------------------------------------------------------------------------
// Results
// ---------------------------------------------------------------------------

/// An estimate, with a trace or with what can be plotted of it.
pub enum BiasResult {
    Estimate(BiasEstimate),
    WithTrace(BiasEstimate, BiasTrace),
    WithPlot(BiasEstimateWithPlot),
}

impl BiasResult {
    pub open spec fn estimate(self) -> BiasEstimate {
        match self {
            BiasResult::Estimate(v) => v,
            BiasResult::WithTrace(v, _) => v,
            BiasResult::WithPlot(v) => v.estimate,
        }
    }

    pub fn into_estimate(self) -> (out: BiasEstimate)
        ensures
            out == self.estimate(),
    {
        match self {
            BiasResult::Estimate(v) => v,
            BiasResult::WithTrace(v, _) => v,
            BiasResult::WithPlot(v) => v.estimate,
        }
    }

    pub fn into_pair(self) -> (out: Result<(BiasEstimate, BiasTrace), String>)
        ensures
            match out {
                Ok(pair) => self == BiasResult::WithTrace(pair.0, pair.1),
                Err(e) => !(self is WithTrace) && e@ == "bias trace requested but not produced"@,
            },
    {
        match self {
            BiasResult::WithTrace(v, t) => Ok((v, t)),
            BiasResult::Estimate(_) => Err("bias trace requested but not produced".to_owned()),
            BiasResult::WithPlot(_) => Err("bias trace requested but not produced".to_owned()),
        }
    }

    pub fn into_plot(self) -> (out: Result<BiasEstimateWithPlot, String>)
        ensures
            match out {
                Ok(plot) => self == BiasResult::WithPlot(plot),
                Err(e) => !(self is WithPlot) && e@ == "bias plot requested but not produced"@,
            },
    {
        match self {
            BiasResult::WithPlot(v) => Ok(v),
            BiasResult::Estimate(_) => Err("bias plot requested but not produced".to_owned()),
            BiasResult::WithTrace(_, _) => Err("bias plot requested but not produced".to_owned()),
        }
    }
}

impl BiasPlotData {
    /// Every matrix has as many cells as its rows and columns ask for, and every
    /// axis as many places.
    pub open spec fn wf(self) -> bool {
        &&& self.freq_domain.len() == self.freq_rows * self.cols
        &&& self.beat_digest.len() == self.digest_rows * self.cols
        &&& self.post_kernel.len() == self.post_rows * self.cols
        &&& self.post_rows == (if self.post_target == KernelTarget::Accumulator {
            self.freq_rows
        } else {
            self.digest_rows
        })
        &&& self.convolution.len() == self.cols
        &&& self.times_ms.len() == self.cols
        &&& self.freqs_khz.len() == self.freq_rows
        &&& self.beat_indices.len() == self.digest_rows
    }
}

/// What can be plotted of an estimate from `beats` windows.
pub fn build_plot_data(
    setup: &Setup,
    post_target: KernelTarget,
    freq_domain: Vec<Real>,
    beat_digest: Vec<Real>,
    beats: usize,
    post_kernel: Vec<Real>,
    convolution: Vec<Real>,
    times_ms: Vec<Real>,
    freqs_khz: Vec<Real>,
    beat_indices: Vec<Real>,
    bias_ms: Real,
) -> (out: BiasPlotData)
    ensures
        out.freq_rows == setup.n_freq_taps,
        out.digest_rows == beats,
        out.cols == setup.fp_size,
        out.post_rows == (if post_target == KernelTarget::Accumulator {
            setup.n_freq_taps
        } else {
            beats
        }),
        out.post_target == post_target,
        out.freq_domain == freq_domain,
        out.beat_digest == beat_digest,
        out.post_kernel == post_kernel,
        out.convolution == convolution,
        out.times_ms == times_ms,
        out.freqs_khz == freqs_khz,
        out.beat_indices == beat_indices,
        out.bias_ms == bias_ms,
        out.edge_discard == 2,
{
    BiasPlotData {
        freq_rows: setup.n_freq_taps,
        digest_rows: beats,
        cols: setup.fp_size,
        post_rows: if post_target == KernelTarget::Accumulator {
            setup.n_freq_taps
        } else {
            beats
        },
        post_target,
        freq_domain,
        beat_digest,
        post_kernel,
        convolution,
        times_ms,
        freqs_khz,
        beat_indices,
        bias_ms,
        edge_discard: EDGE_DISCARD,
    }
}

// ---------------------------------------------------------------------------
// Work that is used again
// ---------------------------------------------------------------------------

/// What the preparation of a spectrogram depends on.
#[derive(Debug, Clone, Copy, PartialEq, Eq, Structural)]
pub struct SpectrogramKey {
    pub sample_rate_hz: u32,
    pub nperseg: usize,
    pub nstep: usize,
}

pub struct SpectrogramCacheEntry<C> {
    pub key: SpectrogramKey,
    pub ctx: C,
}

/// The preparations that were made so far, none twice.
pub struct BiasRuntime<C> {
    pub spectrogram: Vec<SpectrogramCacheEntry<C>>,
}

impl<C> Default for BiasRuntime<C> {
    fn default() -> (out: BiasRuntime<C>)
        ensures
            out.wf(),
            out.spectrogram@.len() == 0,
    {
        BiasRuntime { spectrogram: Vec::new() }
    }
}

impl<C> BiasRuntime<C> {
    pub open spec fn wf(self) -> bool {
        forall|i: int, j: int|
            0 <= i < j < self.spectrogram.len() ==> #[trigger] self.spectrogram@[i].key
                != #[trigger] self.spectrogram@[j].key
    }

    /// Where the preparation for a key stands, if it was made.
    pub fn slot(&self, key: SpectrogramKey) -> (out: Option<usize>)
        ensures
            match out {
                Some(i) => i < self.spectrogram.len() && self.spectrogram@[i as int].key == key
                    && forall|j: int| 0 <= j < i ==> #[trigger] self.spectrogram@[j].key != key,
                None => forall|j: int|
                    0 <= j < self.spectrogram.len() ==> #[trigger] self.spectrogram@[j].key != key,
            },
    {
        let mut i: usize = 0;
        while i < self.spectrogram.len()
            invariant
                i <= self.spectrogram.len(),
                forall|j: int| 0 <= j < i ==> #[trigger] self.spectrogram@[j].key != key,
            decreases self.spectrogram.len() - i,
        {
            if self.spectrogram[i].key == key {
                return Some(i);
            }
            i += 1;
        }
        None
    }

    /// The place of the preparation for a key, which is made with `prepare` where
    /// there is none yet.
    pub fn spectrogram_ctx<F: Fn(usize) -> C>(&mut self, key: SpectrogramKey, prepare: F) -> (at:
        usize)
        requires
            old(self).wf(),
            call_requires(prepare, (key.nperseg,)),
        ensures
            final(self).wf(),
            at < final(self).spectrogram.len(),
            final(self).spectrogram@[at as int].key == key,
            (exists|i: int|
                0 <= i < old(self).spectrogram.len() && #[trigger] old(self).spectrogram@[i].key
                    == key) ==> final(self).spectrogram@ == old(self).spectrogram@,
            (forall|i: int|
                0 <= i < old(self).spectrogram.len() ==> #[trigger] old(self).spectrogram@[i].key
                    != key) ==> {
                &&& at == old(self).spectrogram.len()
                &&& final(self).spectrogram@.drop_last() == old(self).spectrogram@
                &&& call_ensures(
                    prepare,
                    (key.nperseg,),
                    final(self).spectrogram@[at as int].ctx,
                )
            },
    {
        match self.slot(key) {
            Some(i) => i,
            None => {
                let ghost before = self.spectrogram@;
                let ctx: C = prepare(key.nperseg);
                self.spectrogram.push(SpectrogramCacheEntry { key, ctx });
                assert(self.spectrogram@.drop_last() =~= before);
                self.spectrogram.len() - 1
            },
        }
    }
}

/// Asking for one key twice prepares it once: the second time nothing is added
/// and the same place is given.
pub proof fn preparations_are_made_once<C>(
    before: BiasRuntime<C>,
    at: usize,
    after: BiasRuntime<C>,
    again: usize,
    key: SpectrogramKey,
)
    requires
        before.wf(),
        at < before.spectrogram.len(),
        before.spectrogram@[at as int].key == key,
        after.spectrogram@ == before.spectrogram@,
        again < after.spectrogram.len(),
        after.spectrogram@[again as int].key == key,
    ensures
        again == at,
{
}

/// The peaks that a trace lists are the highest of the curve: none that it leaves out is
/// higher than any that it lists, they come from the highest down, and each tells where it
/// stands, when, and how high. It lists twelve, or all.
pub proof fn listed_peaks_are_the_highest(
    clip: Seq<Real>,
    times_ms: Seq<Real>,
    clip_mean: Real,
    clip_std: Real,
    out: BiasTraceConv,
    a: int,
    b: int,
    i: int,
)
    requires
        convolution_told(clip, times_ms, clip_mean, clip_std, out),
        0 <= a < b < out.top_peaks.len(),
        0 <= i < clip.len(),
        forall|k: int| 0 <= k < out.top_peaks.len() ==> (#[trigger] out.top_peaks@[k]).clip_index != i,
    ensures
        !out.top_peaks@[a].value.less(out.top_peaks@[b].value),
        !out.top_peaks@[a].value.less(clip[i]),
        out.top_peaks@[a].clip_index != out.top_peaks@[b].clip_index,
        out.top_peaks@[a].value == clip[out.top_peaks@[a].clip_index as int],
        out.top_peaks@[a].time_ms == times_ms[out.top_peaks@[a].full_index as int],
        out.top_peaks@[a].full_index == out.top_peaks@[a].clip_index + 2,
        out.top_peaks.len() == 12,
        out.edge_discard == 2,
        out.clip_mean == clip_mean && out.clip_std == clip_std,
{
    let (x, y) = (out.top_peaks@[a], out.top_peaks@[b]);
    assert(peaks::higher(clip, x.clip_index as int, y.clip_index as int));
    assert(peaks::higher(clip, x.clip_index as int, i)) by {
        let c = clip[i];
        assert forall|k: int| 0 <= k < out.top_peaks.len() implies #[trigger] out.top_peaks@[k].clip_index
            != i by {
            let p = out.top_peaks@[k];
        }
    }
    number::rank_refines_less(x.value, y.value);
    number::rank_refines_less(x.value, clip[i]);
    if out.top_peaks.len() == clip.len() {
        assert forall|c: int, d: int| 0 <= c < d < out.top_peaks.len() implies (
        #[trigger] out.top_peaks@[c]).clip_index != (#[trigger] out.top_peaks@[d]).clip_index by {
            assert(peaks::higher(
                clip,
                out.top_peaks@[c].clip_index as int,
                out.top_peaks@[d].clip_index as int,
            ));
        }
        lemma_all_listed(clip, out, i);
    }
}

proof fn lemma_all_listed(clip: Seq<Real>, out: BiasTraceConv, i: int)
    requires
        out.top_peaks.len() == clip.len(),
        0 <= i < clip.len(),
        forall|k: int|
            0 <= k < out.top_peaks.len() ==> (#[trigger] out.top_peaks@[k]).clip_index < clip.len(),
        forall|a: int, b: int|
            0 <= a < b < out.top_peaks.len() ==> (#[trigger] out.top_peaks@[a]).clip_index != (
            #[trigger] out.top_peaks@[b]).clip_index,
    ensures
        exists|k: int|
            0 <= k < out.top_peaks.len() && (#[trigger] out.top_peaks@[k]).clip_index == i,
{
    let n = clip.len();
    let places = Seq::new(n, |k: int| out.top_peaks@[k].clip_index as int);
    assert(places.no_duplicates()) by {
        assert forall|a: int, b: int|
            0 <= a < places.len() && 0 <= b < places.len() && a != b implies places[a]
            != places[b] by {
            let (p, q) = (out.top_peaks@[a], out.top_peaks@[b]);
        }
    }
    places.unique_seq_to_set();
    let range = vstd::set_lib::set_int_range(0, n as int);
    vstd::set_lib::lemma_int_range(0, n as int);
    assert(places.to_set().subset_of(range)) by {
        assert forall|v: int| #[trigger] places.to_set().contains(v) implies range.contains(v) by {
            let k = choose|k: int| 0 <= k < places.len() && places[k] == v;
            let p = out.top_peaks@[k];
        }
    }
    vstd::set_lib::lemma_subset_equality(places.to_set(), range);
    assert(range.contains(i));
    assert(places.to_set().contains(i));
    let k = choose|k: int| 0 <= k < places.len() && places[k] == i;
    assert(out.top_peaks@[k].clip_index == i);
}

/// Windows overlap by what a step leaves of them, and do not where a step is as long or longer.
pub proof fn windows_overlap_by_what_a_step_leaves(
    rate: u32,
    samples: usize,
    setup: Setup,
    min_sep_sec: Real,
)
    ensures
        ({
            let told = setup_told(rate, samples, setup, min_sep_sec);
            &&& setup.nstep <= setup.nperseg ==> told.noverlap + setup.nstep == setup.nperseg
            &&& setup.nstep >= setup.nperseg ==> told.noverlap == 0
            &&& told.sample_rate_hz == rate && told.samples == samples
            &&& told.nperseg == setup.nperseg && told.nstep == setup.nstep
            &&& told.fp_size == setup.fp_size && told.n_freq_taps == setup.n_freq_taps
            &&& told.n_time_taps == setup.n_time_taps
            &&& told.actual_step_sec == setup.actual_step_sec
            &&& told.spectrogram_offset == setup.spectrogram_offset
            &&& told.min_sep_sec == min_sep_sec
        }),
{
}

/// What a trace says of a beat is of its window and of its row of the digests: where the row is
/// highest, when that is, and how low and how high it gets.
pub proof fn beats_are_told_as_they_were_taken(
    window: BeatWindow,
    row: Seq<Real>,
    mean: Real,
    std: Real,
    times_ms: Seq<Real>,
    out: BiasTraceBeat,
    i: int,
)
    requires
        beat_told(window, row, mean, std, times_ms, out),
        0 <= i < row.len(),
    ensures
        out.beat_index == window.beat_index && out.beat_time_s == window.beat_time_sec,
        out.window_time_idx_raw_start == window.t_s_raw,
        out.window_time_idx_raw_end == window.t_f_raw,
        out.window_time_idx_start == window.t_s && out.window_time_idx_end == window.t_f,
        out.digest_mean == mean && out.digest_std == std,
        out.digest_peak_idx < row.len(),
        (forall|j: int| 0 <= j < row.len() ==> (#[trigger] row[j]).finite())
            ==> !row[out.digest_peak_idx as int].less(row[i]),
        out.digest_peak_idx < times_ms.len() ==> out.digest_peak_ms
            == times_ms[out.digest_peak_idx as int],
        out.digest_min == peaks::lowest_of(row) && out.digest_max == peaks::highest_of(row),
{
    if forall|j: int| 0 <= j < row.len() ==> (#[trigger] row[j]).finite() {
        peaks::peaks_are_highest(row, out.digest_peak_idx as int);
    }
}

/// The first items of a list stand as they do in it, and so do the last, which end with it.
/// There are as many as are asked for, or all.
pub proof fn ends_of_lists_are_kept<T>(items: Seq<T>, n: int, i: int)
    requires
        0 <= n,
    ensures
        first_of(items, n).len() == (if items.len() < n {
            items.len() as int
        } else {
            n
        }),
        last_of(items, n).len() == first_of(items, n).len(),
        0 <= i < first_of(items, n).len() ==> first_of(items, n)[i] == items[i],
        0 <= i < last_of(items, n).len() ==> last_of(items, n)[last_of(items, n).len() - 1 - i]
            == items[items.len() - 1 - i],
{
}

} // verus!
