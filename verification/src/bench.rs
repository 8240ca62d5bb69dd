//! Repeated runs over one simfile.

use crate::analyze::{parse_kernel_target, parse_kernel_type};
use crate::analyze;
use crate::audio::OggDecode;
use crate::model::{BiasCfg, BiasKernel, KernelTarget};
use crate::number;
use crate::number::{Real, THOUSAND};
use crate::numeric::{Meaning, Numerics, Place, Term};
use crate::paths::SimPath;
use crate::peaks;
use crate::peaks::{highest, lowest};
use crate::song;
use crate::song::{resolve_song_music, LoadFault, SongSummary};
use crate::stats;
use crate::stats::mean;
use crate::text::{copy_of, join2, join4};
use vstd::prelude::*;

verus! {

/// The settings of the estimates.
pub fn parse_bias_cfg(
    fingerprint_ms: Real,
    window_ms: Real,
    step_ms: Real,
    magic_offset_ms: Real,
    kernel_target: &str,
    kernel_type: &str,
    full_spectrogram: bool,
) -> (out: Result<BiasCfg, String>)
    ensures
        match out {
            Ok(cfg) => {
                &&& cfg.fingerprint_ms == fingerprint_ms
                &&& cfg.window_ms == window_ms
                &&& cfg.step_ms == step_ms
                &&& cfg.magic_offset_ms == magic_offset_ms
                &&& analyze::kernel_target_of(kernel_target@) == Some(cfg.kernel_target)
                &&& analyze::kernel_type_of(kernel_type@) == Some(cfg.kernel_type)
                &&& cfg.full_spectrogram == full_spectrogram
            },
            Err(e) => if analyze::kernel_target_of(kernel_target@) is None {
                e@ == "invalid kernel target: "@ + kernel_target@
            } else {
                analyze::kernel_type_of(kernel_type@) is None && e@ == "invalid kernel type: "@
                    + kernel_type@
            },
        },
{
    let target: KernelTarget = match parse_kernel_target(kernel_target) {
        Ok(target) => target,
        Err(e) => {
            return Err(e);
        },
    };
    let kernel: BiasKernel = match parse_kernel_type(kernel_type) {
        Ok(kernel) => kernel,
        Err(e) => {
            return Err(e);
        },
    };
    Ok(
        BiasCfg {
            fingerprint_ms,
            window_ms,
            step_ms,
            magic_offset_ms,
            kernel_target: target,
            kernel_type: kernel,
            full_spectrogram,
        },
    )
}

/// Whether the chart at `k` could be estimated in the audio.
pub open spec fn went_well<S: Fn(usize, &OggDecode) -> Result<(), String>>(
    estimate: S,
    sound: OggDecode,
    k: int,
) -> bool {
    exists|done: Result<(), String>| #[trigger]
        call_ensures(estimate, (k as usize, &sound), done) && done is Ok
}

/// Whether every one of the first `n` charts could be estimated.
pub open spec fn estimated<S: Fn(usize, &OggDecode) -> Result<(), String>>(
    estimate: S,
    sound: OggDecode,
    n: int,
) -> bool {
    forall|k: int| 0 <= k < n ==> #[trigger] went_well(estimate, sound, k)
}

/// What comes of the charts of a song whose audio was decoded.
pub open spec fn charts_estimated<S: Fn(usize, &OggDecode) -> Result<(), String>>(
    estimate: S,
    sound: OggDecode,
    charts: int,
    out: Result<(usize, usize), String>,
) -> bool {
    match out {
        Ok(counts) => estimated(estimate, sound, charts) && counts.0 == charts && counts.1 == 1,
        Err(e) => exists|k: int, why: String|
            0 <= k < charts && estimated(estimate, sound, k) && #[trigger] call_ensures(
                estimate,
                (k as usize, &sound),
                Err::<(), String>(why),
            ) && e@ == "bias estimation failed: "@ + why@,
    }
}

/// What comes of one run over a simfile that was loaded.
pub open spec fn song_ran<
    R: Fn(&str) -> Option<SimPath>,
    D: Fn(&SimPath) -> Result<OggDecode, String>,
    S: Fn(usize, &OggDecode) -> Result<(), String>,
>(
    simfile: SimPath,
    song: SongSummary,
    lookup: R,
    decode: D,
    estimate: S,
    out: Result<(usize, usize), String>,
) -> bool {
    exists|audio: Result<SimPath, String>| #[trigger]
        song::song_audio(simfile, song, lookup, audio) && match audio {
            Err(e) => out is Err && out->Err_0@ == e@,
            Ok(path) => exists|decoded: Result<OggDecode, String>| #[trigger]
                call_ensures(decode, (&path,), decoded) && match decoded {
                    Err(e) => out is Err && out->Err_0@ == "audio decode failed for "@ + path.text@
                        + ": "@ + e@,
                    Ok(sound) => charts_estimated(
                        estimate,
                        sound,
                        song.charts.len() as int,
                        out,
                    ),
                },
        }
}

/// Estimates the charts of a song, one after another.
fn estimate_charts<S: Fn(usize, &OggDecode) -> Result<(), String>>(
    charts: usize,
    sound: &OggDecode,
    estimate: &S,
) -> (out: Result<(usize, usize), String>)
    requires
        forall|i: usize, sound: &OggDecode|
            i < charts ==> #[trigger] call_requires(estimate, (i, sound)),
    ensures
        charts_estimated(*estimate, *sound, charts as int, out),
{
    let mut i: usize = 0;
    while i < charts
        invariant
            i <= charts,
            forall|i: usize, sound: &OggDecode|
                i < charts ==> #[trigger] call_requires(estimate, (i, sound)),
            estimated(*estimate, *sound, i as int),
        decreases charts - i,
    {
        let done: Result<(), String> = estimate(i, sound);
        assert(call_ensures(estimate, (i, sound), done));
        match done {
            Ok(()) => {
                assert(went_well(*estimate, *sound, i as int)) by {
                    assert(call_ensures(*estimate, (i as int as usize, sound), done));
                }
            },
            Err(why) => {
                assert(call_ensures(estimate, (i as int as usize, sound), Err::<(), String>(why)));
                return Err(join2("bias estimation failed: ", &why));
            },
        }
        i += 1;
    }
    Ok((charts, 1))
}

/// One run over a simfile: it is loaded, its audio is looked up and decoded, and
/// each of its charts is estimated. Gives the number of charts and of audio files.
pub fn run_once<
    L: Fn() -> Result<SongSummary, LoadFault>,
    R: Fn(&str) -> Option<SimPath>,
    D: Fn(&SimPath) -> Result<OggDecode, String>,
    S: Fn(usize, &OggDecode) -> Result<(), String>,
>(simfile: &SimPath, load: &L, lookup: &R, decode: &D, estimate: &S) -> (out: Result<
    (usize, usize),
    String,
>)
    requires
        call_requires(load, ()),
        forall|t: &str| #[trigger] call_requires(lookup, (t,)),
        forall|p: &SimPath| #[trigger] call_requires(decode, (p,)),
        song::charts_can_be_asked_for(*load, *estimate),
    ensures
        exists|loaded: Result<SongSummary, LoadFault>| #[trigger]
            call_ensures(load, (), loaded) && match loaded {
                Err(LoadFault::Read(e)) => out is Err && out->Err_0@ == "read simfile "@
                    + simfile.text@ + " failed: "@ + e@,
                Err(LoadFault::Parse(e)) => out is Err && out->Err_0@ == "rssp analyze failed: "@
                    + e@,
                Ok(song) => song_ran(*simfile, song, *lookup, *decode, *estimate, out),
            },
{
    let loaded: Result<SongSummary, LoadFault> = load();
    assert(call_ensures(load, (), loaded));
    let song: SongSummary = match loaded {
        Ok(song) => song,
        Err(LoadFault::Read(e)) => {
            return Err(join4("read simfile ", &simfile.text, " failed: ", &e));
        },
        Err(LoadFault::Parse(e)) => {
            return Err(join2("rssp analyze failed: ", &e));
        },
    };
    assert(song::loads(*load, song));
    let audio: Result<SimPath, String> = resolve_song_music(simfile, &song, lookup);
    assert(song::song_audio(*simfile, song, *lookup, audio));
    let path: SimPath = match audio {
        Ok(path) => path,
        Err(e) => {
            return Err(e);
        },
    };
    let decoded: Result<OggDecode, String> = decode(&path);
    assert(call_ensures(decode, (&path,), decoded));
    match decoded {
        Ok(sound) => estimate_charts(song.charts.len(), &sound, estimate),
        Err(e) => Err(join4("audio decode failed for ", &path.text, ": ", &e)),
    }
}

/// Why no runs are made, if none are.
pub open spec fn bench_fault(iterations: usize, is_file: bool, simfile: Seq<char>) -> Option<
    Seq<char>,
> {
    if iterations == 0 {
        Some("iterations must be >= 1"@)
    } else if !is_file {
        Some("simfile path is not a file: "@ + simfile)
    } else {
        None
    }
}

pub fn check_bench(iterations: usize, is_file: bool, simfile: &SimPath) -> (out: Result<(), String>)
    ensures
        match out {
            Ok(()) => bench_fault(iterations, is_file, simfile.text@) is None,
            Err(e) => bench_fault(iterations, is_file, simfile.text@) == Some(e@),
        },
{
    if iterations == 0 {
        return Err("iterations must be >= 1".to_owned());
    }
    if !is_file {
        return Err(join2("simfile path is not a file: ", &simfile.text));
    }
    Ok(())
}

// ---------------------------------------------------------------------------
// What the runs took
// ---------------------------------------------------------------------------

/// What one run took, in seconds, and what it came across.
#[derive(Debug, Clone, Copy)]
pub struct RunSample {
    pub read_simfile: Real,
    pub analyze_parse: Real,
    pub decode_audio: Real,
    pub bias_estimation: Real,
    pub total: Real,
    pub chart_count: usize,
    pub decoded_audio_files: usize,
}

/// A part of a run that is timed.
#[derive(Debug, Clone, Copy, PartialEq, Eq, Structural)]
pub enum Phase {
    ReadSimfile,
    AnalyzeParse,
    DecodeAudio,
    BiasEstimation,
    Total,
}

impl RunSample {
    pub open spec fn spent(self, phase: Phase) -> Real {
        match phase {
            Phase::ReadSimfile => self.read_simfile,
            Phase::AnalyzeParse => self.analyze_parse,
            Phase::DecodeAudio => self.decode_audio,
            Phase::BiasEstimation => self.bias_estimation,
            Phase::Total => self.total,
        }
    }

    fn seconds(&self, phase: Phase) -> (out: Real)
        ensures
            out == self.spent(phase),
    {
        match phase {
            Phase::ReadSimfile => self.read_simfile,
            Phase::AnalyzeParse => self.analyze_parse,
            Phase::DecodeAudio => self.decode_audio,
            Phase::BiasEstimation => self.bias_estimation,
            Phase::Total => self.total,
        }
    }
}

/// What is to be done next: a run whose sample is thrown away, or one whose sample is
/// kept, or nothing.
#[derive(Debug, Clone, Copy, PartialEq, Eq, Structural)]
pub enum NextRun {
    WarmUp,
    Sample,
    End,
}

/// The runs that are left, and the samples that were kept.
pub struct BenchRuns {
    pub warmups_left: usize,
    pub samples_left: usize,
    pub samples: Vec<RunSample>,
}

impl BenchRuns {
    pub fn new(warmup: usize, iterations: usize) -> (out: BenchRuns)
        ensures
            out.warmups_left == warmup,
            out.samples_left == iterations,
            out.samples@.len() == 0,
    {
        BenchRuns { warmups_left: warmup, samples_left: iterations, samples: Vec::new() }
    }

    /// All runs that are thrown away come first.
    pub open spec fn next(self) -> NextRun {
        if self.warmups_left > 0 {
            NextRun::WarmUp
        } else if self.samples_left > 0 {
            NextRun::Sample
        } else {
            NextRun::End
        }
    }

    pub fn next_run(&self) -> (out: NextRun)
        ensures
            out == self.next(),
    {
        if self.warmups_left > 0 {
            NextRun::WarmUp
        } else if self.samples_left > 0 {
            NextRun::Sample
        } else {
            NextRun::End
        }
    }

    /// Whether `after` is what is left once the next run gave a sample.
    pub open spec fn takes(self, sample: RunSample, after: BenchRuns) -> bool {
        match self.next() {
            NextRun::WarmUp => after == (BenchRuns {
                warmups_left: (self.warmups_left - 1) as usize,
                ..self
            }),
            NextRun::Sample => {
                &&& after.warmups_left == 0
                &&& after.samples_left == self.samples_left - 1
                &&& after.samples@ == self.samples@.push(sample)
            },
            NextRun::End => false,
        }
    }

    /// Takes the sample of a run.
    pub fn record(&mut self, sample: RunSample)
        requires
            !(old(self).next() is End),
        ensures
            old(self).takes(sample, *final(self)),
    {
        if self.warmups_left > 0 {
            self.warmups_left = self.warmups_left - 1;
        } else {
            self.samples_left = self.samples_left - 1;
            self.samples.push(sample);
        }
    }
}

/// Whether these are the runs that are left, before the first sample and behind each.
pub open spec fn recorded(
    warmup: usize,
    iterations: usize,
    given: Seq<RunSample>,
    runs: Seq<BenchRuns>,
) -> bool {
    &&& runs.len() == given.len() + 1
    &&& runs[0].warmups_left == warmup
    &&& runs[0].samples_left == iterations
    &&& runs[0].samples@.len() == 0
    &&& forall|k: int| 0 <= k < given.len() ==> #[trigger] recorded_at(given, runs, k)
}

pub open spec fn recorded_at(given: Seq<RunSample>, runs: Seq<BenchRuns>, k: int) -> bool {
    runs[k].takes(given[k], runs[k + 1])
}

/// There are as many runs as are asked for, warm-ups and others, and where none is left the
/// samples of all but the warm-ups were kept, in order.
pub proof fn warmups_are_thrown_away(
    warmup: usize,
    iterations: usize,
    given: Seq<RunSample>,
    runs: Seq<BenchRuns>,
)
    requires
        recorded(warmup, iterations, given, runs),
        runs.last().next() is End,
    ensures
        given.len() == warmup + iterations,
        runs.last().samples@ == given.skip(warmup as int),
{
    lemma_recorded(warmup, iterations, given, runs, given.len() as int);
    assert(given.take(given.len() as int) =~= given);
    assert(runs.last().samples@ =~= given.skip(warmup as int));
}

proof fn lemma_recorded(
    warmup: usize,
    iterations: usize,
    given: Seq<RunSample>,
    runs: Seq<BenchRuns>,
    n: int,
)
    requires
        recorded(warmup, iterations, given, runs),
        0 <= n <= given.len(),
    ensures
        n <= warmup ==> runs[n].warmups_left == warmup - n && runs[n].samples_left == iterations
            && runs[n].samples@.len() == 0,
        n > warmup ==> runs[n].warmups_left == 0 && runs[n].samples_left == iterations - (n
            - warmup) && runs[n].samples@ == given.take(n).skip(warmup as int),
    decreases n,
{
    if n > 0 {
        lemma_recorded(warmup, iterations, given, runs, n - 1);
        assert(recorded_at(given, runs, n - 1));
        if n > warmup {
            assert(runs[n].samples@ =~= given.take(n).skip(warmup as int));
        }
    }
}

/// What a phase took, over all runs.
#[derive(Debug, Clone, Copy, PartialEq, Eq, Structural)]
pub struct PhaseStats {
    pub avg_ms: Real,
    pub min_ms: Real,
    pub max_ms: Real,
}

#[derive(Debug, Clone, Copy, PartialEq, Eq, Structural)]
pub struct TimingSummary {
    pub read_simfile_ms: PhaseStats,
    pub analyze_parse_ms: PhaseStats,
    pub decode_audio_ms: PhaseStats,
    pub bias_estimation_ms: PhaseStats,
    pub total_ms: PhaseStats,
}

#[derive(Debug, Clone)]
pub struct BenchReport {
    pub tool: String,
    pub version: String,
    pub mode: String,
    pub simfile_path: String,
    pub iterations: usize,
    pub warmup: usize,
    pub chart_count: usize,
    pub decoded_audio_files: usize,
    pub timings: TimingSummary,
}

/// What a phase took in each run, in milliseconds.
pub open spec fn times_spent(m: Meaning, runs: Seq<RunSample>, phase: Phase) -> Seq<Real> {
    runs.map_values(|run: RunSample| m.times(run.spent(phase), Real { bits: THOUSAND }))
}

/// The mean, the least and the most of some times; zero where there are none.
pub open spec fn phase_of(m: Meaning, times: Seq<Real>) -> PhaseStats {
    PhaseStats {
        avg_ms: if times.len() == 0 {
            number::zero()
        } else {
            stats::mean_of(m, times)
        },
        min_ms: if peaks::lowest_of(times).finite() {
            peaks::lowest_of(times)
        } else {
            number::zero()
        },
        max_ms: peaks::highest_of(times).raised(number::zero()),
    }
}

pub fn summarize_phase<C: Fn(Term) -> Real, L: Fn(u32, usize) -> Place>(
    num: &Numerics<C, L>,
    runs: &Vec<RunSample>,
    phase: Phase,
) -> (out: PhaseStats)
    requires
        num.ready(),
    ensures
        forall|m: Meaning| #[trigger]
            num.follows(m) ==> out == phase_of(m, times_spent(m, runs@, phase)),
{
    let mut times: Vec<Real> = Vec::new();
    let mut i: usize = 0;
    while i < runs.len()
        invariant
            i <= runs.len(),
            times.len() == i,
            num.ready(),
            forall|m: Meaning, k: int|
                #![trigger num.follows(m), times@[k]]
                num.follows(m) && 0 <= k < i ==> times@[k] == m.times(
                    runs@[k].spent(phase),
                    Real { bits: THOUSAND },
                ),
        decreases runs.len() - i,
    {
        times.push(num.times(runs[i].seconds(phase), Real { bits: THOUSAND }));
        i += 1;
    }
    assert forall|m: Meaning| #[trigger] num.follows(m) implies times@ == times_spent(
        m,
        runs@,
        phase,
    ) by {
        assert(times@ =~= times_spent(m, runs@, phase));
    }
    let zero: Real = Real { bits: 0 };
    let least: Real = lowest(&times);
    PhaseStats {
        avg_ms: if times.len() == 0 {
            zero
        } else {
            mean(num, &times)
        },
        min_ms: if least.is_finite() {
            least
        } else {
            zero
        },
        max_ms: highest(&times).at_least(zero),
    }
}

pub open spec fn summary_of(m: Meaning, runs: Seq<RunSample>) -> TimingSummary {
    TimingSummary {
        read_simfile_ms: phase_of(m, times_spent(m, runs, Phase::ReadSimfile)),
        analyze_parse_ms: phase_of(m, times_spent(m, runs, Phase::AnalyzeParse)),
        decode_audio_ms: phase_of(m, times_spent(m, runs, Phase::DecodeAudio)),
        bias_estimation_ms: phase_of(m, times_spent(m, runs, Phase::BiasEstimation)),
        total_ms: phase_of(m, times_spent(m, runs, Phase::Total)),
    }
}

pub fn summarize_runs<C: Fn(Term) -> Real, L: Fn(u32, usize) -> Place>(
    num: &Numerics<C, L>,
    runs: &Vec<RunSample>,
) -> (out: TimingSummary)
    requires
        num.ready(),
    ensures
        forall|m: Meaning| #[trigger] num.follows(m) ==> out == summary_of(m, runs@),
{
    TimingSummary {
        read_simfile_ms: summarize_phase(num, runs, Phase::ReadSimfile),
        analyze_parse_ms: summarize_phase(num, runs, Phase::AnalyzeParse),
        decode_audio_ms: summarize_phase(num, runs, Phase::DecodeAudio),
        bias_estimation_ms: summarize_phase(num, runs, Phase::BiasEstimation),
        total_ms: summarize_phase(num, runs, Phase::Total),
    }
}

/// The report of some runs: what they took, and what the last one came across.
pub fn bench_report<C: Fn(Term) -> Real, L: Fn(u32, usize) -> Place>(
    num: &Numerics<C, L>,
    version: &str,
    simfile: &SimPath,
    iterations: usize,
    warmup: usize,
    runs: &Vec<RunSample>,
) -> (out: Result<BenchReport, String>)
    requires
        num.ready(),
    ensures
        match out {
            Err(e) => runs.len() == 0 && e@ == "internal bench error: no runs recorded"@,
            Ok(report) => {
                &&& runs.len() > 0
                &&& report.tool@ == "rnon"@
                &&& report.version@ == version@
                &&& report.mode@ == "bench-analyze"@
                &&& report.simfile_path@ == simfile.text@
                &&& report.iterations == iterations
                &&& report.warmup == warmup
                &&& report.chart_count == runs@.last().chart_count
                &&& report.decoded_audio_files == runs@.last().decoded_audio_files
                &&& forall|m: Meaning| #[trigger]
                    num.follows(m) ==> report.timings == summary_of(m, runs@)
            },
        },
{
    if runs.len() == 0 {
        return Err("internal bench error: no runs recorded".to_owned());
    }
    let last: &RunSample = &runs[runs.len() - 1];
    Ok(
        BenchReport {
            tool: "rnon".to_owned(),
            version: version.to_owned(),
            mode: "bench-analyze".to_owned(),
            simfile_path: copy_of(&simfile.text),
            iterations,
            warmup,
            chart_count: last.chart_count,
            decoded_audio_files: last.decoded_audio_files,
            timings: summarize_runs(num, runs),
        },
    )
}

/// Where all times are numbers and none is less than zero, none is less than the least
/// or more than the most.
pub proof fn phases_bound_their_times(m: Meaning, times: Seq<Real>, i: int)
    requires
        0 <= i < times.len(),
        forall|k: int|
            0 <= k < times.len() ==> (#[trigger] times[k]).finite() && number::zero().at_most(
                times[k],
            ),
    ensures
        phase_of(m, times).min_ms.at_most(times[i]),
        times[i].at_most(phase_of(m, times).max_ms),
{
    lemma_extremes(times, i);
}

proof fn lemma_extremes(times: Seq<Real>, i: int)
    requires
        0 <= i < times.len(),
        forall|k: int| 0 <= k < times.len() ==> (#[trigger] times[k]).finite(),
    ensures
        peaks::lowest_of(times).finite(),
        peaks::highest_of(times).finite(),
        peaks::lowest_of(times).at_most(times[i]),
        times[i].at_most(peaks::highest_of(times)),
    decreases times.len(),
{
    let before = times.drop_last();
    assert(times.last() == times[times.len() - 1]);
    if before.len() > 0 {
        lemma_extremes(before, if i < before.len() {
            i
        } else {
            0
        });
    } else {
        assert(peaks::lowest_of(before) == number::above_all());
        assert(peaks::highest_of(before) == number::below_all());
    }
}

/// What is said of a phase is said of the times that it took in all runs, in milliseconds:
/// their mean, the least of them and the most. Nothing is said of one phase for what another
/// took.
pub proof fn phases_are_told_apart(m: Meaning, runs: Seq<RunSample>, i: int)
    requires
        0 <= i < runs.len(),
    ensures
        ({
            let thousand = Real { bits: 0x408f_4000_0000_0000 };
            let told = summary_of(m, runs);
            let of = |time: spec_fn(RunSample) -> Real|
                Seq::new(runs.len(), |k: int| m.times(time(runs[k]), thousand));
            &&& told.read_simfile_ms == phase_of(m, of(|run: RunSample| run.read_simfile))
            &&& told.analyze_parse_ms == phase_of(m, of(|run: RunSample| run.analyze_parse))
            &&& told.decode_audio_ms == phase_of(m, of(|run: RunSample| run.decode_audio))
            &&& told.bias_estimation_ms == phase_of(m, of(|run: RunSample| run.bias_estimation))
            &&& told.total_ms == phase_of(m, of(|run: RunSample| run.total))
        }),
{
    let thousand = Real { bits: 0x408f_4000_0000_0000 };
    let of = |time: spec_fn(RunSample) -> Real|
        Seq::new(runs.len(), |k: int| m.times(time(runs[k]), thousand));
    assert(of(|run: RunSample| run.read_simfile) =~= times_spent(m, runs, Phase::ReadSimfile));
    assert(of(|run: RunSample| run.analyze_parse) =~= times_spent(m, runs, Phase::AnalyzeParse));
    assert(of(|run: RunSample| run.decode_audio) =~= times_spent(m, runs, Phase::DecodeAudio));
    assert(of(|run: RunSample| run.bias_estimation) =~= times_spent(
        m,
        runs,
        Phase::BiasEstimation,
    ));
    assert(of(|run: RunSample| run.total) =~= times_spent(m, runs, Phase::Total));
}

/// The least and the most of some times are among them, and the mean is their sum over their
/// count. Where there are no times, all are zero.
pub proof fn phases_are_told_by_their_times(m: Meaning, times: Seq<Real>)
    requires
        forall|k: int|
            0 <= k < times.len() ==> (#[trigger] times[k]).finite() && number::zero().at_most(
                times[k],
            ),
    ensures
        ({
            let told = phase_of(m, times);
            &&& times.len() == 0 ==> told.avg_ms == number::zero() && told.min_ms
                == number::zero() && told.max_ms.place() == 0
            &&& times.len() > 0 ==> {
                &&& times.contains(told.min_ms)
                &&& exists|k: int| 0 <= k < times.len() && told.max_ms.alike(#[trigger] times[k])
                &&& told.avg_ms == m.over(
                    stats::sum_of(m, times),
                    m.whole(times.len() as int),
                )
            }
        }),
{
    peaks::extremes_are_values(times);
    assert(number::above_all().place() == 0x7ff0_0000_0000_0000int);
    assert(number::below_all().place() == -0x7ff0_0000_0000_0000int);
    if times.len() > 0 {
        assert(!times[0].less(peaks::lowest_of(times)));
        assert(!peaks::highest_of(times).less(times[0]));
        assert(times[0].finite());
        let k = choose|k: int| 0 <= k < times.len() && times[k] == peaks::highest_of(times);
        assert(number::zero().at_most(times[k]));
        assert(phase_of(m, times).max_ms.alike(times[k]));
    }
}

/// Runs are made just where at least one is asked for and the simfile is a file.
pub proof fn runs_need_a_number_and_a_file(iterations: usize, is_file: bool, simfile: Seq<char>)
    ensures
        bench_fault(iterations, is_file, simfile) is None <==> iterations >= 1 && is_file,
        iterations == 0 ==> bench_fault(iterations, is_file, simfile) == Some(
            "iterations must be >= 1"@,
        ),
        iterations > 0 && !is_file ==> bench_fault(iterations, is_file, simfile) == Some(
            "simfile path is not a file: "@ + simfile,
        ),
{
}

/// A run that goes well has decoded one file and estimated every chart of the song in it.
pub proof fn runs_estimate_every_chart<
    R: Fn(&str) -> Option<SimPath>,
    D: Fn(&SimPath) -> Result<OggDecode, String>,
    S: Fn(usize, &OggDecode) -> Result<(), String>,
>(
    simfile: SimPath,
    song: SongSummary,
    lookup: R,
    decode: D,
    estimate: S,
    counts: (usize, usize),
    k: usize,
) -> (heard: (SimPath, OggDecode))
    requires
        song_ran(
            simfile,
            song,
            lookup,
            decode,
            estimate,
            Ok::<(usize, usize), String>(counts),
        ),
    ensures
        counts == (song.charts.len(), 1usize),
        song::song_audio(simfile, song, lookup, Ok::<SimPath, String>(heard.0)),
        call_ensures(decode, (&heard.0,), Ok::<OggDecode, String>(heard.1)),
        k < song.charts.len() ==> exists|done: Result<(), String>| #[trigger]
            call_ensures(estimate, (k, &heard.1), done) && done is Ok,
{
    let out = Ok::<(usize, usize), String>(counts);
    let audio = choose|audio: Result<SimPath, String>| #[trigger]
        song::song_audio(simfile, song, lookup, audio) && match audio {
            Err(e) => out is Err && out->Err_0@ == e@,
            Ok(path) => exists|decoded: Result<OggDecode, String>| #[trigger]
                call_ensures(decode, (&path,), decoded) && match decoded {
                    Err(e) => out is Err && out->Err_0@ == "audio decode failed for "@ + path.text@
                        + ": "@ + e@,
                    Ok(sound) => charts_estimated(
                        estimate,
                        sound,
                        song.charts.len() as int,
                        out,
                    ),
                },
        };
    let path = audio->Ok_0;
    let decoded = choose|decoded: Result<OggDecode, String>| #[trigger]
        call_ensures(decode, (&path,), decoded) && match decoded {
            Err(e) => out is Err && out->Err_0@ == "audio decode failed for "@ + path.text@ + ": "@
                + e@,
            Ok(sound) => charts_estimated(estimate, sound, song.charts.len() as int, out),
        };
    if k < song.charts.len() {
        assert(went_well(estimate, decoded->Ok_0, k as int));
    }
    (path, decoded->Ok_0)
}

/// Runs that are thrown away come first, then those that are kept, as many of each as there
/// are left; a run that is thrown away leaves the samples as they are, and one that is kept
/// stands behind those before it.
pub proof fn warm_ups_come_first(runs: BenchRuns, sample: RunSample, after: BenchRuns)
    ensures
        runs.next() is WarmUp <==> runs.warmups_left > 0,
        runs.next() is End <==> runs.warmups_left == 0 && runs.samples_left == 0,
        runs.takes(sample, after) ==> {
            &&& runs.warmups_left > 0 ==> after.warmups_left == runs.warmups_left - 1
                && after.samples_left == runs.samples_left && after.samples == runs.samples
            &&& runs.warmups_left == 0 ==> after.warmups_left == 0 && after.samples_left
                == runs.samples_left - 1 && after.samples@ == runs.samples@.push(sample)
        },
{
}

/// A run that fails tells why: there is no audio, it cannot be decoded, or the first chart that
/// cannot be estimated tells.
pub proof fn runs_tell_why_they_fail<
    R: Fn(&str) -> Option<SimPath>,
    D: Fn(&SimPath) -> Result<OggDecode, String>,
    S: Fn(usize, &OggDecode) -> Result<(), String>,
>(
    simfile: SimPath,
    song: SongSummary,
    lookup: R,
    decode: D,
    estimate: S,
    e: String,
)
    requires
        song_ran(simfile, song, lookup, decode, estimate, Err::<(usize, usize), String>(e)),
    ensures
        ({
            ||| exists|audio: Result<SimPath, String>| #[trigger]
                song::song_audio(simfile, song, lookup, audio) && audio is Err && audio->Err_0@
                    == e@
            ||| exists|path: SimPath, decoded: Result<OggDecode, String>| #[trigger]
                call_ensures(decode, (&path,), decoded) && decoded is Err && e@
                    == "audio decode failed for "@ + path.text@ + ": "@ + decoded->Err_0@
            ||| exists|k: int, sound: OggDecode, why: String| #[trigger]
                call_ensures(estimate, (k as usize, &sound), Err::<(), String>(why)) && 0 <= k
                    < song.charts.len() && e@ == "bias estimation failed: "@ + why@
        }),
{
    let out = Err::<(usize, usize), String>(e);
    let audio = choose|audio: Result<SimPath, String>| #[trigger]
        song::song_audio(simfile, song, lookup, audio) && match audio {
            Err(e) => out is Err && out->Err_0@ == e@,
            Ok(path) => exists|decoded: Result<OggDecode, String>| #[trigger]
                call_ensures(decode, (&path,), decoded) && match decoded {
                    Err(e) => out is Err && out->Err_0@ == "audio decode failed for "@ + path.text@
                        + ": "@ + e@,
                    Ok(sound) => charts_estimated(
                        estimate,
                        sound,
                        song.charts.len() as int,
                        out,
                    ),
                },
        };
    if audio is Ok {
        let path = audio->Ok_0;
        let decoded = choose|decoded: Result<OggDecode, String>| #[trigger]
            call_ensures(decode, (&path,), decoded) && match decoded {
                Err(e) => out is Err && out->Err_0@ == "audio decode failed for "@ + path.text@
                    + ": "@ + e@,
                Ok(sound) => charts_estimated(estimate, sound, song.charts.len() as int, out),
            };
        if decoded is Ok {
            let (k, why) = choose|k: int, why: String|
                0 <= k < song.charts.len() && estimated(estimate, decoded->Ok_0, k) && #[trigger]
                    call_ensures(
                    estimate,
                    (k as usize, &decoded->Ok_0),
                    Err::<(), String>(why),
                ) && e@ == "bias estimation failed: "@ + why@;
            assert(call_ensures(
                estimate,
                (k as usize, &decoded->Ok_0),
                Err::<(), String>(why),
            ));
        }
    }
}

} // verus!
