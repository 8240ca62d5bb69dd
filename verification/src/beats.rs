//! The windows round the beats of a chart from which its fingerprint is taken.

use crate::model::BiasCfg;
use crate::number;
use crate::number::{Real, HALF, INFINITE, SIGN, THOUSAND, THOUSANDTH};
use crate::numeric::{Meaning, Numerics, Place, Term};
use vstd::prelude::*;

verus! {

/// How many beats are looked at, at most.
pub const BEAT_LIMIT: usize = 200_000;

/// The sizes that an estimate works with. Columns of the spectrogram stand
/// `nstep` samples apart and are made of `nperseg` samples each.
#[derive(Debug, Clone, Copy, PartialEq, Eq, Structural)]
pub struct Setup {
    pub nperseg: usize,
    pub nstep: usize,
    pub fp_size: usize,
    pub n_freq_taps: usize,
    pub n_time_taps: isize,
    pub actual_step_sec: Real,
    pub spectrogram_offset: Real,
}

impl Setup {
    /// The bounds that every setup that was built keeps.
    pub open spec fn wf(self) -> bool {
        &&& self.nperseg >= 8
        &&& self.nstep >= 1
        &&& self.fp_size >= 8
        &&& self.fp_size % 2 == 0
        &&& self.n_freq_taps == 1 + self.nperseg / 2
        &&& self.n_time_taps >= 0
    }
}

/// Why no spectrogram can be taken of so many samples, if none can.
pub open spec fn window_fault(audio_len: usize, sample_rate_hz: u32, window: usize) -> Option<
    Seq<char>,
> {
    if sample_rate_hz == 0 {
        Some("sample rate is zero"@)
    } else if window < 8 {
        Some("spectrogram window is too small"@)
    } else if audio_len <= window {
        Some("audio too short for spectrogram window"@)
    } else {
        None
    }
}

/// The samples of a window and those between two windows, of which there is at
/// least one.
pub fn window_sizes(audio_len: usize, sample_rate_hz: u32, window: usize, step: usize) -> (out:
    Result<(usize, usize), String>)
    ensures
        match out {
            Ok(sizes) => {
                &&& window_fault(audio_len, sample_rate_hz, window) is None
                &&& sizes.0 == window
                &&& sizes.1 == (if step == 0 {
                    1
                } else {
                    step
                })
            },
            Err(e) => window_fault(audio_len, sample_rate_hz, window) == Some(e@),
        },
{
    if sample_rate_hz == 0 {
        return Err("sample rate is zero".to_owned());
    }
    if window < 8 {
        return Err("spectrogram window is too small".to_owned());
    }
    if audio_len <= window {
        return Err("audio too short for spectrogram window".to_owned());
    }
    Ok(
        (
            window,
            if step == 0 {
                1
            } else {
                step
            },
        ),
    )
}

/// Whether `s` says which whole number is the nearest.
pub open spec fn rounds_as<R: Fn(Real) -> isize>(nearest: R, s: spec_fn(Real) -> isize) -> bool {
    forall|v: Real, n: isize| #[trigger] call_ensures(nearest, (v,), n) ==> n == s(v)
}

/// Whether `s` says which whole number a number is cut to.
pub open spec fn cuts_as<W: Fn(Real) -> usize>(floor: W, s: spec_fn(Real) -> usize) -> bool {
    forall|v: Real, n: usize| #[trigger] call_ensures(floor, (v,), n) ==> n == s(v)
}

/// What a setup is built from. A fingerprint reaches `half` columns to each side of
/// a beat.
#[derive(Debug, Clone, Copy, PartialEq, Eq, Structural)]
pub struct Measures {
    pub nperseg: usize,
    pub nstep: usize,
    pub half: isize,
    pub actual_step_sec: Real,
    pub spectrogram_offset: Real,
}

/// How many samples there are in some milliseconds.
pub open spec fn samples_in(
    m: Meaning,
    floor: spec_fn(Real) -> usize,
    sample_rate_hz: u32,
    ms: Real,
) -> usize {
    floor(m.times(m.times(m.whole(sample_rate_hz as int), ms), Real { bits: THOUSANDTH }))
}

/// What is measured at a rate.
pub open spec fn measures_of(
    m: Meaning,
    floor: spec_fn(Real) -> usize,
    nearest: spec_fn(Real) -> isize,
    sample_rate_hz: u32,
    cfg: BiasCfg,
) -> Measures {
    let nperseg = samples_in(m, floor, sample_rate_hz, cfg.window_ms);
    let step = samples_in(m, floor, sample_rate_hz, cfg.step_ms);
    let nstep = if step == 0 {
        1
    } else {
        step
    };
    let actual_step_sec = m.over(m.whole(nstep as int), m.whole(sample_rate_hz as int));
    Measures {
        nperseg,
        nstep,
        half: nearest(
            m.over(m.times(cfg.fingerprint_ms, Real { bits: THOUSANDTH }), actual_step_sec),
        ),
        actual_step_sec,
        spectrogram_offset: m.times(
            m.root(Real { bits: HALF }),
            m.over(m.whole(nperseg as int), m.whole(nstep as int)),
        ),
    }
}

/// Whether this is measured of so many samples.
pub open spec fn measured<
    C: Fn(Term) -> Real,
    L: Fn(u32, usize) -> Place,
    W: Fn(Real) -> usize,
    R: Fn(Real) -> isize,
>(
    num: Numerics<C, L>,
    floor: W,
    nearest: R,
    audio_len: usize,
    sample_rate_hz: u32,
    cfg: BiasCfg,
    out: Result<Measures, String>,
) -> bool {
    match out {
        Ok(found) => {
            &&& sample_rate_hz != 0
            &&& 8 <= found.nperseg < audio_len
            &&& found.nstep >= 1
            &&& forall|m: Meaning, w: spec_fn(Real) -> usize, s: spec_fn(Real) -> isize|
                #[trigger] num.follows(m) && #[trigger] cuts_as(floor, w) && #[trigger] rounds_as(
                    nearest,
                    s,
                ) ==> found == measures_of(m, w, s, sample_rate_hz, cfg)
        },
        Err(e) => {
            &&& sample_rate_hz == 0 ==> e@ == "sample rate is zero"@
            &&& forall|m: Meaning, w: spec_fn(Real) -> usize| #[trigger]
                num.follows(m) && #[trigger] cuts_as(floor, w) ==> window_fault(
                    audio_len,
                    sample_rate_hz,
                    samples_in(m, w, sample_rate_hz, cfg.window_ms),
                ) == Some(e@)
        },
    }
}

/// Measures the windows and the fingerprint at a rate. `floor` tells the whole number
/// that a number is cut to, and `nearest` the one nearest to it.
pub fn measure_setup<
    C: Fn(Term) -> Real,
    L: Fn(u32, usize) -> Place,
    W: Fn(Real) -> usize,
    R: Fn(Real) -> isize,
>(
    num: &Numerics<C, L>,
    floor: &W,
    nearest: &R,
    audio_len: usize,
    sample_rate_hz: u32,
    cfg: &BiasCfg,
) -> (out: Result<Measures, String>)
    requires
        num.ready(),
        forall|v: Real| #[trigger] call_requires(floor, (v,)),
        forall|v: Real| #[trigger] call_requires(nearest, (v,)),
    ensures
        measured(*num, *floor, *nearest, audio_len, sample_rate_hz, *cfg, out),
{
    let rate: Real = num.value(Term::Whole(sample_rate_hz as i128));
    let thousandth: Real = Real { bits: THOUSANDTH };
    let window: usize = floor(num.times(num.times(rate, cfg.window_ms), thousandth));
    let step: usize = floor(num.times(num.times(rate, cfg.step_ms), thousandth));
    match window_sizes(audio_len, sample_rate_hz, window, step) {
        Err(e) => Err(e),
        Ok(sizes) => {
            let (nperseg, nstep): (usize, usize) = sizes;
            let actual_step_sec: Real = num.over(num.value(Term::Whole(nstep as i128)), rate);
            let fingerprint_sec: Real = num.times(cfg.fingerprint_ms, thousandth);
            let overlap: Real = num.over(
                num.count(nperseg),
                num.value(Term::Whole(nstep as i128)),
            );
            Ok(
                Measures {
                    nperseg,
                    nstep,
                    half: nearest(num.over(fingerprint_sec, actual_step_sec)),
                    actual_step_sec,
                    spectrogram_offset: num.times(
                        num.value(Term::Root(Real { bits: HALF })),
                        overlap,
                    ),
                },
            )
        },
    }
}

/// The least number of parts of size `b` that hold `a`.
pub open spec fn parts_of(a: int, b: int) -> int {
    (a + b - 1) / b
}

fn count_parts(a: usize, b: usize) -> (n: usize)
    requires
        b > 0,
    ensures
        n == parts_of(a as int, b as int),
        n <= a,
{
    let q: usize = a / b;
    let r: usize = a % b;
    proof {
        vstd::arithmetic::div_mod::lemma_fundamental_div_mod(a as int, b as int);
        assert(q <= a && (r > 0 ==> q + 1 <= a)) by (nonlinear_arith)
            requires
                a == b * q + r,
                b > 0,
                0 <= r < b,
                q >= 0,
        ;
        if r == 0 {
            assert(a + b - 1 == q * b + (b - 1)) by (nonlinear_arith)
                requires
                    a == b * q + r,
                    r == 0,
            ;
            vstd::arithmetic::div_mod::lemma_fundamental_div_mod_converse(
                a + b - 1,
                b as int,
                q as int,
                b - 1,
            );
        } else {
            assert(a + b - 1 == (q + 1) * b + (r - 1)) by (nonlinear_arith)
                requires
                    a == b * q + r,
            ;
            vstd::arithmetic::div_mod::lemma_fundamental_div_mod_converse(
                a + b - 1,
                b as int,
                q + 1,
                r - 1,
            );
        }
    }
    if r > 0 {
        q + 1
    } else {
        q
    }
}

/// The setup for some samples and what was measured.
pub open spec fn setup_of(audio_len: usize, measures: Measures) -> Setup {
    Setup {
        nperseg: measures.nperseg,
        nstep: measures.nstep,
        fp_size: (2 * measures.half) as usize,
        n_freq_taps: (1 + measures.nperseg / 2) as usize,
        n_time_taps: parts_of(audio_len - measures.nperseg, measures.nstep as int) as isize,
        actual_step_sec: measures.actual_step_sec,
        spectrogram_offset: measures.spectrogram_offset,
    }
}

/// The setup of what can be measured keeps the bounds of a setup.
pub proof fn measured_setups_are_wf(audio_len: usize, measures: Measures)
    requires
        8 <= measures.nperseg < audio_len <= isize::MAX,
        1 <= measures.nstep,
        4 <= measures.half,
    ensures
        setup_of(audio_len, measures).wf(),
{
    let a = audio_len - measures.nperseg;
    let b = measures.nstep as int;
    assert(0 <= (a + b - 1) / b <= a) by (nonlinear_arith)
        requires
            a >= 1,
            b >= 1,
    ;
}

/// Builds the setup for some samples.
pub fn build_setup(audio_len: usize, measures: &Measures) -> (out: Result<Setup, String>)
    requires
        8 <= measures.nperseg < audio_len <= isize::MAX,
        1 <= measures.nstep,
        0 <= measures.half,
    ensures
        match out {
            Ok(setup) => {
                &&& measures.half >= 4
                &&& setup.wf()
                &&& setup == setup_of(audio_len, *measures)
            },
            Err(e) => measures.half < 4 && e@ == "fingerprint size is too small"@,
        },
{
    let Measures { nperseg, nstep, half, actual_step_sec, spectrogram_offset } = *measures;
    let fp_size: usize = 2 * half as usize;
    if fp_size < 8 {
        return Err("fingerprint size is too small".to_owned());
    }
    let n_time_taps: isize = count_parts(audio_len - nperseg, nstep) as isize;
    Ok(
        Setup {
            nperseg,
            nstep,
            fp_size,
            n_freq_taps: 1 + nperseg / 2,
            n_time_taps,
            actual_step_sec,
            spectrogram_offset,
        },
    )
}

/// The columns of the spectrogram round a beat.
#[derive(Debug, Clone, Copy, PartialEq, Eq, Structural)]
pub struct BeatWindow {
    pub beat_index: usize,
    pub beat_time_sec: Real,
    pub t_s_raw: isize,
    pub t_f_raw: isize,
    pub t_s: usize,
    pub t_f: usize,
}

/// How many beats were left out, and why.
#[derive(Debug, Clone, Copy, PartialEq, Eq, Structural)]
pub struct BiasTraceSkips {
    pub too_early: usize,
    pub too_late: usize,
    pub too_soon: usize,
    pub short_window: usize,
}

impl Default for BiasTraceSkips {
    fn default() -> (out: BiasTraceSkips)
        ensures
            out.total() == 0,
            out.too_early == 0 && out.too_late == 0 && out.too_soon == 0 && out.short_window == 0,
    {
        BiasTraceSkips { too_early: 0, too_late: 0, too_soon: 0, short_window: 0 }
    }
}

impl BiasTraceSkips {
    pub open spec fn total(self) -> int {
        self.too_early + self.too_late + self.too_soon + self.short_window
    }
}

/// Where the beats that were used begin and end.
#[derive(Debug, Clone, Copy, PartialEq, Eq, Structural)]
pub struct BiasTraceLoop {
    pub beats_scanned: usize,
    pub beats_used: usize,
    pub first_beat_index: usize,
    pub last_beat_index: usize,
    pub first_beat_time_s: Real,
    pub last_beat_time_s: Real,
}

/// What is read of a beat: its time, how far behind the last beat that was let
/// through it stands, and the columns that its window would span.
#[derive(Debug, Clone, Copy, PartialEq, Eq, Structural)]
pub struct BeatReading {
    pub time: Real,
    pub gap: Real,
    pub t_s_raw: isize,
    pub t_f_raw: isize,
}

/// What the beats are held to: the length of the audio, the least gap between
/// two beats, the width of a window, and the end of the columns.
#[derive(Debug, Clone, Copy, PartialEq, Eq, Structural)]
pub struct BeatLimits {
    pub duration: Real,
    pub min_sep: Real,
    pub fp_size: usize,
    pub n_time_taps: isize,
}

/// What becomes of a beat.
#[derive(Debug, Clone, Copy, PartialEq, Eq, Structural)]
pub enum BeatFate {
    /// Its time is no finite number: the scan ends.
    NoTime,
    /// It lies before the audio.
    TooEarly,
    /// It lies behind the audio: the scan ends.
    TooLate,
    /// It follows the last beat too closely.
    TooSoon,
    /// Its window is cut short by an end of the audio.
    ShortWindow,
    /// It gives a window.
    Used,
}

/// The first column of a window: none stands before the first.
pub open spec fn clipped_start(t_s_raw: isize) -> int {
    if t_s_raw < 0 {
        0
    } else {
        t_s_raw as int
    }
}

/// The end of a window: it reaches no further than the columns do.
pub open spec fn clipped_end(t_f_raw: isize, n_time_taps: isize) -> int {
    if t_f_raw < n_time_taps {
        t_f_raw as int
    } else {
        n_time_taps as int
    }
}

impl BeatLimits {
    /// What becomes of a beat that reads so.
    pub open spec fn fate(self, reading: BeatReading) -> BeatFate {
        if !reading.time.finite() {
            BeatFate::NoTime
        } else if reading.time.less(number::zero()) {
            BeatFate::TooEarly
        } else if self.duration.less(reading.time) {
            BeatFate::TooLate
        } else if reading.gap.less(self.min_sep) {
            BeatFate::TooSoon
        } else if clipped_end(reading.t_f_raw, self.n_time_taps) - clipped_start(reading.t_s_raw)
            != self.fp_size {
            BeatFate::ShortWindow
        } else {
            BeatFate::Used
        }
    }
}

/// The window of the columns from `t_s_raw` to `t_f_raw`, if all of it lies in
/// the audio.
pub fn beat_time_to_window_taps(
    beat_index: usize,
    beat_time_sec: Real,
    t_s_raw: isize,
    t_f_raw: isize,
    fp_size: usize,
    n_time_taps: isize,
) -> (out: Option<BeatWindow>)
    ensures
        match out {
            Some(w) => {
                &&& clipped_end(t_f_raw, n_time_taps) - clipped_start(t_s_raw) == fp_size
                &&& w.beat_index == beat_index
                &&& w.beat_time_sec == beat_time_sec
                &&& w.t_s_raw == t_s_raw
                &&& w.t_f_raw == t_f_raw
                &&& w.t_s == clipped_start(t_s_raw)
                &&& w.t_f == clipped_end(t_f_raw, n_time_taps)
            },
            None => clipped_end(t_f_raw, n_time_taps) - clipped_start(t_s_raw) != fp_size,
        },
{
    let start: isize = if t_s_raw < 0 {
        0
    } else {
        t_s_raw
    };
    let end: isize = if t_f_raw < n_time_taps {
        t_f_raw
    } else {
        n_time_taps
    };
    if end < start || (end - start) as usize != fp_size {
        return None;
    }
    Some(
        BeatWindow {
            beat_index,
            beat_time_sec,
            t_s_raw,
            t_f_raw,
            t_s: start as usize,
            t_f: end as usize,
        },
    )
}

/// The windows that were found, and what was left out.
pub struct BeatWindows {
    pub windows: Vec<BeatWindow>,
    pub skips: BiasTraceSkips,
    pub beats_scanned: usize,
}

/// Whether a window is as wide as it must be and lies in the columns.
pub open spec fn fits(w: BeatWindow, limits: BeatLimits) -> bool {
    &&& w.t_f - w.t_s == limits.fp_size
    &&& w.t_f <= limits.n_time_taps
    &&& w.t_s == clipped_start(w.t_s_raw)
    &&& w.t_f == clipped_end(w.t_f_raw, limits.n_time_taps)
}

impl BeatWindows {
    /// Every beat that was looked at has a window or was left out, but for one
    /// without a time; the windows follow the order of their beats, and each of
    /// them fits.
    pub open spec fn wf(self, limits: BeatLimits) -> bool {
        &&& self.beats_scanned <= BEAT_LIMIT
        &&& self.windows.len() + self.skips.total() <= self.beats_scanned
        &&& self.beats_scanned <= self.windows.len() + self.skips.total() + 1
        &&& forall|i: int|
            0 <= i < self.windows.len() ==> #[trigger] self.windows@[i].beat_index
                < self.beats_scanned
        &&& forall|i: int, j: int|
            0 <= i < j < self.windows.len() ==> #[trigger] self.windows@[i].beat_index
                < #[trigger] self.windows@[j].beat_index
        &&& forall|i: int| 0 <= i < self.windows.len() ==> fits(#[trigger] self.windows@[i], limits)
        &&& forall|i: int|
            0 <= i < self.windows.len() ==> {
                let time = #[trigger] self.windows@[i].beat_time_sec;
                time.finite() && !time.less(number::zero()) && !limits.duration.less(time)
            }
    }

    /// Whether every beat that was looked at is accounted for.
    pub open spec fn balanced(self) -> bool {
        self.windows.len() + self.skips.total() == self.beats_scanned
    }

    /// What a trace says of the scan.
    pub open spec fn told(self) -> BiasTraceLoop {
        if self.windows.len() == 0 {
            BiasTraceLoop {
                beats_scanned: self.beats_scanned,
                beats_used: 0,
                first_beat_index: 0,
                last_beat_index: 0,
                first_beat_time_s: number::zero(),
                last_beat_time_s: number::zero(),
            }
        } else {
            BiasTraceLoop {
                beats_scanned: self.beats_scanned,
                beats_used: self.windows.len(),
                first_beat_index: self.windows@[0].beat_index,
                last_beat_index: self.windows@.last().beat_index,
                first_beat_time_s: self.windows@[0].beat_time_sec,
                last_beat_time_s: self.windows@.last().beat_time_sec,
            }
        }
    }

    pub fn loop_stats(&self) -> (out: BiasTraceLoop)
        ensures
            out == self.told(),
    {
        let n: usize = self.windows.len();
        if n == 0 {
            return BiasTraceLoop {
                beats_scanned: self.beats_scanned,
                beats_used: 0,
                first_beat_index: 0,
                last_beat_index: 0,
                first_beat_time_s: Real { bits: 0 },
                last_beat_time_s: Real { bits: 0 },
            };
        }
        let first: BeatWindow = self.windows[0];
        let last: BeatWindow = self.windows[n - 1];
        BiasTraceLoop {
            beats_scanned: self.beats_scanned,
            beats_used: n,
            first_beat_index: first.beat_index,
            last_beat_index: last.beat_index,
            first_beat_time_s: first.beat_time_sec,
            last_beat_time_s: last.beat_time_sec,
        }
    }
}

/// A scan of the beats of a chart, one after another.
pub struct BeatScan {
    pub limits: BeatLimits,
    pub found: BeatWindows,
    /// The time of the last beat that was let through.
    pub t_last: Real,
    pub done: bool,
}

/// What a scan has come to.
pub ghost struct ScanState {
    pub windows: Seq<BeatWindow>,
    pub too_early: nat,
    pub too_late: nat,
    pub too_soon: nat,
    pub short_window: nat,
    pub scanned: nat,
    pub t_last: Real,
    pub done: bool,
}

/// A scan that has looked at no beat yet.
pub open spec fn scan_start() -> ScanState {
    ScanState {
        windows: Seq::empty(),
        too_early: 0,
        too_late: 0,
        too_soon: 0,
        short_window: 0,
        scanned: 0,
        t_last: number::below_all(),
        done: false,
    }
}

/// One beat more if so.
pub open spec fn counted(n: nat, more: bool) -> nat {
    if more {
        n + 1
    } else {
        n
    }
}

/// The scan behind one more beat.
pub open spec fn scan_step(limits: BeatLimits, state: ScanState, reading: BeatReading) -> ScanState {
    let fate = limits.fate(reading);
    ScanState {
        windows: if fate is Used {
            state.windows.push(
                BeatWindow {
                    beat_index: state.scanned as usize,
                    beat_time_sec: reading.time,
                    t_s_raw: reading.t_s_raw,
                    t_f_raw: reading.t_f_raw,
                    t_s: clipped_start(reading.t_s_raw) as usize,
                    t_f: clipped_end(reading.t_f_raw, limits.n_time_taps) as usize,
                },
            )
        } else {
            state.windows
        },
        too_early: counted(state.too_early, fate is TooEarly),
        too_late: counted(state.too_late, fate is TooLate),
        too_soon: counted(state.too_soon, fate is TooSoon),
        short_window: counted(state.short_window, fate is ShortWindow),
        scanned: state.scanned + 1,
        t_last: if fate is Used || fate is ShortWindow {
            reading.time
        } else {
            state.t_last
        },
        done: fate is NoTime || fate is TooLate || state.scanned + 1 == BEAT_LIMIT,
    }
}

/// The scan behind these readings.
pub open spec fn scan_of(limits: BeatLimits, readings: Seq<BeatReading>) -> ScanState
    decreases readings.len(),
{
    if readings.len() == 0 {
        scan_start()
    } else {
        scan_step(limits, scan_of(limits, readings.drop_last()), readings.last())
    }
}

/// Whether a scan takes all of these readings: it is not done before the last.
pub open spec fn scan_runs(limits: BeatLimits, readings: Seq<BeatReading>) -> bool {
    forall|k: int| 0 <= k < readings.len() ==> !(#[trigger] scan_of(limits, readings.take(k))).done
}

impl BeatScan {
    pub open spec fn view(&self) -> ScanState {
        ScanState {
            windows: self.found.windows@,
            too_early: self.found.skips.too_early as nat,
            too_late: self.found.skips.too_late as nat,
            too_soon: self.found.skips.too_soon as nat,
            short_window: self.found.skips.short_window as nat,
            scanned: self.found.beats_scanned as nat,
            t_last: self.t_last,
            done: self.done,
        }
    }

    pub open spec fn wf(self) -> bool {
        &&& self.found.wf(self.limits)
        &&& !self.done ==> self.found.balanced() && self.found.beats_scanned < BEAT_LIMIT
    }

    /// A scan that has looked at no beat yet.
    pub fn new(limits: BeatLimits) -> (out: BeatScan)
        ensures
            out.wf(),
            out.limits == limits,
            out@ == scan_start(),
    {
        BeatScan {
            limits,
            found: BeatWindows {
                windows: Vec::new(),
                skips: BiasTraceSkips { too_early: 0, too_late: 0, too_soon: 0, short_window: 0 },
                beats_scanned: 0,
            },
            t_last: Real { bits: INFINITE + SIGN },
            done: false,
        }
    }

    /// Takes the reading of the beat whose index is `found.beats_scanned`.
    pub fn take_beat(&mut self, reading: BeatReading)
        requires
            old(self).wf(),
            !old(self).done,
        ensures
            final(self).wf(),
            final(self).limits == old(self).limits,
            final(self)@ == scan_step(old(self).limits, old(self)@, reading),
    {
        let beat_index: usize = self.found.beats_scanned;
        self.found.beats_scanned = beat_index + 1;
        if self.found.beats_scanned == BEAT_LIMIT {
            self.done = true;
        }
        if !reading.time.is_finite() {
            self.done = true;
        } else if reading.time.is_less(Real { bits: 0 }) {
            self.found.skips.too_early += 1;
        } else if self.limits.duration.is_less(reading.time) {
            self.found.skips.too_late += 1;
            self.done = true;
        } else if reading.gap.is_less(self.limits.min_sep) {
            self.found.skips.too_soon += 1;
        } else {
            self.t_last = reading.time;
            match beat_time_to_window_taps(
                beat_index,
                reading.time,
                reading.t_s_raw,
                reading.t_f_raw,
                self.limits.fp_size,
                self.limits.n_time_taps,
            ) {
                Some(w) => {
                    self.found.windows.push(w);
                },
                None => {
                    self.found.skips.short_window += 1;
                },
            }
        }
    }
}

/// Whether the reading at `k` is what a scan gets from `read`, which is asked for
/// each beat with its index and the time of the last beat let through.
pub open spec fn reading_at<F: Fn(usize, Real) -> BeatReading>(
    limits: BeatLimits,
    read: F,
    readings: Seq<BeatReading>,
    k: int,
) -> bool {
    call_ensures(
        read,
        (k as usize, scan_of(limits, readings.take(k)).t_last),
        readings[k],
    )
}

/// Whether these are the readings that a scan gets from `read`.
pub open spec fn readings_of<F: Fn(usize, Real) -> BeatReading>(
    limits: BeatLimits,
    read: F,
    readings: Seq<BeatReading>,
) -> bool {
    forall|k: int| 0 <= k < readings.len() ==> #[trigger] reading_at(limits, read, readings, k)
}

proof fn lemma_one_more<F: Fn(usize, Real) -> BeatReading>(
    limits: BeatLimits,
    read: F,
    before: Seq<BeatReading>,
    reading: BeatReading,
)
    requires
        readings_of(limits, read, before),
        scan_runs(limits, before),
        !scan_of(limits, before).done,
        call_ensures(read, (before.len() as usize, scan_of(limits, before).t_last), reading),
    ensures
        readings_of(limits, read, before.push(reading)),
        scan_runs(limits, before.push(reading)),
        scan_of(limits, before.push(reading)) == scan_step(
            limits,
            scan_of(limits, before),
            reading,
        ),
{
    let readings = before.push(reading);
    assert(readings.drop_last() =~= before);
    assert(before.take(before.len() as int) =~= before);
    assert forall|k: int| 0 <= k < readings.len() implies !(#[trigger] scan_of(
        limits,
        readings.take(k),
    )).done by {
        assert(readings.take(k) =~= before.take(k));
    }
    assert forall|k: int| 0 <= k < readings.len() implies #[trigger] reading_at(
        limits,
        read,
        readings,
        k,
    ) by {
        assert(readings.take(k) =~= before.take(k));
        if k < before.len() {
            assert(reading_at(limits, read, before, k));
        }
    }
}

/// Scans beat after beat until one has no time or lies behind the audio, or the
/// limit is reached.
pub fn beat_windows_from_fn<F: Fn(usize, Real) -> BeatReading>(
    limits: BeatLimits,
    read: F,
) -> (scan: BeatScan)
    requires
        forall|beat: usize, t_last: Real| #[trigger] call_requires(read, (beat, t_last)),
    ensures
        scan.wf(),
        scan.limits == limits,
        scan.done,
        exists|readings: Seq<BeatReading>|
            readings_of(limits, read, readings) && scan_runs(limits, readings) && scan@
                == scan_of(limits, readings),
{
    let mut scan: BeatScan = BeatScan::new(limits);
    let ghost mut readings: Seq<BeatReading> = Seq::empty();
    while !scan.done
        invariant
            forall|beat: usize, t_last: Real| #[trigger] call_requires(read, (beat, t_last)),
            scan.wf(),
            scan.limits == limits,
            scan@ == scan_of(limits, readings),
            readings.len() == scan.found.beats_scanned,
            readings_of(limits, read, readings),
            scan_runs(limits, readings),
        decreases BEAT_LIMIT - scan.found.beats_scanned,
    {
        let reading: BeatReading = read(scan.found.beats_scanned, scan.t_last);
        proof {
            lemma_one_more(limits, read, readings, reading);
            readings = readings.push(reading);
        }
        scan.take_beat(reading);
    }
    scan
}

// ---------------------------------------------------------------------------
// From times to readings
// ---------------------------------------------------------------------------

/// What the beats of some audio are held to. Its length is cut to milliseconds.
pub open spec fn limits_of(
    m: Meaning,
    audio_len: usize,
    sample_rate_hz: u32,
    fingerprint_ms: Real,
    setup: Setup,
) -> BeatLimits {
    let seconds = m.over(m.whole(audio_len as int), m.whole(sample_rate_hz as int));
    BeatLimits {
        duration: m.times(
            m.floor(m.times(seconds, Real { bits: THOUSAND })),
            Real { bits: THOUSANDTH },
        ),
        min_sep: m.times(fingerprint_ms, Real { bits: THOUSANDTH }),
        fp_size: setup.fp_size,
        n_time_taps: setup.n_time_taps,
    }
}

pub fn beat_limits<C: Fn(Term) -> Real, L: Fn(u32, usize) -> Place>(
    num: &Numerics<C, L>,
    audio_len: usize,
    sample_rate_hz: u32,
    fingerprint_ms: Real,
    setup: &Setup,
) -> (out: BeatLimits)
    requires
        num.ready(),
    ensures
        out.fp_size == setup.fp_size,
        out.n_time_taps == setup.n_time_taps,
        forall|m: Meaning| #[trigger]
            num.follows(m) ==> out == limits_of(
                m,
                audio_len,
                sample_rate_hz,
                fingerprint_ms,
                *setup,
            ),
{
    let seconds: Real = num.over(
        num.count(audio_len),
        num.value(Term::Whole(sample_rate_hz as i128)),
    );
    let millis: Real = num.value(Term::Floor(num.times(seconds, Real { bits: THOUSAND })));
    BeatLimits {
        duration: num.times(millis, Real { bits: THOUSANDTH }),
        min_sep: num.times(fingerprint_ms, Real { bits: THOUSANDTH }),
        fp_size: setup.fp_size,
        n_time_taps: setup.n_time_taps,
    }
}

/// What is read of a beat at a time: its window lies round the column that the
/// time falls in, less the offset of the spectrogram.
pub open spec fn reading_of(
    m: Meaning,
    nearest: spec_fn(Real) -> isize,
    setup: Setup,
    time: Real,
    t_last: Real,
) -> BeatReading {
    let middle = m.minus(m.over(time, setup.actual_step_sec), setup.spectrogram_offset);
    let half = m.times(m.whole(setup.fp_size as int), Real { bits: HALF });
    BeatReading {
        time,
        gap: m.minus(time, t_last),
        t_s_raw: nearest(m.minus(middle, half)),
        t_f_raw: nearest(m.plus(middle, half)),
    }
}

/// Whether this is read of a beat at a time.
pub open spec fn reads_beat<
    C: Fn(Term) -> Real,
    L: Fn(u32, usize) -> Place,
    R: Fn(Real) -> isize,
>(
    num: Numerics<C, L>,
    nearest: R,
    setup: Setup,
    time: Real,
    t_last: Real,
    reading: BeatReading,
) -> bool {
    forall|m: Meaning, s: spec_fn(Real) -> isize| #[trigger]
        num.follows(m) && #[trigger] rounds_as(nearest, s) ==> reading == reading_of(
            m,
            s,
            setup,
            time,
            t_last,
        )
}

pub fn read_beat<C: Fn(Term) -> Real, L: Fn(u32, usize) -> Place, R: Fn(Real) -> isize>(
    num: &Numerics<C, L>,
    nearest: &R,
    setup: &Setup,
    time: Real,
    t_last: Real,
) -> (reading: BeatReading)
    requires
        num.ready(),
        forall|v: Real| #[trigger] call_requires(nearest, (v,)),
    ensures
        reads_beat(*num, *nearest, *setup, time, t_last, reading),
{
    let middle: Real = num.minus(
        num.over(time, setup.actual_step_sec),
        setup.spectrogram_offset,
    );
    let half: Real = num.times(num.count(setup.fp_size), Real { bits: HALF });
    BeatReading {
        time,
        gap: num.minus(time, t_last),
        t_s_raw: nearest(num.minus(middle, half)),
        t_f_raw: nearest(num.plus(middle, half)),
    }
}

/// Whether the reading at `k` is read of the time that the beat has.
pub open spec fn timed_reading_at<
    C: Fn(Term) -> Real,
    L: Fn(u32, usize) -> Place,
    R: Fn(Real) -> isize,
    F: Fn(usize) -> Real,
>(
    num: Numerics<C, L>,
    nearest: R,
    setup: Setup,
    limits: BeatLimits,
    beat_time: F,
    readings: Seq<BeatReading>,
    k: int,
) -> bool {
    exists|time: Real| #[trigger]
        call_ensures(beat_time, (k as usize,), time) && reads_beat(
            num,
            nearest,
            setup,
            time,
            scan_of(limits, readings.take(k)).t_last,
            readings[k],
        )
}

/// Whether a scan of the beats at these times comes to this.
pub open spec fn scanned_beats<
    C: Fn(Term) -> Real,
    L: Fn(u32, usize) -> Place,
    R: Fn(Real) -> isize,
    F: Fn(usize) -> Real,
>(
    num: Numerics<C, L>,
    nearest: R,
    setup: Setup,
    beat_time: F,
    scan: BeatScan,
) -> bool {
    exists|readings: Seq<BeatReading>|
        {
            &&& #[trigger] scan_runs(scan.limits, readings)
            &&& scan@ == scan_of(scan.limits, readings)
            &&& forall|k: int|
                0 <= k < readings.len() ==> #[trigger] timed_reading_at(
                    num,
                    nearest,
                    setup,
                    scan.limits,
                    beat_time,
                    readings,
                    k,
                )
        }
}

/// Scans the beats of a chart in audio of a length. `beat_time` tells the time of a
/// beat, and `nearest` the whole number nearest to a number.
pub fn scan_beats<
    C: Fn(Term) -> Real,
    L: Fn(u32, usize) -> Place,
    R: Fn(Real) -> isize,
    F: Fn(usize) -> Real,
>(
    num: &Numerics<C, L>,
    nearest: &R,
    audio_len: usize,
    sample_rate_hz: u32,
    fingerprint_ms: Real,
    setup: &Setup,
    beat_time: &F,
) -> (scan: BeatScan)
    requires
        num.ready(),
        forall|v: Real| #[trigger] call_requires(nearest, (v,)),
        forall|beat: usize| #[trigger] call_requires(beat_time, (beat,)),
    ensures
        scan.wf(),
        scan.done,
        forall|m: Meaning| #[trigger]
            num.follows(m) ==> scan.limits == limits_of(
                m,
                audio_len,
                sample_rate_hz,
                fingerprint_ms,
                *setup,
            ),
        scanned_beats(*num, *nearest, *setup, *beat_time, scan),
{
    let limits: BeatLimits = beat_limits(num, audio_len, sample_rate_hz, fingerprint_ms, setup);
    let read = |beat: usize, t_last: Real| -> (reading: BeatReading)
        ensures
            exists|time: Real| #[trigger]
                call_ensures(beat_time, (beat,), time) && reads_beat(
                    *num,
                    *nearest,
                    *setup,
                    time,
                    t_last,
                    reading,
                ),
        { read_beat(num, nearest, setup, beat_time(beat), t_last) };
    let scan: BeatScan = beat_windows_from_fn(limits, read);
    proof {
        let readings = choose|readings: Seq<BeatReading>|
            readings_of(limits, read, readings) && scan_runs(limits, readings) && scan@
                == scan_of(limits, readings);
        assert forall|k: int| 0 <= k < readings.len() implies #[trigger] timed_reading_at(
            *num,
            *nearest,
            *setup,
            limits,
            *beat_time,
            readings,
            k,
        ) by {
            assert(reading_at(limits, read, readings, k));
        }
        assert(scan_runs(scan.limits, readings));
    }
    scan
}

/// Whether `times` says when the beats are.
pub open spec fn timed_as<F: Fn(usize) -> Real>(beat_time: F, times: spec_fn(int) -> Real) -> bool {
    forall|beat: usize, time: Real| #[trigger]
        call_ensures(beat_time, (beat,), time) ==> time == times(beat as int)
}

/// What a scan finds depends on the setup and on the times of the beats, and on
/// nothing else.
pub proof fn scans_are_determined<
    C: Fn(Term) -> Real,
    L: Fn(u32, usize) -> Place,
    R: Fn(Real) -> isize,
    F: Fn(usize) -> Real,
>(
    num: Numerics<C, L>,
    m: Meaning,
    nearest: R,
    s: spec_fn(Real) -> isize,
    setup: Setup,
    beat_time: F,
    times: spec_fn(int) -> Real,
    a: BeatScan,
    b: BeatScan,
)
    requires
        num.follows(m),
        rounds_as(nearest, s),
        timed_as(beat_time, times),
        scanned_beats(num, nearest, setup, beat_time, a),
        scanned_beats(num, nearest, setup, beat_time, b),
        a.limits == b.limits,
        a.done,
        b.done,
    ensures
        a@ == b@,
{
    let limits = a.limits;
    let x = choose|readings: Seq<BeatReading>|
        {
            &&& #[trigger] scan_runs(limits, readings)
            &&& a@ == scan_of(limits, readings)
            &&& forall|k: int|
                0 <= k < readings.len() ==> #[trigger] timed_reading_at(
                    num,
                    nearest,
                    setup,
                    limits,
                    beat_time,
                    readings,
                    k,
                )
        };
    let y = choose|readings: Seq<BeatReading>|
        {
            &&& #[trigger] scan_runs(limits, readings)
            &&& b@ == scan_of(limits, readings)
            &&& forall|k: int|
                0 <= k < readings.len() ==> #[trigger] timed_reading_at(
                    num,
                    nearest,
                    setup,
                    limits,
                    beat_time,
                    readings,
                    k,
                )
        };
    let n = if x.len() < y.len() {
        x.len() as int
    } else {
        y.len() as int
    };
    every_beat_is_accounted_for(limits, x);
    every_beat_is_accounted_for(limits, y);
    lemma_same_readings(num, m, nearest, s, setup, limits, beat_time, times, x, y, n);
    assert(x.take(x.len() as int) =~= x);
    assert(y.take(y.len() as int) =~= y);
    if x.len() < y.len() {
        assert(!scan_of(limits, y.take(n)).done);
    } else if y.len() < x.len() {
        assert(!scan_of(limits, x.take(n)).done);
    }
}

proof fn lemma_same_readings<
    C: Fn(Term) -> Real,
    L: Fn(u32, usize) -> Place,
    R: Fn(Real) -> isize,
    F: Fn(usize) -> Real,
>(
    num: Numerics<C, L>,
    m: Meaning,
    nearest: R,
    s: spec_fn(Real) -> isize,
    setup: Setup,
    limits: BeatLimits,
    beat_time: F,
    times: spec_fn(int) -> Real,
    x: Seq<BeatReading>,
    y: Seq<BeatReading>,
    n: int,
)
    requires
        num.follows(m),
        rounds_as(nearest, s),
        timed_as(beat_time, times),
        0 <= n <= x.len() <= BEAT_LIMIT,
        n <= y.len(),
        forall|k: int|
            0 <= k < x.len() ==> #[trigger] timed_reading_at(
                num,
                nearest,
                setup,
                limits,
                beat_time,
                x,
                k,
            ),
        forall|k: int|
            0 <= k < y.len() ==> #[trigger] timed_reading_at(
                num,
                nearest,
                setup,
                limits,
                beat_time,
                y,
                k,
            ),
    ensures
        x.take(n) == y.take(n),
    decreases n,
{
    if n > 0 {
        let k = n - 1;
        lemma_same_readings(num, m, nearest, s, setup, limits, beat_time, times, x, y, k);
        assert(timed_reading_at(num, nearest, setup, limits, beat_time, x, k));
        assert(timed_reading_at(num, nearest, setup, limits, beat_time, y, k));
        assert(x[k] == y[k]);
        assert(x.take(n) =~= x.take(k).push(x[k]));
        assert(y.take(n) =~= y.take(k).push(y[k]));
    } else {
        assert(x.take(n) =~= y.take(n));
    }
}

/// Every beat that a scan looked at has a window or is counted as left out, but
/// for one without a time, at which the scan ends.
pub proof fn every_beat_is_accounted_for(limits: BeatLimits, readings: Seq<BeatReading>)
    requires
        scan_runs(limits, readings),
    ensures
        ({
            let state = scan_of(limits, readings);
            let ends_without_time = readings.len() > 0 && limits.fate(readings.last()) is NoTime;
            &&& state.scanned == readings.len() <= BEAT_LIMIT
            &&& state.windows.len() + state.too_early + state.too_late + state.too_soon
                + state.short_window + (if ends_without_time {
                1int
            } else {
                0
            }) == readings.len()
            &&& state.too_late <= 1
        }),
    decreases readings.len(),
{
    if readings.len() > 0 {
        let before = readings.drop_last();
        assert(readings.take(readings.len() - 1) =~= before);
        assert forall|k: int| 0 <= k < before.len() implies !(#[trigger] scan_of(
            limits,
            before.take(k),
        )).done by {
            assert(before.take(k) =~= readings.take(k));
        }
        every_beat_is_accounted_for(limits, before);
        lemma_running_scan(limits, before);
    }
}

/// A scan that is not done has seen no beat that ends it.
proof fn lemma_running_scan(limits: BeatLimits, readings: Seq<BeatReading>)
    requires
        scan_runs(limits, readings),
        !scan_of(limits, readings).done,
    ensures
        scan_of(limits, readings).too_late == 0,
        scan_of(limits, readings).scanned == readings.len() < BEAT_LIMIT,
        readings.len() > 0 ==> !(limits.fate(readings.last()) is NoTime),
    decreases readings.len(),
{
    if readings.len() > 0 {
        let before = readings.drop_last();
        assert(readings.take(readings.len() - 1) =~= before);
        assert forall|k: int| 0 <= k < before.len() implies !(#[trigger] scan_of(
            limits,
            before.take(k),
        )).done by {
            assert(before.take(k) =~= readings.take(k));
        }
        lemma_running_scan(limits, before);
    }
}

/// The windows of a scan stand in the order of their beats, are as wide as a
/// fingerprint, lie in the columns, and belong to beats inside the audio.
pub proof fn windows_fit(limits: BeatLimits, readings: Seq<BeatReading>)
    requires
        scan_runs(limits, readings),
    ensures
        ({
            let windows = scan_of(limits, readings).windows;
            &&& forall|i: int, j: int|
                0 <= i < j < windows.len() ==> #[trigger] windows[i].beat_index
                    < #[trigger] windows[j].beat_index
            &&& forall|i: int|
                0 <= i < windows.len() ==> fits(#[trigger] windows[i], limits)
                    && windows[i].beat_index < readings.len()
            &&& forall|i: int|
                0 <= i < windows.len() ==> {
                    let time = #[trigger] windows[i].beat_time_sec;
                    time.finite() && !time.less(number::zero()) && !limits.duration.less(time)
                }
        }),
    decreases readings.len(),
{
    if readings.len() > 0 {
        let before = readings.drop_last();
        assert(readings.take(readings.len() - 1) =~= before);
        assert forall|k: int| 0 <= k < before.len() implies !(#[trigger] scan_of(
            limits,
            before.take(k),
        )).done by {
            assert(before.take(k) =~= readings.take(k));
        }
        windows_fit(limits, before);
        lemma_running_scan(limits, before);
    }
}

// ---------------------------------------------------------------------------
// What is measured and what is let through
// ---------------------------------------------------------------------------

/// The parts that hold a length are as few as can be: together they are no shorter, and one
/// less would be.
pub proof fn parts_hold_the_whole(a: int, b: int)
    requires
        a >= 0,
        b > 0,
    ensures
        a <= parts_of(a, b) * b,
        a > 0 ==> (parts_of(a, b) - 1) * b < a,
        a == 0 ==> parts_of(a, b) == 0,
{
    vstd::arithmetic::div_mod::lemma_fundamental_div_mod(a + b - 1, b);
    vstd::arithmetic::div_mod::lemma_mod_bound(a + b - 1, b);
    let q = (a + b - 1) / b;
    assert(q * b == b * q) by (nonlinear_arith);
    assert((q - 1) * b == b * q - b) by (nonlinear_arith);
    if a == 0 {
        vstd::arithmetic::div_mod::lemma_basic_div(b - 1, b);
    }
}

/// What is measured goes by the rate: a window has as many samples as fit in its length, and
/// so has a step, but at least one; the fingerprint reaches as many steps to each side as come
/// nearest to its length; and equal rates and settings measure the same. Settings that do not
/// bear on a measure leave it as it is.
pub proof fn measures_go_by_rate_and_settings(
    m: Meaning,
    floor: spec_fn(Real) -> usize,
    nearest: spec_fn(Real) -> isize,
    rate: u32,
    cfg: BiasCfg,
)
    ensures
        ({
            let got = measures_of(m, floor, nearest, rate, cfg);
            let thousandth = Real { bits: 0x3f50_624d_d2f1_a9fc };
            let half = Real { bits: 0x3fe0_0000_0000_0000 };
            let in_ms = |ms: Real| floor(m.times(m.times(m.whole(rate as int), ms), thousandth));
            &&& got.nperseg == in_ms(cfg.window_ms)
            &&& got.nstep >= 1
            &&& got.nstep == in_ms(cfg.step_ms) || (in_ms(cfg.step_ms) == 0 && got.nstep == 1)
            &&& got.actual_step_sec == m.over(m.whole(got.nstep as int), m.whole(rate as int))
            &&& got.half == nearest(
                m.over(m.times(cfg.fingerprint_ms, thousandth), got.actual_step_sec),
            )
            &&& got.spectrogram_offset == m.times(
                m.root(half),
                m.over(m.whole(got.nperseg as int), m.whole(got.nstep as int)),
            )
        }),
{
}

/// The setup reaches as far to the one side of a beat as to the other, looks at all the
/// frequencies that its windows tell apart, and has as many columns as the steps behind the
/// first window ask for.
pub proof fn setups_reach_to_both_sides(audio_len: usize, measures: Measures)
    requires
        8 <= measures.nperseg < audio_len <= isize::MAX,
        1 <= measures.nstep,
        4 <= measures.half,
    ensures
        ({
            let setup = setup_of(audio_len, measures);
            &&& setup.fp_size == measures.half + measures.half
            &&& 2 * (setup.n_freq_taps - 1) <= setup.nperseg < 2 * setup.n_freq_taps
            &&& setup.n_time_taps * measures.nstep >= audio_len - measures.nperseg
            &&& (setup.n_time_taps - 1) * measures.nstep < audio_len - measures.nperseg
            &&& setup.nperseg == measures.nperseg && setup.nstep == measures.nstep
            &&& setup.actual_step_sec == measures.actual_step_sec
            &&& setup.spectrogram_offset == measures.spectrogram_offset
        }),
{
    let a = audio_len - measures.nperseg;
    let b = measures.nstep as int;
    parts_hold_the_whole(a, b);
    assert(0 <= (a + b - 1) / b <= a) by (nonlinear_arith)
        requires
            a >= 1,
            b >= 1,
    ;
}

/// A window is cut at the ends of the audio and nowhere else.
pub proof fn windows_are_cut_at_the_ends(t_s_raw: isize, t_f_raw: isize, n_time_taps: isize)
    ensures
        clipped_start(t_s_raw) >= 0,
        clipped_start(t_s_raw) >= t_s_raw,
        clipped_start(t_s_raw) == 0 || clipped_start(t_s_raw) == t_s_raw,
        clipped_end(t_f_raw, n_time_taps) <= n_time_taps,
        clipped_end(t_f_raw, n_time_taps) <= t_f_raw,
        clipped_end(t_f_raw, n_time_taps) == n_time_taps || clipped_end(t_f_raw, n_time_taps)
            == t_f_raw,
{
}

/// A beat gives a window just where it has a time, lies in the audio, stands no nearer to the
/// last beat that was let through than the least gap, and its window has its full width
/// between the ends of the columns. Each of these faults is the one that is told only where
/// none before it holds.
pub proof fn beats_are_used_where_nothing_is_wrong(limits: BeatLimits, reading: BeatReading)
    ensures
        ({
            let timed = reading.time.finite();
            let early = reading.time.less(number::zero());
            let late = limits.duration.less(reading.time);
            let soon = reading.gap.less(limits.min_sep);
            let from = if reading.t_s_raw < 0 {
                0
            } else {
                reading.t_s_raw as int
            };
            let to = if limits.n_time_taps < reading.t_f_raw {
                limits.n_time_taps as int
            } else {
                reading.t_f_raw as int
            };
            let short = to - from != limits.fp_size;
            let fate = limits.fate(reading);
            &&& fate is Used <==> timed && !early && !late && !soon && !short
            &&& fate is NoTime <==> !timed
            &&& fate is TooEarly <==> timed && early
            &&& fate is TooLate <==> timed && !early && late
            &&& fate is TooSoon <==> timed && !early && !late && soon
            &&& fate is ShortWindow <==> timed && !early && !late && !soon && short
        }),
{
}

/// A scan takes beat after beat: each gives a window or is counted under one fault, the
/// windows keep their order, and the scan ends with a beat without a time, with one behind the
/// audio, or with the last that is looked at. Beats that are let through, with a full window
/// or a short one, are those that the next gap is measured from.
pub proof fn scans_take_beat_after_beat(
    limits: BeatLimits,
    readings: Seq<BeatReading>,
    reading: BeatReading,
)
    ensures
        ({
            let before = scan_of(limits, readings);
            let after = scan_of(limits, readings.push(reading));
            let fate = limits.fate(reading);
            &&& after.scanned == before.scanned + 1
            &&& fate is Used ==> after.windows.len() == before.windows.len() + 1
                && after.windows.drop_last() == before.windows && after.windows.last().beat_index
                == before.scanned as usize && after.windows.last().beat_time_sec == reading.time
                && after.windows.last().t_s_raw == reading.t_s_raw && after.windows.last().t_f_raw
                == reading.t_f_raw
            &&& !(fate is Used) ==> after.windows == before.windows
            &&& after.too_early == before.too_early + (if fate is TooEarly {
                1int
            } else {
                0
            })
            &&& after.too_late == before.too_late + (if fate is TooLate {
                1int
            } else {
                0
            })
            &&& after.too_soon == before.too_soon + (if fate is TooSoon {
                1int
            } else {
                0
            })
            &&& after.short_window == before.short_window + (if fate is ShortWindow {
                1int
            } else {
                0
            })
            &&& after.t_last == (if fate is Used || fate is ShortWindow {
                reading.time
            } else {
                before.t_last
            })
            &&& after.done <==> fate is NoTime || fate is TooLate || after.scanned == 200_000
        }),
        scan_of(limits, Seq::empty()).windows.len() == 0,
        scan_of(limits, Seq::empty()).t_last == number::below_all(),
{
    assert(readings.push(reading).drop_last() =~= readings);
    let before = scan_of(limits, readings);
    let after = scan_of(limits, readings.push(reading));
    if limits.fate(reading) is Used {
        assert(after.windows.drop_last() =~= before.windows);
    }
}

/// What is read of a beat goes by its time: its window lies half a fingerprint to each side of
/// the column that the time falls in, less the offset of the spectrogram, and its gap is the
/// time since the last beat. A later beat has no earlier window.
pub proof fn later_beats_have_later_windows(
    m: Meaning,
    nearest: spec_fn(Real) -> isize,
    setup: Setup,
    time: Real,
    later: Real,
    t_last: Real,
)
    requires
        m.keeps_order(),
        m.gives_numbers(),
        time.at_most(later),
        setup.actual_step_sec.finite(),
        setup.actual_step_sec.place() > 0,
        setup.spectrogram_offset.finite(),
        m.times(m.whole(setup.fp_size as int), Real { bits: 0x3fe0_0000_0000_0000 }).finite(),
        forall|a: Real, b: Real|
            a.at_most(b) ==> #[trigger] nearest(a) <= #[trigger] nearest(b),
    ensures
        ({
            let half = m.times(
                m.whole(setup.fp_size as int),
                Real { bits: 0x3fe0_0000_0000_0000 },
            );
            let middle = m.minus(
                m.over(time, setup.actual_step_sec),
                setup.spectrogram_offset,
            );
            let got = reading_of(m, nearest, setup, time, t_last);
            let next = reading_of(m, nearest, setup, later, t_last);
            &&& got.time == time
            &&& got.gap == m.minus(time, t_last)
            &&& got.t_s_raw == nearest(m.minus(middle, half))
            &&& got.t_f_raw == nearest(m.plus(middle, half))
            &&& got.t_s_raw <= next.t_s_raw
            &&& got.t_f_raw <= next.t_f_raw
            &&& half.place() >= 0 && m.knows_zero_and_one() && middle.finite() && middle.place()
                != 0 ==> got.t_s_raw <= got.t_f_raw
        }),
{
    let half = m.times(m.whole(setup.fp_size as int), Real { bits: HALF });
    let x = m.over(time, setup.actual_step_sec);
    let y = m.over(later, setup.actual_step_sec);
    assert(!x.nan() && !y.nan() && x.at_most(y));
    let a = m.minus(x, setup.spectrogram_offset);
    let b = m.minus(y, setup.spectrogram_offset);
    assert(!a.nan() && !b.nan() && a.at_most(b));
    assert(!m.minus(a, half).nan() && !m.minus(b, half).nan());
    assert(!m.plus(a, half).nan() && !m.plus(b, half).nan());
    assert(m.minus(a, half).at_most(m.minus(b, half)));
    assert(m.plus(a, half).at_most(m.plus(b, half)));
    if half.place() >= 0 && m.knows_zero_and_one() && a.finite() && a.place() != 0 {
        assert(number::zero().at_most(half));
        assert(m.minus(a, number::zero()) == a);
        assert(m.plus(a, number::zero()) == a);
        assert(m.minus(a, half).at_most(m.minus(a, number::zero())));
        assert(m.plus(a, number::zero()).at_most(m.plus(a, half)));
    }
}

/// The beats are held to the length of the audio, cut to whole milliseconds, to a gap as long
/// as a fingerprint reaches to one side, and to the width and the columns of the setup.
pub proof fn limits_go_by_the_audio(
    m: Meaning,
    audio_len: usize,
    rate: u32,
    fingerprint_ms: Real,
    setup: Setup,
)
    ensures
        ({
            let got = limits_of(m, audio_len, rate, fingerprint_ms, setup);
            let thousand = Real { bits: 0x408f_4000_0000_0000 };
            let thousandth = Real { bits: 0x3f50_624d_d2f1_a9fc };
            let seconds = m.over(m.whole(audio_len as int), m.whole(rate as int));
            &&& got.duration == m.times(m.floor(m.times(seconds, thousand)), thousandth)
            &&& got.min_sep == m.times(fingerprint_ms, thousandth)
            &&& got.fp_size == setup.fp_size
            &&& got.n_time_taps == setup.n_time_taps
        }),
{
}

/// Every beat is asked for by its own number, with the time of the last beat before it that
/// was let through: no beat between the two was, and where none was at all the time lies below
/// all times.
pub proof fn beats_are_asked_for_in_turn<F: Fn(usize, Real) -> BeatReading>(
    limits: BeatLimits,
    read: F,
    readings: Seq<BeatReading>,
    k: int,
) -> (last: (int, Real))
    requires
        readings_of(limits, read, readings),
        0 <= k < readings.len(),
    ensures
        call_ensures(read, (k as usize, last.1), readings[k]),
        -1 <= last.0 < k,
        last.0 == -1 ==> last.1 == number::below_all(),
        last.0 >= 0 ==> last.1 == readings[last.0].time && (limits.fate(readings[last.0]) is Used
            || limits.fate(readings[last.0]) is ShortWindow),
        forall|j: int|
            last.0 < j < k ==> !(#[trigger] limits.fate(readings[j]) is Used) && !(limits.fate(
                readings[j],
            ) is ShortWindow),
{
    assert(reading_at(limits, read, readings, k));
    let last = lemma_last_let_through(limits, readings, k);
    (last, scan_of(limits, readings.take(k)).t_last)
}

proof fn lemma_last_let_through(limits: BeatLimits, readings: Seq<BeatReading>, k: int) -> (last:
    int)
    requires
        0 <= k <= readings.len(),
    ensures
        -1 <= last < k,
        last == -1 ==> scan_of(limits, readings.take(k)).t_last == number::below_all(),
        last >= 0 ==> scan_of(limits, readings.take(k)).t_last == readings[last].time && (
        limits.fate(readings[last]) is Used || limits.fate(readings[last]) is ShortWindow),
        forall|j: int|
            last < j < k ==> !(#[trigger] limits.fate(readings[j]) is Used) && !(limits.fate(
                readings[j],
            ) is ShortWindow),
    decreases k,
{
    if k == 0 {
        -1
    } else {
        let taken = readings.take(k);
        assert(taken.drop_last() =~= readings.take(k - 1));
        assert(taken.last() == readings[k - 1]);
        let fate = limits.fate(readings[k - 1]);
        if fate is Used || fate is ShortWindow {
            k - 1
        } else {
            lemma_last_let_through(limits, readings, k - 1)
        }
    }
}

/// A spectrogram can be taken just where there is a rate, the window has eight samples or more,
/// and the audio is longer than the window. The first of these that fails is told.
pub proof fn windows_must_fit_the_audio(audio_len: usize, rate: u32, window: usize)
    ensures
        window_fault(audio_len, rate, window) is None <==> rate != 0 && 8 <= window < audio_len,
        rate == 0 ==> window_fault(audio_len, rate, window) == Some("sample rate is zero"@),
        rate != 0 && window < 8 ==> window_fault(audio_len, rate, window) == Some(
            "spectrogram window is too small"@,
        ),
        rate != 0 && 8 <= window && audio_len <= window ==> window_fault(audio_len, rate, window)
            == Some("audio too short for spectrogram window"@),
{
}

/// What is told of a scan is how many beats it looked at, how many gave a window, and which
/// were the first and the last of those; where none did, zero stands for each.
pub proof fn scans_are_told_by_their_ends(found: BeatWindows)
    ensures
        found.told().beats_scanned == found.beats_scanned,
        found.told().beats_used == found.windows.len(),
        found.windows.len() > 0 ==> {
            &&& found.told().first_beat_index == found.windows@[0].beat_index
            &&& found.told().first_beat_time_s == found.windows@[0].beat_time_sec
            &&& found.told().last_beat_index == found.windows@[found.windows.len()
                - 1].beat_index
            &&& found.told().last_beat_time_s == found.windows@[found.windows.len()
                - 1].beat_time_sec
        },
        found.windows.len() == 0 ==> {
            &&& found.told().first_beat_index == 0
            &&& found.told().last_beat_index == 0
            &&& found.told().first_beat_time_s == number::zero()
            &&& found.told().last_beat_time_s == number::zero()
        },
{
}

} // verus!
