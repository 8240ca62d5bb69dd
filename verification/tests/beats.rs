use null_or_die::analyze::default_bias_cfg;
use null_or_die::beats::{
    beat_limits, beat_windows_from_fn, build_setup, measure_setup, read_beat, scan_beats,
    window_sizes, BeatLimits, BeatReading, BeatScan, BeatWindow, BiasTraceSkips, Measures, Setup,
    BEAT_LIMIT,
};
use null_or_die::number::Real;
use null_or_die::numeric::{Numerics, Place, Term};

fn num(v: f64) -> Real {
    Real { bits: v.to_bits() }
}

fn float(v: Real) -> f64 {
    f64::from_bits(v.bits)
}

fn calc(t: Term) -> Real {
    num(match t {
        Term::Plus(a, b) => float(a) + float(b),
        Term::Minus(a, b) => float(a) - float(b),
        Term::Times(a, b) => float(a) * float(b),
        Term::Over(a, b) => float(a) / float(b),
        Term::Root(a) => float(a).sqrt(),
        Term::Floor(a) => float(a).floor(),
        Term::Whole(n) => n as f64,
        _ => unreachable!(),
    })
}

fn place(_: u32, _: usize) -> Place {
    unreachable!()
}

fn cut(v: Real) -> usize {
    float(v).floor() as usize
}

fn nearest(v: Real) -> isize {
    float(v).round_ties_even() as isize
}

fn measures(nperseg: usize, half: isize, sec: f64, offset: f64) -> Measures {
    Measures {
        nperseg,
        nstep: 8,
        half,
        actual_step_sec: num(sec),
        spectrogram_offset: num(offset),
    }
}

fn limits() -> BeatLimits {
    BeatLimits {
        duration: num(10.0),
        min_sep: num(0.05),
        fp_size: 10,
        n_time_taps: 100,
    }
}

fn reading(time: f64, last: Real, start: isize) -> BeatReading {
    BeatReading {
        time: num(time),
        gap: num(time - f64::from_bits(last.bits)),
        t_s_raw: start,
        t_f_raw: start + 10,
    }
}

#[test]
fn windows_need_enough_audio() {
    let fault = |len: usize, rate: u32, window: usize| window_sizes(len, rate, window, 3).err();
    assert_eq!(fault(100, 0, 8), Some("sample rate is zero".to_string()));
    assert_eq!(fault(100, 1, 7), Some("spectrogram window is too small".to_string()));
    assert_eq!(fault(8, 1, 8), Some("audio too short for spectrogram window".to_string()));
    assert_eq!(window_sizes(9, 1, 8, 3), Ok((8, 3)));
    assert_eq!(window_sizes(9, 1, 8, 0), Ok((8, 1)));
}

#[test]
fn setups_are_computed() {
    let setup = build_setup(1000, &measures(441, 250, 0.0002, 1.5)).expect("a setup");
    assert_eq!(setup.fp_size, 500);
    assert_eq!(setup.n_freq_taps, 221);
    assert_eq!(setup.n_time_taps, (559.0f64 / 8.0).ceil() as isize);
    assert_eq!(setup.nperseg, 441);
    assert_eq!(setup.nstep, 8);
    let even = build_setup(1000, &measures(440, 4, 0.0, 0.0)).expect("a setup");
    assert_eq!(even.n_time_taps, 70);
    assert_eq!(
        build_setup(1000, &measures(441, 3, 0.0, 0.0)).err(),
        Some("fingerprint size is too small".to_string())
    );
}

#[test]
fn beats_are_scanned_until_one_is_too_late() {
    let times = [-1.0, 0.0, 0.01, 1.0, 2.0, 9.9, 10.5, 3.0];
    let starts = [0, -3, 5, 20, 40, 95, 50, 50];
    let scan = beat_windows_from_fn(limits(), |beat: usize, last: Real| {
        reading(times[beat], last, starts[beat])
    });
    assert!(scan.done);
    let found = scan.found;
    assert_eq!(found.beats_scanned, 7);
    assert_eq!(found.skips.too_early, 1);
    assert_eq!(found.skips.too_soon, 1);
    assert_eq!(found.skips.short_window, 2);
    assert_eq!(found.skips.too_late, 1);
    assert_eq!(
        found.windows,
        vec![
            BeatWindow {
                beat_index: 3,
                beat_time_sec: num(1.0),
                t_s_raw: 20,
                t_f_raw: 30,
                t_s: 20,
                t_f: 30
            },
            BeatWindow {
                beat_index: 4,
                beat_time_sec: num(2.0),
                t_s_raw: 40,
                t_f_raw: 50,
                t_s: 40,
                t_f: 50
            }
        ]
    );
    let stats = found.loop_stats();
    assert_eq!(stats.beats_used, 2);
    assert_eq!(stats.first_beat_index, 3);
    assert_eq!(stats.last_beat_index, 4);
    assert_eq!(stats.last_beat_time_s, num(2.0));
}

#[test]
fn every_beat_but_one_without_a_time_is_counted() {
    let scan = beat_windows_from_fn(limits(), |beat: usize, last: Real| {
        reading(if beat == 2 { f64::NAN } else { beat as f64 }, last, 5)
    });
    assert_eq!(scan.found.beats_scanned, 3);
    assert_eq!(scan.found.windows.len(), 2);
    assert_eq!(scan.found.skips, BiasTraceSkips::default());
}

#[test]
fn scans_stop_at_the_limit() {
    let scan = beat_windows_from_fn(limits(), |_: usize, last: Real| reading(-1.0, last, 0));
    assert_eq!(scan.found.beats_scanned, BEAT_LIMIT);
    assert_eq!(scan.found.skips.too_early, BEAT_LIMIT);
    assert_eq!(scan.found.loop_stats().beats_used, 0);
    assert_eq!(scan.found.loop_stats().first_beat_time_s, num(0.0));
}

#[test]
fn the_first_beat_follows_a_long_silence() {
    let scan = BeatScan::new(limits());
    assert_eq!(f64::from_bits(scan.t_last.bits), f64::NEG_INFINITY);
}

#[test]
fn setups_are_measured_at_a_rate() {
    let numerics = Numerics { calc, place };
    let cfg = default_bias_cfg();
    let measure = |len: usize, rate: u32| measure_setup(&numerics, &cut, &nearest, len, rate, &cfg);
    assert_eq!(
        measure(44_100, 44_100),
        Ok(Measures {
            nperseg: 441,
            nstep: 8,
            half: 276,
            actual_step_sec: num(8.0 / 44_100.0),
            spectrogram_offset: num((0.5_f64).sqrt() * (441.0 / 8.0)),
        })
    );
    assert_eq!(measure(44_100, 1000).expect("measures").nstep, 1);
    assert_eq!(measure(44_100, 0).err(), Some("sample rate is zero".to_string()));
    assert_eq!(
        measure(44_100, 700).err(),
        Some("spectrogram window is too small".to_string())
    );
    assert_eq!(
        measure(441, 44_100).err(),
        Some("audio too short for spectrogram window".to_string())
    );
}

#[test]
fn a_step_may_be_longer_than_any_audio() {
    let numerics = Numerics { calc, place };
    let cfg = null_or_die::model::BiasCfg {
        step_ms: num(1e30),
        ..default_bias_cfg()
    };
    let found = measure_setup(&numerics, &cut, &nearest, 44_100, 44_100, &cfg).expect("measures");
    assert_eq!(found.nstep, usize::MAX);
    assert_eq!(found.actual_step_sec, num(usize::MAX as f64 / 44_100.0));
    assert_eq!(found.half, 0);
}

fn plain_setup() -> Setup {
    Setup {
        nperseg: 16,
        nstep: 10,
        fp_size: 10,
        n_freq_taps: 9,
        n_time_taps: 100,
        actual_step_sec: num(0.1),
        spectrogram_offset: num(2.0),
    }
}

#[test]
fn audio_is_held_to_milliseconds() {
    let numerics = Numerics { calc, place };
    let limits = beat_limits(&numerics, 12_345, 1000, num(50.0), &plain_setup());
    assert_eq!(limits.duration, num(12_345.0 * 1e-3));
    assert_eq!(limits.min_sep, num(50.0 * 1e-3));
    let limits = beat_limits(&numerics, 12_345, 10_000, num(50.0), &plain_setup());
    assert_eq!(limits.duration, num(1234.0 * 1e-3));
}

#[test]
fn beats_are_read_at_their_times() {
    let numerics = Numerics { calc, place };
    let setup = Setup {
        actual_step_sec: num(0.5),
        ..plain_setup()
    };
    assert_eq!(
        read_beat(&numerics, &nearest, &setup, num(4.25), num(1.0)),
        BeatReading {
            time: num(4.25),
            gap: num(3.25),
            t_s_raw: 2,
            t_f_raw: 12,
        }
    );
}

#[test]
fn beats_at_times_are_scanned() {
    let numerics = Numerics { calc, place };
    let setup = Setup {
        actual_step_sec: num(0.125),
        ..plain_setup()
    };
    let time = |beat: usize| num(beat as f64 * 0.5);
    let scan = scan_beats(&numerics, &nearest, 2600, 1000, num(600.0), &setup, &time);
    assert!(scan.done);
    assert_eq!(scan.limits.duration, num(2600.0 * 1e-3));
    let found = scan.found;
    assert_eq!(found.beats_scanned, 7);
    assert_eq!(found.skips.too_soon, 3);
    assert_eq!(found.skips.short_window, 1);
    assert_eq!(found.skips.too_late, 1);
    let taps: Vec<(usize, usize, usize)> =
        found.windows.iter().map(|w| (w.beat_index, w.t_s, w.t_f)).collect();
    assert_eq!(taps, vec![(2, 1, 11), (4, 9, 19)]);
}

#[test]
fn scans_are_determined() {
    let numerics = Numerics { calc, place };
    let setup = Setup {
        actual_step_sec: num(0.125),
        ..plain_setup()
    };
    let scan = |time: &dyn Fn(usize) -> Real| {
        scan_beats(&numerics, &nearest, 9000, 1000, num(600.0), &setup, &time)
    };
    let a = scan(&|beat: usize| num(beat as f64 * 0.75));
    let b = scan(&|beat: usize| num((beat * 3) as f64 * 0.25));
    assert_eq!(a.found.windows, b.found.windows);
    assert_eq!(a.found.beats_scanned, b.found.beats_scanned);
    assert_eq!(a.found.skips, b.found.skips);
    assert!(!a.found.windows.is_empty());
}
