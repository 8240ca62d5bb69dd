use null_or_die::audio::OggDecode;
use null_or_die::bench::{check_bench, parse_bias_cfg, run_once};
use null_or_die::cli::compat_args;
use null_or_die::model::{BiasEstimate, BiasKernel, KernelTarget};
use null_or_die::number::Real;
use null_or_die::paths::{PartKind, PathPart, SimPath};
use null_or_die::song::{
    analyze_chart_with_runtime, inspect_simfile, load_chart, read_summary, resolve_music_path, resolve_song_audio_path,
    AudioCache, ChartInfo, LoadFault, SongSummary,
};
use null_or_die::trace::{BiasEstimateWithPlot, BiasPlotData};
use std::cell::Cell;

fn simple_path(text: &str) -> SimPath {
    let names: Vec<&str> = text.split('/').collect();
    let parts = names
        .iter()
        .map(|n| PathPart {
            kind: PartKind::Name,
            bytes: n.as_bytes().to_vec(),
        })
        .collect();
    let tails = (0..=names.len()).map(|i| names[i..].join("/")).collect();
    SimPath {
        text: text.to_string(),
        ext: text.rsplit_once('.').map(|(_, e)| e.to_string()),
        parts,
        tails,
    }
}

fn nowhere() -> SimPath {
    SimPath {
        text: String::new(),
        ext: None,
        parts: Vec::new(),
        tails: vec![String::new()],
    }
}

fn song(music: &str) -> SongSummary {
    let chart = |difficulty: &str| ChartInfo {
        step_type: "dance-single".to_string(),
        difficulty: difficulty.to_string(),
        description: "d".to_string(),
        has_own_timing: false,
    };
    SongSummary {
        title: "T".to_string(),
        subtitle: "S".to_string(),
        artist: "A".to_string(),
        music_path: music.to_string(),
        charts: vec![chart("Easy"), chart("Hard")],
    }
}

fn found(_: &str) -> Option<SimPath> {
    Some(simple_path("p/m.ogg"))
}

#[test]
fn charts_of_a_simfile_are_offered() {
    let load = || Ok(song(" m.ogg "));
    let metas = inspect_simfile(&simple_path("p/s.sm"), true, &load, &found).expect("charts");
    assert_eq!(metas.len(), 2);
    assert_eq!(metas[1].chart_index, 1);
    assert_eq!(metas[1].difficulty, "Hard");
    assert_eq!(metas[1].title, "T");
    assert_eq!(metas[1].music_tag, "m.ogg");
    assert_eq!(metas[1].music_path, "p/m.ogg");
    assert_eq!(metas[1].simfile_path, "p/s.sm");
}

#[test]
fn faults_of_a_simfile() {
    let path = simple_path("p/s.sm");
    let load = || Ok(song("m.ogg"));
    let fault = |r: Result<Vec<null_or_die::song::SyncChartMeta>, String>| r.err().expect("a fault");
    assert_eq!(
        fault(inspect_simfile(&path, false, &load, &found)),
        "simfile path is not a file: p/s.sm"
    );
    let unread = || Err::<SongSummary, LoadFault>(LoadFault::Read("denied".to_string()));
    assert_eq!(
        fault(inspect_simfile(&path, true, &unread, &found)),
        "read p/s.sm failed: denied"
    );
    let odd = || Err::<SongSummary, LoadFault>(LoadFault::Parse("no notes".to_string()));
    assert_eq!(
        fault(inspect_simfile(&path, true, &odd, &found)),
        "rssp analyze failed: no notes"
    );
    assert_eq!(
        fault(inspect_simfile(&nowhere(), true, &load, &found)),
        "simfile has no parent directory: "
    );
    let silent = || Ok(song("  "));
    assert_eq!(
        fault(inspect_simfile(&path, true, &silent, &found)),
        "simfile has empty #MUSIC tag"
    );
    let gone = |_: &str| None;
    assert_eq!(
        fault(inspect_simfile(&path, true, &load, &gone)),
        "could not resolve #MUSIC \"m.ogg\""
    );
    let wave = |_: &str| Some(simple_path("p/m.wav"));
    assert_eq!(
        fault(inspect_simfile(&path, true, &load, &wave)),
        "unsupported audio format p/m.wav"
    );
    assert!(read_summary(&path, true, &load).is_ok());
}

#[test]
fn tags_are_quoted_where_they_lead_nowhere() {
    let gone = |_: &str| None;
    let tag = "a \"b\"\t\u{e9}\\";
    assert_eq!(
        resolve_music_path(tag, &gone).err(),
        Some(format!("could not resolve #MUSIC {tag:?}"))
    );
}

#[test]
fn audio_of_a_chart_is_loaded() {
    let path = simple_path("p/s.sm");
    let decode = |p: &SimPath| {
        Ok(OggDecode {
            sample_rate_hz: p.text.len() as u32,
            mono: vec![1],
        })
    };
    let loaded = load_chart(&path, &song("m.ogg"), 1, &found, &decode).expect("audio");
    assert_eq!(loaded.audio.sample_rate_hz, 7);
    assert_eq!(loaded.meta.chart_index, 1);
    assert_eq!(
        load_chart(&path, &song("m.ogg"), 2, &found, &decode).err(),
        Some("chart index out of range: 2".to_string())
    );
    let broken = |_: &SimPath| Err::<OggDecode, String>("bad".to_string());
    assert_eq!(
        load_chart(&path, &song("m.ogg"), 0, &found, &broken).err(),
        Some("bad".to_string())
    );
}

#[test]
fn chart_audio_is_looked_up() {
    let path = simple_path("p/s.sm");
    assert_eq!(
        resolve_song_audio_path(&path, "", &found).map(|p| p.text),
        Ok("p/m.ogg".to_string())
    );
    assert_eq!(
        resolve_song_audio_path(&nowhere(), "x", &found).err(),
        Some("simfile has no parent directory".to_string())
    );
}

#[test]
fn audio_is_decoded_once() {
    let count = Cell::new(0);
    let decode = |p: &SimPath| {
        count.set(count.get() + 1);
        if p.text == "b.ogg" {
            Err("bad".to_string())
        } else {
            Ok(OggDecode {
                sample_rate_hz: 1,
                mono: Vec::new(),
            })
        }
    };
    let mut cache = AudioCache::new();
    assert_eq!(cache.fetch(&simple_path("a.ogg"), &decode), 0);
    assert_eq!(cache.fetch(&simple_path("b.ogg"), &decode), 1);
    assert_eq!(cache.fetch(&simple_path("b.ogg"), &decode), 1);
    assert_eq!(cache.fetch(&simple_path("a.ogg"), &decode), 0);
    assert_eq!(count.get(), 2);
    assert_eq!(cache.entries[1].decode.clone().err(), Some("bad".to_string()));
}

#[test]
fn one_chart_is_analyzed() {
    let path = simple_path("p/s.sm");
    let load = || Ok(song("m.ogg"));
    let decode = |_: &SimPath| {
        Ok(OggDecode {
            sample_rate_hz: 8,
            mono: vec![1, 2],
        })
    };
    let num = |v: f64| Real { bits: v.to_bits() };
    let estimate = |i: usize, audio: &OggDecode| {
        assert_eq!(audio.mono, vec![1, 2]);
        if i == 0 {
            return Err("short".to_string());
        }
        Ok(BiasEstimateWithPlot {
            estimate: BiasEstimate {
                bias_ms: num(4.0),
                confidence: num(1.0),
                conv_quint: num(0.0),
                conv_stdev: num(0.0),
            },
            plot: BiasPlotData {
                freq_rows: 0,
                digest_rows: 0,
                cols: 3,
                post_rows: 0,
                post_target: KernelTarget::Digest,
                freq_domain: Vec::new(),
                beat_digest: Vec::new(),
                post_kernel: Vec::new(),
                convolution: Vec::new(),
                times_ms: Vec::new(),
                freqs_khz: Vec::new(),
                beat_indices: Vec::new(),
                bias_ms: num(4.0),
                edge_discard: 2,
            },
        })
    };
    let go = |is_file: bool, i: usize| {
        analyze_chart_with_runtime(&path, is_file, i, &load, &found, &decode, &estimate)
    };
    let result = go(true, 1).expect("a result");
    assert_eq!(result.meta.difficulty, "Hard");
    assert_eq!(result.meta.music_path, "p/m.ogg");
    assert_eq!(result.estimate.bias_ms, num(4.0));
    assert_eq!(result.plot.cols, 3);
    assert_eq!(go(true, 0).err(), Some("short".to_string()));
    assert_eq!(go(true, 2).err(), Some("chart index out of range: 2".to_string()));
    assert_eq!(
        go(false, 1).err(),
        Some("simfile path is not a file: p/s.sm".to_string())
    );
}

#[test]
fn one_run_of_a_bench() {
    let path = simple_path("p/s.sm");
    let load = || Ok(song("m.ogg"));
    let decode = |p: &SimPath| {
        Ok(OggDecode {
            sample_rate_hz: p.text.len() as u32,
            mono: vec![7],
        })
    };
    let estimate = |_: usize, audio: &OggDecode| {
        assert_eq!((audio.sample_rate_hz, audio.mono.as_slice()), (7, &[7i16][..]));
        Ok(())
    };
    assert_eq!(run_once(&path, &load, &found, &decode, &estimate), Ok((2, 1)));
    let unread = || Err::<SongSummary, LoadFault>(LoadFault::Read("denied".to_string()));
    assert_eq!(
        run_once(&path, &unread, &found, &decode, &estimate),
        Err("read simfile p/s.sm failed: denied".to_string())
    );
    let odd = || Err::<SongSummary, LoadFault>(LoadFault::Parse("odd".to_string()));
    assert_eq!(
        run_once(&path, &odd, &found, &decode, &estimate),
        Err("rssp analyze failed: odd".to_string())
    );
    let broken = |_: &SimPath| Err::<OggDecode, String>("bad".to_string());
    assert_eq!(
        run_once(&path, &load, &found, &broken, &estimate),
        Err("audio decode failed for p/m.ogg: bad".to_string())
    );
    let second = |i: usize, _: &OggDecode| {
        if i == 1 {
            Err("short".to_string())
        } else {
            Ok(())
        }
    };
    assert_eq!(
        run_once(&path, &load, &found, &decode, &second),
        Err("bias estimation failed: short".to_string())
    );
}

#[test]
fn a_bench_needs_a_file_and_runs() {
    let path = simple_path("p/s.sm");
    assert_eq!(check_bench(1, true, &path), Ok(()));
    assert_eq!(
        check_bench(0, false, &path),
        Err("iterations must be >= 1".to_string())
    );
    assert_eq!(
        check_bench(1, false, &path),
        Err("simfile path is not a file: p/s.sm".to_string())
    );
}

#[test]
fn settings_of_a_bench() {
    let num = |v: f64| Real { bits: v.to_bits() };
    let parse = |target: &str, kernel: &str| {
        parse_bias_cfg(num(50.0), num(10.0), num(0.2), num(0.0), target, kernel, true)
    };
    let cfg = parse("acc", "loudest").expect("settings");
    assert_eq!(cfg.kernel_target, KernelTarget::Accumulator);
    assert_eq!(cfg.kernel_type, BiasKernel::Loudest);
    assert_eq!(cfg.window_ms, num(10.0));
    assert_eq!(parse("x", "y").err(), Some("invalid kernel target: x".to_string()));
    assert_eq!(parse("0", "y").err(), Some("invalid kernel type: y".to_string()));
}

#[test]
fn the_analyze_option_is_taken_as_the_command() {
    let words = |list: &[&str]| list.iter().map(|w| w.to_string()).collect::<Vec<String>>();
    assert_eq!(
        compat_args(words(&["nod", "--analyze", "x.sm", "--plot"])),
        words(&["nod", "analyze", "x.sm", "--plot"])
    );
    assert_eq!(
        compat_args(words(&["nod", "plot", "--analyze"])),
        words(&["nod", "plot", "--analyze"])
    );
    assert_eq!(compat_args(words(&["nod"])), words(&["nod"]));
}
