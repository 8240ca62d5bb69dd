use null_or_die::analyze::{
    analyze_report, append_error, apply_bias_estimates, assign_chart_music, bias_cfg_from_params,
    build_params, chart_mode, chart_music_tags, charts_from_summary, choose_music_tag,
    default_bias_cfg, parse_error, parse_kernel_target, parse_kernel_type, read_error,
    enter_outcome, first_chart_step, next_chart_step, resolve_paradigm, resolve_report_path, run,
    scan_one, scanned_simfile, trace_dump, trace_place, validate_paradigm, AnalyzeArgs, ChartEvent,
    ChartHost, ChartMode, ChartOutcome, ChartResult, ChartStep, ReportPlace, TracePlace,
};
use null_or_die::audio::OggDecode;
use null_or_die::beats::{BiasTraceLoop, BiasTraceSkips, Setup};
use null_or_die::compat::ToleranceBand;
use null_or_die::fs_scan::{md5_hex, RootKind, WalkEntry};
use null_or_die::model::{AnalyzeParams, BiasEstimate, BiasKernel, KernelTarget};
use null_or_die::number::Real;
use null_or_die::paths::{PartKind, PathPart, SimPath};
use null_or_die::song::{ChartInfo, SongSummary};
use null_or_die::trace::{
    trace_setup, BiasEstimateWithPlot, BiasPlotData, BiasTrace, BiasTraceConv, BiasTraceResult,
};
use null_or_die::trace_ctl::TraceCtl;
use std::cell::Cell;

fn num(v: f64) -> Real {
    Real { bits: v.to_bits() }
}

fn band(tolerance: f64) -> ToleranceBand {
    ToleranceBand {
        tolerance: num(tolerance),
        nine_less: num(9.0 - tolerance),
        nine_more: num(9.0 + tolerance),
    }
}

fn test_params() -> AnalyzeParams {
    AnalyzeParams {
        root_path: ".".to_string(),
        report_path: ".".to_string(),
        consider_null: true,
        consider_p9ms: true,
        tolerance: band(4.0),
        confidence_limit: num(0.8),
        fingerprint_ms: num(50.0),
        window_ms: num(10.0),
        step_ms: num(0.2),
        magic_offset_ms: num(0.0),
        kernel_target: KernelTarget::Digest,
        kernel_type: BiasKernel::Rising,
        full_spectrogram: false,
        to_paradigm: None,
    }
}

fn simple_path(text: &str) -> SimPath {
    let names: Vec<&str> = text.split('/').collect();
    let parts = names
        .iter()
        .map(|n| PathPart {
            kind: PartKind::Name,
            bytes: n.as_bytes().to_vec(),
        })
        .collect();
    let tails = (0..=names.len()).map(|i| names[i..].join("/")).collect();
    SimPath {
        text: text.to_string(),
        ext: text.rsplit_once('.').map(|(_, e)| e.to_string()),
        parts,
        tails,
    }
}

fn chart(description: &str) -> ChartInfo {
    ChartInfo {
        step_type: "dance-single".to_string(),
        difficulty: "Hard".to_string(),
        description: description.to_string(),
        has_own_timing: true,
    }
}

#[test]
fn choose_music_prefers_chart_value() {
    assert_eq!(
        choose_music_tag(Some(" split.ogg "), "base.ogg"),
        "split.ogg".to_string()
    );
}

#[test]
fn choose_music_falls_back_to_root() {
    assert_eq!(choose_music_tag(None, "base.ogg"), "base.ogg".to_string());
}

#[test]
fn analyze_choose_music_prefers_chart_value() {
    assert_eq!(
        choose_music_tag(Some(" split.ogg "), "base.ogg"),
        "split.ogg".to_string()
    );
}

#[test]
fn analyze_choose_music_falls_back_to_root() {
    assert_eq!(choose_music_tag(None, "base.ogg"), "base.ogg".to_string());
}

#[test]
fn blank_chart_music_counts_as_none() {
    assert_eq!(choose_music_tag(Some(" \u{3000}"), " base.ogg\n"), "base.ogg");
}

#[test]
fn resolve_paradigm_applies_confidence_limit() {
    let params = test_params();
    assert_eq!(
        resolve_paradigm(num(0.1), num(0.79), &params),
        "????".to_string()
    );
    assert_eq!(
        resolve_paradigm(num(0.1), num(0.80), &params),
        "null".to_string()
    );
}

#[test]
fn resolve_paradigm_respects_to_paradigm_target() {
    let mut params = test_params();
    params.to_paradigm = Some("null".to_string());
    assert_eq!(
        resolve_paradigm(num(8.9), num(0.95), &params),
        "????".to_string()
    );
    assert_eq!(
        resolve_paradigm(num(0.1), num(0.95), &params),
        "null".to_string()
    );

    params.to_paradigm = Some("+9ms".to_string());
    assert_eq!(
        resolve_paradigm(num(0.1), num(0.95), &params),
        "????".to_string()
    );
    assert_eq!(
        resolve_paradigm(num(8.9), num(0.95), &params),
        "+9ms".to_string()
    );
}

fn args() -> AnalyzeArgs {
    AnalyzeArgs {
        root_path: "Songs".to_string(),
        to_paradigm: None,
        consider_null: true,
        consider_p9ms: false,
        tolerance: band(4.0),
        confidence_limit: num(0.8),
        fingerprint_ms: num(50.0),
        window_ms: num(10.0),
        step_ms: num(0.2),
        magic_offset_ms: num(0.0),
        kernel_target: "ACC".to_string(),
        kernel_type: "1".to_string(),
        full_spectrogram: true,
    }
}

#[test]
fn params_are_built_from_arguments() {
    let params = build_params(&args(), "out").expect("valid arguments");
    assert_eq!(params.root_path, "Songs");
    assert_eq!(params.report_path, "out");
    assert_eq!(params.kernel_target, KernelTarget::Accumulator);
    assert_eq!(params.kernel_type, BiasKernel::Loudest);
    assert!(!params.consider_p9ms);
    let cfg = bias_cfg_from_params(&params);
    assert_eq!(cfg.step_ms, num(0.2));
    assert!(cfg.full_spectrogram);
}

#[test]
fn faulty_arguments_are_named_in_order() {
    let mut odd = args();
    odd.kernel_type = "loud".to_string();
    assert_eq!(
        build_params(&odd, "out").err(),
        Some("invalid kernel type: loud".to_string())
    );
    odd.kernel_target = "2".to_string();
    assert_eq!(
        build_params(&odd, "out").err(),
        Some("invalid kernel target: 2".to_string())
    );
    odd.to_paradigm = Some("+9".to_string());
    assert_eq!(
        build_params(&odd, "out").err(),
        Some("invalid paradigm: +9".to_string())
    );
}

#[test]
fn words_for_kernels_and_paradigms() {
    assert_eq!(parse_kernel_target("0"), Ok(KernelTarget::Digest));
    assert_eq!(parse_kernel_target("Digest"), Ok(KernelTarget::Digest));
    assert_eq!(parse_kernel_target("accumulator"), Ok(KernelTarget::Accumulator));
    assert_eq!(parse_kernel_target("1"), Ok(KernelTarget::Accumulator));
    assert_eq!(parse_kernel_type("rising"), Ok(BiasKernel::Rising));
    assert_eq!(parse_kernel_type("0"), Ok(BiasKernel::Rising));
    assert_eq!(parse_kernel_type("LOUDEST"), Ok(BiasKernel::Loudest));
    assert_eq!(validate_paradigm(None), Ok(None));
    assert_eq!(validate_paradigm(Some("+9ms")), Ok(Some("+9ms".to_string())));
    assert_eq!(
        validate_paradigm(Some("NULL")),
        Err("invalid paradigm: NULL".to_string())
    );
}

#[test]
fn default_settings_are_the_usual_numbers() {
    let cfg = default_bias_cfg();
    assert_eq!(cfg.fingerprint_ms, num(50.0));
    assert_eq!(cfg.window_ms, num(10.0));
    assert_eq!(cfg.step_ms, num(0.2));
    assert_eq!(cfg.magic_offset_ms, num(0.0));
    assert_eq!(cfg.kernel_target, KernelTarget::Digest);
    assert_eq!(cfg.kernel_type, BiasKernel::Rising);
    assert!(!cfg.full_spectrogram);
}

#[test]
fn reports_go_beside_or_into_the_root() {
    let song = simple_path("pack/song.sm");
    assert_eq!(resolve_report_path(&song, true, true), Ok(ReportPlace::Given));
    assert_eq!(resolve_report_path(&song, true, false), Ok(ReportPlace::BesideRoot));
    assert_eq!(resolve_report_path(&song, false, false), Ok(ReportPlace::InRoot));
    let root = SimPath {
        text: "/".to_string(),
        ext: None,
        parts: vec![PathPart {
            kind: PartKind::Root,
            bytes: Vec::new(),
        }],
        tails: vec!["/".to_string(), String::new()],
    };
    assert_eq!(
        resolve_report_path(&root, true, false),
        Err("cannot resolve parent dir for /".to_string())
    );
}

#[test]
fn fresh_charts_know_what_their_simfile_says() {
    let scans = charts_from_summary(&vec![chart("first"), chart("second")]);
    assert_eq!(scans.len(), 2);
    assert_eq!(scans[1].chart_index, 1);
    assert_eq!(scans[1].description, "second");
    assert_eq!(scans[1].slot_null, "ESP");
    assert_eq!(scans[1].slot_p9ms, "SH");
    assert_eq!(scans[1].status, "stub");
    assert!(scans[1].chart_has_own_timing);
    assert_eq!(scans[1].paradigm, None);
}

#[test]
fn music_is_assigned_where_there_is_any() {
    let mut scans = charts_from_summary(&vec![chart("a"), chart("b"), chart("c")]);
    assert_eq!(chart_music_tags(2, " x.ogg"), vec!["x.ogg", "x.ogg"]);
    assign_chart_music(&mut scans, &vec![" one.ogg".to_string(), "  ".to_string()]);
    assert_eq!(scans[0].music_tag, Some("one.ogg".to_string()));
    assert_eq!(scans[1].music_tag, None);
    assert_eq!(scans[2].music_tag, None);
}

#[test]
fn remarks_stand_in_brackets() {
    assert_eq!(append_error(" ", "oops"), "[oops]");
    assert_eq!(append_error("hard one ", "oops"), "hard one  [oops]");
}

#[test]
fn outcomes_are_entered_chart_by_chart() {
    let mut scans = charts_from_summary(&vec![chart(""), chart("b"), chart("c"), chart("d")]);
    let tags = vec!["t0".to_string(), "t1".to_string(), "t2".to_string()];
    let est = BiasEstimate {
        bias_ms: num(9.1),
        confidence: num(0.9),
        conv_quint: num(0.5),
        conv_stdev: num(0.25),
    };
    let decodes = Cell::new(0usize);
    let host = ChartHost {
        lookup: |tag: &str| {
            (!tag.is_empty()).then_some(simple_path(if tag == "t0" { "s/a.ogg" } else { "s/b.ogg" }))
        },
        decode: |path: &SimPath| {
            decodes.set(decodes.get() + 1);
            if path.text == "s/a.ogg" {
                Err("gone".to_string())
            } else {
                Ok(OggDecode {
                    sample_rate_hz: 8,
                    mono: vec![1, 2],
                })
            }
        },
        estimate: |i: usize, tag: &str, audio: &OggDecode| {
            assert_eq!((audio.sample_rate_hz, audio.mono.len()), (8, 2));
            assert_eq!(tag, format!("t{i}"));
            if i == 1 {
                ChartResult::NoEstimate("too short".to_string())
            } else {
                ChartResult::Estimated(est, Some("disk full".to_string()))
            }
        },
    };
    let simfile = simple_path("s/x.sm");
    apply_bias_estimates(&simfile, &mut scans, &tags, &test_params(), &host);
    assert_eq!(decodes.get(), 2);
    assert_eq!(scans[0].status, "audio_unavailable");
    assert_eq!(scans[0].description, "[audio_unavailable: gone]");
    assert_eq!(scans[0].paradigm, Some("????".to_string()));
    assert_eq!(scans[1].status, "bias_error");
    assert_eq!(scans[1].description, "b [bias_error: too short]");
    assert_eq!(scans[1].bias_ms, None);
    assert_eq!(scans[2].status, "computed");
    assert_eq!(scans[2].description, "c [plot_error: disk full]");
    assert_eq!(scans[2].bias_ms, Some(num(9.1)));
    assert_eq!(scans[2].conv_stdev, Some(num(0.25)));
    assert_eq!(scans[2].paradigm, Some("+9ms".to_string()));
    assert_eq!(
        scans[3].description,
        "d [audio_unavailable: could not resolve #MUSIC \"\"]"
    );
}

#[test]
fn plots_come_before_traces() {
    assert_eq!(chart_mode(true, true), ChartMode::PlottedAndTraced);
    assert_eq!(chart_mode(true, false), ChartMode::Plotted);
    assert_eq!(chart_mode(false, true), ChartMode::Traced);
    assert_eq!(chart_mode(false, false), ChartMode::Plain);
}

#[test]
fn simfiles_are_reported() {
    let path = simple_path("pack/Song.SM");
    let unread = read_error(&path, "Song.SM", "denied");
    assert_eq!(unread.error, Some("read failed: denied".to_string()));
    assert_eq!(unread.simfile_md5, "");
    assert_eq!(unread.extension, "sm");
    assert_eq!(unread.status, "error");
    let odd = parse_error(&path, "Song.SM", "00ff", "no charts");
    assert_eq!(odd.error, Some("rssp analyze failed: no charts".to_string()));
    assert_eq!(odd.simfile_md5, "00ff");
    let song = SongSummary {
        title: "T".to_string(),
        subtitle: "S".to_string(),
        artist: "A".to_string(),
        music_path: "m.ogg".to_string(),
        charts: vec![chart("x")],
    };
    let scan = scanned_simfile(
        &path,
        "Song.SM",
        "00ff",
        &song,
        num(-0.009),
        charts_from_summary(&song.charts),
    );
    assert_eq!(scan.status, "scanned");
    assert_eq!(scan.title, Some("T".to_string()));
    assert_eq!(scan.music_tag, Some("m.ogg".to_string()));
    assert_eq!(scan.offset_seconds, Some(num(-0.009)));
    assert_eq!(scan.charts.len(), 1);
    let report = analyze_report("1.2.3", test_params(), vec![unread, odd, scan]);
    assert_eq!(report.tool, "null-or-die");
    assert_eq!(report.mode, "scan");
    assert_eq!(report.version, "1.2.3");
    assert_eq!(report.simfile_count, 3);
}

fn song(music: &str, charts: Vec<ChartInfo>) -> SongSummary {
    SongSummary {
        title: "T".to_string(),
        subtitle: "S".to_string(),
        artist: "A".to_string(),
        music_path: music.to_string(),
        charts,
    }
}

#[test]
fn one_simfile_is_scanned() {
    let path = simple_path("packs/a/b.SM");
    let root = simple_path("packs");
    let read = |_: &SimPath| Ok(b"bytes".to_vec());
    let parse = |bytes: &Vec<u8>, ext: &str| {
        assert_eq!(bytes, b"bytes");
        assert_eq!(ext, "sm");
        Ok((song(" m.ogg ", vec![chart("x"), chart("y")]), num(0.5)))
    };
    let host = ChartHost {
        lookup: |tag: &str| Some(simple_path(&format!("packs/a/{tag}"))),
        decode: |_: &SimPath| {
            Ok(OggDecode {
                sample_rate_hz: 8,
                mono: Vec::new(),
            })
        },
        estimate: |i: usize, tag: &str, _: &OggDecode| {
            ChartResult::NoEstimate(format!("{i} {tag}"))
        },
    };
    let scan = scan_one(&path, &root, &test_params(), &read, &parse, &host);
    assert_eq!(scan.status, "scanned");
    assert_eq!(scan.simfile_rel, "a/b.SM");
    assert_eq!(scan.simfile_md5, md5_hex(b"bytes"));
    assert_eq!(scan.music_tag, Some(" m.ogg ".to_string()));
    assert_eq!(scan.offset_seconds, Some(num(0.5)));
    assert_eq!(scan.charts.len(), 2);
    assert_eq!(scan.charts[1].music_tag, Some("m.ogg".to_string()));
    assert_eq!(scan.charts[1].description, "y [bias_error: 1 m.ogg]");
    let unread = |_: &SimPath| Err::<Vec<u8>, String>("denied".to_string());
    let scan = scan_one(&path, &root, &test_params(), &unread, &parse, &host);
    assert_eq!(scan.error, Some("read failed: denied".to_string()));
    let odd = |_: &Vec<u8>, _: &str| Err::<(SongSummary, Real), String>("odd".to_string());
    let scan = scan_one(&path, &root, &test_params(), &read, &odd, &host);
    assert_eq!(scan.error, Some("rssp analyze failed: odd".to_string()));
    assert_eq!(scan.simfile_md5, md5_hex(b"bytes"));
}

#[test]
fn all_simfiles_are_reported() {
    let entries: Vec<WalkEntry> = ["packs/b/x.sm", "packs/a/y.ssc", "packs/a/y.sm"]
        .iter()
        .map(|t| WalkEntry {
            path: simple_path(t),
            is_file: true,
        })
        .collect();
    let root = simple_path("packs");
    let read = |p: &SimPath| Ok(p.text.as_bytes().to_vec());
    let parse = |bytes: &Vec<u8>, _: &str| {
        if bytes == b"packs/b/x.sm" {
            Err("odd".to_string())
        } else {
            Ok((song("m.ogg", vec![chart("x")]), num(0.5)))
        }
    };
    let host_of = |p: &SimPath| {
        let own = p.text.clone();
        ChartHost {
            lookup: |tag: &str| Some(simple_path(&format!("packs/{tag}"))),
            decode: |_: &SimPath| Err::<OggDecode, String>("silent".to_string()),
            estimate: move |_: usize, _: &str, _: &OggDecode| ChartResult::NoEstimate(own.clone()),
        }
    };
    let go = |kind: RootKind| {
        run("2", &root, kind, &entries, test_params(), &read, &parse, &host_of)
    };
    let report = go(RootKind::Directory).expect("a directory");
    assert_eq!(report.simfile_count, 2);
    let paths: Vec<&str> = report.simfiles.iter().map(|s| s.simfile_path.as_str()).collect();
    assert_eq!(paths, vec!["packs/a/y.ssc", "packs/b/x.sm"]);
    assert_eq!(report.tool, "null-or-die");
    assert_eq!(report.simfiles[0].simfile_rel, "a/y.ssc");
    assert_eq!(
        report.simfiles[0].charts[0].description,
        "x [audio_unavailable: silent]"
    );
    assert_eq!(
        report.simfiles[1].error,
        Some("rssp analyze failed: odd".to_string())
    );
    assert_eq!(
        go(RootKind::File).err(),
        Some("not a simfile: packs".to_string())
    );
}

fn trace() -> BiasTrace {
    let zero = num(0.0);
    let setup = Setup {
        nperseg: 8,
        nstep: 1,
        fp_size: 8,
        n_freq_taps: 5,
        n_time_taps: 1,
        actual_step_sec: zero,
        spectrogram_offset: zero,
    };
    BiasTrace {
        setup: trace_setup(44100, 1, &setup, zero),
        skip_counts: BiasTraceSkips::default(),
        loop_stats: BiasTraceLoop {
            beats_scanned: 7,
            beats_used: 0,
            first_beat_index: 0,
            last_beat_index: 0,
            first_beat_time_s: zero,
            last_beat_time_s: zero,
        },
        beat_head: Vec::new(),
        beat_tail: Vec::new(),
        convolution: BiasTraceConv {
            edge_discard: 2,
            clip_min: zero,
            clip_max: zero,
            clip_mean: zero,
            clip_std: zero,
            top_peaks: Vec::new(),
        },
        result: BiasTraceResult {
            bias_ms: zero,
            confidence: zero,
            conv_quint: zero,
            conv_stdev: zero,
            i_max: 0,
            v_median: zero,
            v_max: zero,
            v20: zero,
            v80: zero,
            total_max_influence: zero,
        },
    }
}

#[test]
fn traces_are_dumped_with_their_settings() {
    let trace = trace();
    let est = BiasEstimate {
        bias_ms: num(1.0),
        confidence: num(1.0),
        conv_quint: num(0.0),
        conv_stdev: num(0.0),
    };
    let path = simple_path("p/s.sm");
    let dump = trace_dump(&path, &chart("c"), 3, "m.ogg", &test_params(), est, trace);
    assert_eq!(dump.simfile_path, "p/s.sm");
    assert_eq!(dump.chart_index, 3);
    assert_eq!(dump.music_tag, "m.ogg");
    assert_eq!(dump.kernel_target, format!("{:?}", KernelTarget::Digest));
    assert_eq!(dump.kernel_type, format!("{:?}", BiasKernel::Rising));
    assert_eq!(dump.params.window_ms, num(10.0));
    assert_eq!(dump.trace.loop_stats.beats_scanned, 7);
    assert_eq!(dump.estimate, est);
    let ctl = |dir: Option<&str>| TraceCtl::from_settings(Some("1"), None, None, dir);
    assert_eq!(trace_place(&ctl(Some("/t")), &path), TracePlace::Given);
    assert_eq!(trace_place(&ctl(None), &path), TracePlace::BesideSimfile);
    let mut bare = path.clone();
    bare.parts = Vec::new();
    assert_eq!(trace_place(&ctl(None), &bare), TracePlace::InSimfile);
}

#[test]
fn charts_are_estimated_as_they_are_asked_for() {
    let est = |bias: f64| BiasEstimate {
        bias_ms: num(bias),
        confidence: num(1.0),
        conv_quint: num(0.0),
        conv_stdev: num(0.0),
    };
    let plot = || BiasPlotData {
        freq_rows: 0,
        digest_rows: 0,
        cols: 0,
        post_rows: 0,
        post_target: KernelTarget::Digest,
        freq_domain: Vec::new(),
        beat_digest: Vec::new(),
        post_kernel: Vec::new(),
        convolution: Vec::new(),
        times_ms: Vec::new(),
        freqs_khz: Vec::new(),
        beat_indices: Vec::new(),
        bias_ms: num(0.0),
        edge_discard: 2,
    };
    let found = || BiasEstimateWithPlot {
        estimate: est(3.0),
        plot: plot(),
    };
    // Goes through the steps, with every estimate well or none, and tells what was drawn and
    // stored on the way.
    let go = |mode: ChartMode, well: bool| {
        let told = |what: &str| Err::<(), String>(what.to_string());
        let (mut draws, mut dumps) = (0usize, Vec::new());
        let mut step = first_chart_step(mode);
        loop {
            let event = match &step {
                ChartStep::Estimate if well => ChartEvent::Estimated(Ok(est(1.0))),
                ChartStep::Estimate => ChartEvent::Estimated(Err("p".to_string())),
                ChartStep::Trace { .. } if well => ChartEvent::Traced(Ok((est(2.0), trace()))),
                ChartStep::Trace { .. } => ChartEvent::Traced(Err("t".to_string())),
                ChartStep::Plot if well => ChartEvent::Plotted(Ok(found())),
                ChartStep::Plot => ChartEvent::Plotted(Err("g".to_string())),
                ChartStep::Draw(v) => {
                    assert_eq!(v.estimate, est(3.0));
                    draws += 1;
                    ChartEvent::Drawn(told("disk full"))
                }
                ChartStep::Dump { est, .. } => {
                    dumps.push(est.bias_ms);
                    ChartEvent::Dumped(told("not stored"))
                }
                ChartStep::Finished(ChartResult::Estimated(e, fault)) => {
                    return (Some(e.bias_ms), fault.clone(), draws, dumps);
                }
                ChartStep::Finished(ChartResult::NoEstimate(e)) => {
                    return (None, Some(e.clone()), draws, dumps);
                }
            };
            step = next_chart_step(mode, step, event);
        }
    };
    let full = || Some("disk full".to_string());
    assert_eq!(go(ChartMode::Plain, true), (Some(num(1.0)), None, 0, vec![]));
    assert_eq!(go(ChartMode::Traced, true), (Some(num(2.0)), None, 0, vec![num(2.0)]));
    assert_eq!(go(ChartMode::Plotted, true), (Some(num(3.0)), full(), 1, vec![]));
    assert_eq!(
        go(ChartMode::PlottedAndTraced, true),
        (Some(num(3.0)), full(), 1, vec![num(2.0)])
    );
    let none = |e: &str| (None, Some(e.to_string()), 0, vec![]);
    assert_eq!(go(ChartMode::Plain, false), none("p"));
    assert_eq!(go(ChartMode::Traced, false), none("t"));
    assert_eq!(go(ChartMode::Plotted, false), none("g"));
    assert_eq!(go(ChartMode::PlottedAndTraced, false), none("g"));
    let mode = ChartMode::PlottedAndTraced;
    let step = next_chart_step(mode, ChartStep::Draw(found()), ChartEvent::Drawn(Ok(())));
    let step = next_chart_step(mode, step, ChartEvent::Traced(Err("t".to_string())));
    assert!(matches!(
        step,
        ChartStep::Finished(ChartResult::Estimated(e, None)) if e == est(3.0)
    ));
}

#[test]
fn outcomes_are_entered() {
    let mut scan = charts_from_summary(&vec![chart("d")]).remove(0);
    enter_outcome(&mut scan, ChartOutcome::NoAudio("gone".to_string()), &test_params());
    assert_eq!(scan.status, "audio_unavailable");
    assert_eq!(scan.description, "d [audio_unavailable: gone]");
}
