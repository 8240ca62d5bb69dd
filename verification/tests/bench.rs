use null_or_die::bench::{
    bench_report, summarize_phase, summarize_runs, BenchRuns, NextRun, Phase, PhaseStats, RunSample,
};
use null_or_die::number::Real;
use null_or_die::numeric::{Numerics, Place, Term};
use null_or_die::paths::{PartKind, PathPart, SimPath};

fn num(v: f64) -> Real {
    Real { bits: v.to_bits() }
}

fn float(v: Real) -> f64 {
    f64::from_bits(v.bits)
}

fn calc(t: Term) -> Real {
    num(match t {
        Term::Plus(a, b) => float(a) + float(b),
        Term::Times(a, b) => float(a) * float(b),
        Term::Over(a, b) => float(a) / float(b),
        Term::Whole(n) => n as f64,
        _ => unreachable!(),
    })
}

fn place(_: u32, _: usize) -> Place {
    unreachable!()
}

fn run(total: f64, charts: usize) -> RunSample {
    RunSample {
        read_simfile: num(0.5),
        analyze_parse: num(0.25 * total),
        decode_audio: num(0.0),
        bias_estimation: num(2.0 * total),
        total: num(total),
        chart_count: charts,
        decoded_audio_files: 1,
    }
}

#[test]
fn phases_are_summed_up() {
    let numerics = Numerics { calc, place };
    let runs = vec![run(1.0, 2), run(4.0, 2), run(2.5, 3)];
    let total = summarize_phase(&numerics, &runs, Phase::Total);
    assert_eq!(
        total,
        PhaseStats {
            avg_ms: num(2500.0),
            min_ms: num(1000.0),
            max_ms: num(4000.0),
        }
    );
    let all = summarize_runs(&numerics, &runs);
    assert_eq!(all.total_ms, total);
    assert_eq!(all.read_simfile_ms.avg_ms, num(500.0));
    assert_eq!(all.analyze_parse_ms.min_ms, num(250.0));
    assert_eq!(all.decode_audio_ms.max_ms, num(0.0));
    assert_eq!(all.bias_estimation_ms.max_ms, num(8000.0));
}

#[test]
fn phases_bound_their_times() {
    let numerics = Numerics { calc, place };
    let times = [0.75, 0.125, 3.0, 0.5];
    let runs: Vec<RunSample> = times.iter().map(|t| run(*t, 1)).collect();
    let stats = summarize_phase(&numerics, &runs, Phase::Total);
    for t in times {
        assert!(float(stats.min_ms) <= t * 1000.0);
        assert!(t * 1000.0 <= float(stats.max_ms));
    }
}

#[test]
fn no_runs_take_no_time() {
    let stats = summarize_phase(&Numerics { calc, place }, &vec![], Phase::Total);
    assert_eq!(
        stats,
        PhaseStats {
            avg_ms: num(0.0),
            min_ms: num(0.0),
            max_ms: num(0.0),
        }
    );
}

#[test]
fn the_last_run_is_reported() {
    let numerics = Numerics { calc, place };
    let simfile = SimPath {
        text: "a.sm".to_string(),
        ext: Some("sm".to_string()),
        parts: vec![PathPart {
            kind: PartKind::Name,
            bytes: b"a.sm".to_vec(),
        }],
        tails: vec!["a.sm".to_string(), String::new()],
    };
    let runs = vec![run(1.0, 2), run(3.0, 5)];
    let report = bench_report(&numerics, "1.2.3", &simfile, 2, 4, &runs).expect("report");
    assert_eq!(report.tool, "rnon");
    assert_eq!(report.version, "1.2.3");
    assert_eq!(report.mode, "bench-analyze");
    assert_eq!(report.simfile_path, simfile.text);
    assert_eq!((report.iterations, report.warmup), (2, 4));
    assert_eq!((report.chart_count, report.decoded_audio_files), (5, 1));
    assert_eq!(report.timings.total_ms.avg_ms, num(2000.0));
    assert_eq!(
        bench_report(&numerics, "1", &simfile, 0, 0, &vec![]).err(),
        Some("internal bench error: no runs recorded".to_string())
    );
}

#[test]
fn warmups_are_thrown_away() {
    let mut runs = BenchRuns::new(2, 3);
    let mut order = Vec::new();
    let mut given = 0.0;
    while runs.next_run() != NextRun::End {
        order.push(runs.next_run());
        given += 1.0;
        runs.record(run(given, 1));
    }
    assert_eq!(
        order,
        vec![
            NextRun::WarmUp,
            NextRun::WarmUp,
            NextRun::Sample,
            NextRun::Sample,
            NextRun::Sample
        ]
    );
    let kept: Vec<Real> = runs.samples.iter().map(|r| r.total).collect();
    assert_eq!(kept, vec![num(3.0), num(4.0), num(5.0)]);
    assert_eq!(BenchRuns::new(0, 0).next_run(), NextRun::End);
}
