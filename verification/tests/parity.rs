use null_or_die::audio::OggDecode;
use null_or_die::fs_scan::{md5_hex, RootKind, WalkEntry};
use null_or_die::model::{BiasEstimate, ParityReport};
use null_or_die::number::Real;
use null_or_die::numeric::{Numerics, Place, Term};
use null_or_die::parity::{
    baseline_candidates, biases_agree, chart_of_row, native_bias, parity_verdict, read_baseline,
    rows_verdict, run, BaselineRow, Files, Judge, ParityCmd, RowFate,
};
use null_or_die::paths::{PartKind, PathPart, SimPath};
use null_or_die::song::{ChartInfo, SongSummary};
use std::collections::BTreeMap;

fn num(v: f64) -> Real {
    Real { bits: v.to_bits() }
}

fn float(v: Real) -> f64 {
    f64::from_bits(v.bits)
}

fn simple_path(text: &str) -> SimPath {
    let names: Vec<&str> = text.split('/').collect();
    let parts = names
        .iter()
        .map(|n| PathPart {
            kind: PartKind::Name,
            bytes: n.as_bytes().to_vec(),
        })
        .collect();
    let tails = (0..=names.len()).map(|i| names[i..].join("/")).collect();
    SimPath {
        text: text.to_string(),
        ext: text.rsplit_once('.').map(|(_, e)| e.to_string()),
        parts,
        tails,
    }
}

fn cmd(fail_on_missing: bool) -> ParityCmd {
    ParityCmd {
        root_path: simple_path("packs"),
        baseline_path: simple_path("baseline"),
        output: None,
        fail_on_missing,
        fail_on_mismatch: false,
    }
}

/// Runs over a disk that holds these files.
fn run_on(disk: &BTreeMap<String, Vec<u8>>, args: &ParityCmd) -> Result<ParityReport, String> {
    let entries: Vec<WalkEntry> = disk
        .keys()
        .map(|k| WalkEntry {
            path: simple_path(k),
            is_file: true,
        })
        .filter(|e| e.path.text.starts_with("packs/"))
        .collect();
    let files = Files {
        read: |p: &SimPath| disk.get(&p.text).cloned().ok_or("no such file".to_string()),
        below_baseline: |rel: &str| simple_path(&format!("baseline/{rel}")),
        exists: |p: &SimPath| disk.contains_key(&p.text),
    };
    run("0.1.0", args, RootKind::Directory, &entries, &files, &judge())
}

type Parse = fn(&Vec<u8>) -> Result<Vec<BaselineRow>, String>;
type Native = fn(&SimPath, &BaselineRow) -> Result<Real, String>;
type Calc = fn(Term) -> Real;
type Places = fn(u32, usize) -> Place;

fn calc(t: Term) -> Real {
    match t {
        Term::Minus(a, b) => num(float(a) - float(b)),
        _ => unreachable!("{t:?}"),
    }
}

fn place(_: u32, _: usize) -> Place {
    unreachable!("no percentile is asked for")
}

fn numerics() -> Numerics<Calc, Places> {
    Numerics { calc, place }
}

fn rows_of(bytes: &Vec<u8>) -> Result<Vec<BaselineRow>, String> {
    let value: serde_json::Value = serde_json::from_slice(bytes).map_err(|e| e.to_string())?;
    let rows = value["charts"].as_array().cloned().unwrap_or_default();
    Ok(rows
        .iter()
        .map(|row| BaselineRow {
            chart_index: row["chart_index"].as_u64().map(|i| i as usize),
            music: row["music"].as_str().map(str::to_string),
            bias_ms: row["bias_ms"].as_f64().map(num),
        })
        .collect())
}

/// Every chart has a bias of 9 and of its index, but for the eighth.
fn native(_: &SimPath, row: &BaselineRow) -> Result<Real, String> {
    match row.chart_index {
        Some(7) => Err("no audio".to_string()),
        Some(i) => Ok(num(9.0 + i as f64)),
        None => Ok(num(9.0)),
    }
}

fn judge() -> Judge<Parse, Native, Calc, Places> {
    Judge {
        parse: rows_of,
        native,
        num: numerics(),
    }
}

#[test]
fn parity_matches_existing_baseline_file() {
    let bytes = b"#TITLE:Test;#BPMS:0.000=120.000;#NOTES:dance-single:desc:Easy:1:0,0,0,0:0000\n;";
    let md5 = md5_hex(bytes);
    let mut disk = BTreeMap::new();
    disk.insert("packs/PackA/SongA/chart.sm".to_string(), bytes.to_vec());
    disk.insert(format!("baseline/{}/{md5}.json", &md5[0..2]), b"{}".to_vec());
    let report = run_on(&disk, &cmd(true)).expect("run parity");
    assert_eq!(report.total_simfiles, 1);
    assert_eq!(report.matched, 1);
    assert_eq!(report.missing_baseline, 0);
    assert_eq!(report.invalid_baseline, 0);
    assert_eq!(parity_verdict(&cmd(true), &report), Ok(()));
}

#[test]
fn parity_reports_missing_baseline() {
    let mut disk = BTreeMap::new();
    disk.insert(
        "packs/PackA/SongA/chart.sm".to_string(),
        b"#TITLE:Missing;".to_vec(),
    );
    let report = run_on(&disk, &cmd(false)).expect("run parity");
    assert_eq!(report.total_simfiles, 1);
    assert_eq!(report.matched, 0);
    assert_eq!(report.missing_baseline, 1);
    assert_eq!(parity_verdict(&cmd(false), &report), Ok(()));
    assert_eq!(
        parity_verdict(&cmd(true), &report),
        Err("missing 1 baseline fixture(s)".to_string())
    );
}

#[test]
fn compressed_and_invalid_baselines() {
    let mut disk = BTreeMap::new();
    for (song, body) in [("a", "one"), ("b", "two"), ("c", "three")] {
        disk.insert(format!("packs/{song}/s.sm"), body.as_bytes().to_vec());
    }
    let place = |body: &str, tail: &str| {
        let md5 = md5_hex(body.as_bytes());
        format!("baseline/{}/{md5}{tail}", &md5[0..2])
    };
    let packed = null_or_die::harness::pack_fixture(&b"{\"charts\":[]}".to_vec(), 3)
        .expect("compressed");
    disk.insert(place("one", ".json.zst"), packed);
    disk.insert(place("two", ".json.zst"), b"not a stream".to_vec());
    disk.insert(place("three", ".json"), b"{".to_vec());
    let report = run_on(&disk, &cmd(true)).expect("run parity");
    assert_eq!(report.tool, "rnon");
    assert_eq!(report.mode, "baseline-mapping");
    assert_eq!(report.total_simfiles, 3);
    assert_eq!(report.matched, 1);
    assert_eq!(report.invalid_baseline, 2);
    assert_eq!(report.cases[0].simfile_rel, "a/s.sm");
    assert_eq!(report.cases[0].status, "matched");
    let md5 = md5_hex(b"one");
    assert_eq!(
        report.cases[0].baseline_rel,
        Some(format!("{}/{md5}.json", &md5[0..2]))
    );
    let error = report.cases[1].error.clone().expect("an error");
    assert!(
        error.starts_with(&format!("zstd decode {} failed: ", place("two", ".json.zst"))),
        "{error}"
    );
    let error = report.cases[2].error.clone().expect("an error");
    assert!(error.starts_with("baseline json parse failed: "), "{error}");
}

#[test]
fn unreadable_files_are_told() {
    assert_eq!(
        read_baseline(&simple_path("b/x.json"), Err("denied".to_string())),
        Err("read baseline b/x.json failed: denied".to_string())
    );
    let entries = vec![WalkEntry {
        path: simple_path("packs/gone.sm"),
        is_file: true,
    }];
    let files = Files {
        read: |_: &SimPath| Err::<Vec<u8>, String>("gone".to_string()),
        below_baseline: |rel: &str| simple_path(rel),
        exists: |_: &SimPath| false,
    };
    let report = run("0", &cmd(true), RootKind::Directory, &entries, &files, &judge())
        .expect("run parity");
    assert_eq!(report.read_errors, 1);
    assert_eq!(report.cases[0].status, "read_error");
    assert_eq!(
        report.cases[0].error,
        Some("read simfile failed: gone".to_string())
    );
    assert_eq!(report.cases[0].baseline_rel, None);
    assert_eq!(
        run("0", &cmd(true), RootKind::Neither, &entries, &files, &judge()).err(),
        Some("root path does not exist: packs".to_string())
    );
}

/// A disk with a simfile for each baseline.
fn disk_with(baselines: &[&str]) -> BTreeMap<String, Vec<u8>> {
    let mut disk = BTreeMap::new();
    for (i, baseline) in baselines.iter().enumerate() {
        let body = format!("body {i}");
        let md5 = md5_hex(body.as_bytes());
        disk.insert(format!("packs/{i}/s.sm"), body.into_bytes());
        disk.insert(
            format!("baseline/{}/{md5}.json", &md5[0..2]),
            baseline.as_bytes().to_vec(),
        );
    }
    disk
}

#[test]
fn biases_are_held_against_baseline_rows() {
    let disk = disk_with(&[
        r#"{"charts":[{"chart_index":null,"bias_ms":9.005},{"chart_index":2,"bias_ms":10.995}]}"#,
        r#"{"charts":[{"chart_index":null,"bias_ms":9.005},{"chart_index":2,"bias_ms":9.0}]}"#,
        r#"{"charts":[{"chart_index":2},{"chart_index":7}]}"#,
        r#"{"charts":[{"chart_index":7,"bias_ms":16.0},{"chart_index":0,"bias_ms":9.0}]}"#,
        r#"{"charts":[{"chart_index":7,"bias_ms":16.0},{"chart_index":0,"bias_ms":0.0}]}"#,
    ]);
    let report = run_on(&disk, &cmd(true)).expect("run parity");
    let told: Vec<(&str, Option<&str>)> = report
        .cases
        .iter()
        .map(|c| (c.status.as_str(), c.error.as_deref()))
        .collect();
    assert_eq!(
        told,
        vec![
            ("matched", None),
            ("mismatched", None),
            ("matched", None),
            ("native_error", Some("no audio")),
            ("mismatched", None),
        ]
    );
    assert_eq!(report.matched, 2);
    assert_eq!(report.mismatched, 2);
    let counted = report.matched
        + report.mismatched
        + report.missing_baseline
        + report.invalid_baseline
        + report.read_errors;
    assert_eq!(counted + 1, report.total_simfiles);
}

#[test]
fn biases_agree_within_the_tolerance() {
    let agree = |a: f64, b: f64| biases_agree(&numerics(), num(a), num(b));
    assert!(agree(0.0, 0.01) && agree(0.01, 0.0));
    assert!(agree(9.0, 9.0) && agree(-0.0, 0.0));
    assert!(!agree(0.0, 0.010_000_1) && !agree(0.010_000_1, 0.0));
    assert!(!agree(-9.0, 9.0));
    assert!(!agree(f64::NAN, 9.0) && !agree(f64::NAN, f64::NAN));
    assert!(!agree(f64::INFINITY, f64::INFINITY));
}

#[test]
fn mismatches_fail_where_they_are_asked_to() {
    let far = r#"{"charts":[{"chart_index":0,"bias_ms":0.0}]}"#;
    let report = run_on(&disk_with(&[far, far]), &cmd(true)).expect("run parity");
    assert_eq!(report.matched, 0);
    assert_eq!(report.mismatched, 2);
    let mut strict = cmd(true);
    strict.fail_on_mismatch = true;
    assert_eq!(
        parity_verdict(&strict, &report),
        Err("found 2 parity mismatch case(s)".to_string())
    );
    assert_eq!(parity_verdict(&cmd(true), &report), Ok(()));
}

#[test]
fn rows_match_where_they_are_close() {
    let failed = |e: &str| RowFate::Failed(e.to_string());
    let close = || vec![RowFate::Close, RowFate::Silent];
    assert_eq!(rows_verdict(&Vec::new()), ("matched", None));
    assert_eq!(rows_verdict(&close()), ("matched", None));
    let mut fates = close();
    fates.push(failed("a"));
    fates.push(failed("b"));
    assert_eq!(rows_verdict(&fates), ("native_error", Some("a".to_string())));
    fates.push(RowFate::Far);
    assert_eq!(rows_verdict(&fates), ("mismatched", None));
}

fn song(own_timing: &[bool]) -> SongSummary {
    let charts = own_timing
        .iter()
        .map(|own| ChartInfo {
            step_type: "dance-single".to_string(),
            difficulty: "Hard".to_string(),
            description: String::new(),
            has_own_timing: *own,
        })
        .collect();
    SongSummary {
        title: "T".to_string(),
        subtitle: String::new(),
        artist: String::new(),
        music_path: " whole.ogg ".to_string(),
        charts,
    }
}

fn row(chart_index: Option<usize>, music: Option<&str>) -> BaselineRow {
    BaselineRow {
        chart_index,
        music: music.map(str::to_string),
        bias_ms: None,
    }
}

#[test]
fn rows_are_about_charts() {
    let of = |own: &[bool], i: Option<usize>| chart_of_row(&song(own), &row(i, None));
    assert_eq!(of(&[true, true, false, false], None), Ok(2));
    assert_eq!(of(&[false, true], Some(1)), Ok(1));
    assert_eq!(of(&[false], Some(1)), Err("chart index out of range: 1".to_string()));
    assert_eq!(
        of(&[true], None),
        Err("no chart goes by the timing of the simfile".to_string())
    );
}

#[test]
fn split_music_is_followed() {
    let simfile = simple_path("packs/a/s.ssc");
    let lookup = |tag: &str| Some(simple_path(&format!("packs/a/{tag}")));
    let decode = |path: &SimPath| {
        if path.text.contains("gone") {
            return Err("gone".to_string());
        }
        Ok(OggDecode {
            sample_rate_hz: path.text.len() as u32,
            mono: Vec::new(),
        })
    };
    let estimate = |i: usize, audio: &OggDecode| {
        Ok(BiasEstimate {
            bias_ms: num(f64::from(audio.sample_rate_hz) + 100.0 * i as f64),
            confidence: num(1.0),
            conv_quint: num(0.0),
            conv_stdev: num(0.0),
        })
    };
    let of = |i: Option<usize>, music: Option<&str>| {
        let song = song(&[false, true]);
        native_bias(&simfile, &song, &row(i, music), &lookup, &decode, &estimate)
    };
    assert_eq!(of(None, None), Ok(num("packs/a/whole.ogg".len() as f64)));
    assert_eq!(of(Some(1), Some("x.ogg")), Ok(num(100.0 + "packs/a/x.ogg".len() as f64)));
    assert_eq!(of(Some(1), Some("gone.ogg")), Err("gone".to_string()));
    assert_eq!(
        of(Some(1), Some("x.mp3")),
        Err("unsupported audio format packs/a/x.mp3".to_string())
    );
    assert_eq!(of(Some(2), None), Err("chart index out of range: 2".to_string()));
}

#[test]
fn candidates_of_a_digest() {
    assert_eq!(
        baseline_candidates("ffee"),
        ("ff/ffee.json".to_string(), "ff/ffee.json.zst".to_string())
    );
}
