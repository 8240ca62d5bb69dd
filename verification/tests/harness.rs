use null_or_die::fs_scan::{md5_hex, RootKind, WalkEntry};
use null_or_die::harness::{
    canonical_json, end_line, fixture_rel_for_md5, pack_fixture, python_args, python_outcome,
    resolve_source_root, run, run_one, scratch_dir_name, trim_text, FixtureEvent, FixtureStep,
    HarnessCmd, PyArg, SourceRoot, PY_REF_SCRIPT,
};
use null_or_die::model::{HarnessCase, ProcessOutput};
use null_or_die::parity::read_baseline;
use null_or_die::paths::{PartKind, PathPart, SimPath};

fn simple_path(text: &str) -> SimPath {
    let names: Vec<&str> = text.split('/').collect();
    let parts = names
        .iter()
        .map(|n| PathPart {
            kind: PartKind::Name,
            bytes: n.as_bytes().to_vec(),
        })
        .collect();
    let tails = (0..=names.len()).map(|i| names[i..].join("/")).collect();
    SimPath {
        text: text.to_string(),
        ext: text.rsplit_once('.').map(|(_, e)| e.to_string()),
        parts,
        tails,
    }
}

fn cmd() -> HarnessCmd {
    HarnessCmd {
        root_path: simple_path("packs"),
        baseline_path: simple_path("baseline"),
        python_bin: "python3".to_string(),
        overwrite: false,
        zstd_level: 19,
        consider_null: true,
        consider_p9ms: false,
        tolerance: "4".to_string(),
        fingerprint_ms: "50".to_string(),
        window_ms: "10".to_string(),
        step_ms: "0.2".to_string(),
        magic_offset_ms: "0".to_string(),
        kernel_target: "digest".to_string(),
        kernel_type: "rising".to_string(),
        full_spectrogram: false,
    }
}

fn done(stdout: &str) -> Result<ProcessOutput, String> {
    Ok(ProcessOutput {
        success: true,
        code: Some(0),
        stdout: stdout.as_bytes().to_vec(),
        stderr: String::new(),
    })
}

#[test]
fn fixture_path_shards_and_compresses() {
    let rel = fixture_rel_for_md5("abcdef0123456789abcdef0123456789");
    assert_eq!(rel, "ab/abcdef0123456789abcdef0123456789.json.zst");
}

#[test]
fn python_fixture_rows_include_music_tag() {
    assert!(PY_REF_SCRIPT.contains("\"music\": base_music"));
    assert!(PY_REF_SCRIPT.contains("\"music\": chart.get(\"MUSIC\") or base_music"));
}

#[test]
fn json_is_brought_into_one_form() {
    let raw = b"{ \"b\": [1, 2.50],\n \"a\": \"\\u00e9\" }".to_vec();
    let line = canonical_json(raw).expect("valid JSON");
    assert_eq!(
        String::from_utf8(line).expect("text"),
        "{\"a\":\"\u{e9}\",\"b\":[1,2.5]}\n"
    );
    let error = canonical_json(b"{".to_vec()).expect_err("cut off");
    assert!(error.starts_with("python output is not valid JSON: "), "{error}");
    assert_eq!(end_line(b"{}".to_vec()), b"{}\n".to_vec());
}

#[test]
fn fixtures_are_read_back_from_their_streams() {
    let line = b"{\"charts\":[]}\n".to_vec();
    let stream = pack_fixture(&line, 19).expect("compressed");
    assert_ne!(stream, line);
    assert_eq!(
        read_baseline(&simple_path("b/ab/x.json.zst"), Ok(stream.clone())),
        Ok(line)
    );
    assert_eq!(
        read_baseline(&simple_path("b/ab/x.json"), Ok(stream.clone())),
        Ok(stream)
    );
}

#[test]
fn python_outcomes_are_told_apart() {
    assert_eq!(python_outcome("py", done("{}")), Ok(b"{}".to_vec()));
    assert_eq!(
        python_outcome("py", done("")),
        Err("python reference runner returned empty output".to_string())
    );
    assert_eq!(
        python_outcome("py", Err("no such file".to_string())),
        Err("failed to launch py: no such file".to_string())
    );
    let failed = |code: Option<i32>, stderr: &str| {
        python_outcome(
            "py",
            Ok(ProcessOutput {
                success: false,
                code,
                stdout: Vec::new(),
                stderr: stderr.to_string(),
            }),
        )
    };
    assert_eq!(failed(Some(2), "boom"), Err("python exit Some(2): boom".to_string()));
    assert_eq!(failed(Some(-9), ""), Err("python exit Some(-9): ".to_string()));
    assert_eq!(
        failed(Some(i32::MIN), ""),
        Err("python exit Some(-2147483648): ".to_string())
    );
    let long = "x".repeat(1201);
    assert_eq!(
        failed(None, &long),
        Err(format!("python exit None: {}...[truncated]", "x".repeat(1200)))
    );
}

#[test]
fn texts_are_cut_by_characters() {
    assert_eq!(trim_text("\u{e9}\u{e9}", 2), "\u{e9}\u{e9}");
    assert_eq!(trim_text("\u{e9}\u{e9}a", 2), "\u{e9}\u{e9}...[truncated]");
}

#[test]
fn arguments_of_the_python_program() {
    let shown = |with_source: bool| {
        python_args(&cmd(), with_source)
            .iter()
            .map(|a| match a {
                PyArg::Word(w) => w.clone(),
                PyArg::Script => "<script>".to_string(),
                PyArg::Simfile => "<simfile>".to_string(),
                PyArg::ReportDir => "<report>".to_string(),
                PyArg::SourceRoot => "<source>".to_string(),
            })
            .collect::<Vec<String>>()
            .join(" ")
    };
    let base = "<script> --simfile-path <simfile> --report-dir <report> --tolerance 4 \
--consider-null 1 --consider-p9ms 0 --fingerprint-ms 50 --window-ms 10 --step-ms 0.2 \
--magic-offset-ms 0 --kernel-target digest --kernel-type rising --full-spectrogram 0";
    assert_eq!(shown(false), base);
    assert_eq!(shown(true), format!("{base} --source-root <source>"));
}

#[test]
fn places_of_the_harness() {
    assert_eq!(resolve_source_root(true, true), SourceRoot::Given);
    assert_eq!(resolve_source_root(false, true), SourceRoot::Default);
    assert_eq!(resolve_source_root(false, false), SourceRoot::Unset);
    assert_eq!(scratch_dir_name(1700000000), "__null-or-die-harness-1700000000");
}

/// What the disk and the Python program do.
struct World {
    bytes: Result<Vec<u8>, String>,
    there: bool,
    report_dir: Result<(), String>,
    launched: fn() -> Result<ProcessOutput, String>,
    baseline_dir: Result<(), String>,
    write: Result<(), String>,
}

fn world() -> World {
    World {
        bytes: Ok(b"x".to_vec()),
        there: false,
        report_dir: Ok(()),
        launched: || done("{\"charts\": []}"),
        baseline_dir: Ok(()),
        write: Ok(()),
    }
}

impl World {
    /// Performs a step, and tells its name and what was written.
    fn perform(&self, step: &FixtureStep) -> (&'static str, FixtureEvent) {
        match step {
            FixtureStep::Read => ("read", FixtureEvent::Read(self.bytes.clone())),
            FixtureStep::Look { .. } => ("look", FixtureEvent::Looked(self.there)),
            FixtureStep::MakeReportDir { .. } => {
                ("report dir", FixtureEvent::Made(self.report_dir.clone()))
            }
            FixtureStep::RunPython { .. } => ("python", FixtureEvent::Ran((self.launched)())),
            FixtureStep::MakeBaselineDir { .. } => {
                ("baseline dir", FixtureEvent::Made(self.baseline_dir.clone()))
            }
            FixtureStep::Store { .. } => ("store", FixtureEvent::Stored(self.write.clone())),
            FixtureStep::Finished(_) => unreachable!(),
        }
    }

    /// The case of a simfile, the steps that led to it, and what was stored where.
    fn go(&self, cmd: &HarnessCmd) -> (HarnessCase, Vec<&'static str>, Vec<(String, Vec<u8>)>) {
        let mut step = FixtureStep::Read;
        let (mut names, mut stored) = (Vec::new(), Vec::new());
        loop {
            if let FixtureStep::Store { place, stream, .. } = &step {
                stored.push((place.clone(), stream.clone()));
            }
            if let FixtureStep::Finished(case) = step {
                return (case, names, stored);
            }
            let (name, event) = self.perform(&step);
            names.push(name);
            step = run_one(cmd, "a/s.sm", step, event);
        }
    }
}

#[test]
fn a_baseline_is_made_and_written() {
    let (case, steps, stored) = world().go(&cmd());
    let md5 = md5_hex(b"x");
    assert_eq!(case.status, "written");
    assert_eq!(case.simfile_rel, "a/s.sm");
    assert_eq!(case.simfile_md5, md5);
    assert_eq!(case.baseline_rel, fixture_rel_for_md5(&md5));
    assert_eq!(case.error, None);
    assert_eq!(
        steps,
        vec!["read", "look", "report dir", "python", "baseline dir", "store"]
    );
    assert_eq!(stored.len(), 1);
    assert_eq!(stored[0].0, case.baseline_rel);
    assert_eq!(
        read_baseline(&simple_path("x.json.zst"), Ok(stored[0].1.clone())),
        Ok(b"{\"charts\":[]}\n".to_vec())
    );
}

#[test]
fn existing_baselines_are_left_alone() {
    let mut there = world();
    there.there = true;
    let (case, steps, stored) = there.go(&cmd());
    assert_eq!(case.status, "skipped_existing");
    assert_eq!(case.error, None);
    assert_eq!(steps, vec!["read", "look"]);
    assert!(stored.is_empty());
    let mut again = cmd();
    again.overwrite = true;
    assert_eq!(there.go(&again).0.status, "written");
}

#[test]
fn faults_of_a_harness_run() {
    let fails = |world: World, error: &str, last: &str| {
        let (case, steps, stored) = world.go(&cmd());
        assert_eq!(case.status, "error");
        assert!(case.error.expect("an error").starts_with(error));
        assert_eq!(steps.last(), Some(&last));
        assert_eq!(stored.is_empty(), last != "store");
        (case.simfile_md5, case.baseline_rel)
    };
    let denied = World {
        bytes: Err("denied".to_string()),
        ..world()
    };
    assert_eq!(fails(denied, "denied", "read"), (String::new(), String::new()));
    let md5 = md5_hex(b"x");
    let told = (md5.clone(), fixture_rel_for_md5(&md5));
    let full = World {
        report_dir: Err("full".to_string()),
        ..world()
    };
    assert_eq!(fails(full, "full", "report dir"), told);
    let absent = World {
        launched: || Err("absent".to_string()),
        ..world()
    };
    fails(absent, "failed to launch python3: absent", "python");
    let odd = World {
        launched: || done("nope"),
        ..world()
    };
    assert_eq!(fails(odd, "python output is not valid JSON: ", "python"), told);
    let closed = World {
        baseline_dir: Err("read-only".to_string()),
        ..world()
    };
    fails(closed, "read-only", "baseline dir");
    let lost = World {
        write: Err("lost".to_string()),
        ..world()
    };
    assert_eq!(fails(lost, "lost", "store"), told);
}

#[test]
fn harness_reports_count_their_cases() {
    let entries: Vec<WalkEntry> = ["packs/a/s.sm", "packs/b/s.sm", "packs/c/s.sm"]
        .iter()
        .map(|t| WalkEntry {
            path: simple_path(t),
            is_file: true,
        })
        .collect();
    let mut run_all = run(cmd(), RootKind::Directory, &entries).expect("a run");
    let mut seen = Vec::new();
    while let Some(path) = run_all.current() {
        if let FixtureStep::Read = run_all.step {
            seen.push(path.text.clone());
        }
        let world = World {
            there: path.text.contains("/b/"),
            write: if path.text.contains("/c/") {
                Err("lost".to_string())
            } else {
                Ok(())
            },
            ..world()
        };
        let event = world.perform(&run_all.step).1;
        run_all = run_all.answer(event);
    }
    assert_eq!(seen, vec!["packs/a/s.sm", "packs/b/s.sm", "packs/c/s.sm"]);
    let source = Some("src".to_string());
    let report = run_all.report("9", &source, "scratch");
    assert_eq!(report.tool, "null-or-die");
    assert_eq!(report.mode, "python-reference-harness");
    assert_eq!(report.total_simfiles, 3);
    assert_eq!((report.written, report.skipped_existing, report.failed), (1, 1, 1));
    assert_eq!(report.cases[2].simfile_rel, "c/s.sm");
    assert_eq!(report.source_root, Some("src".to_string()));
    assert_eq!(report.scratch_path, "scratch");
    assert_eq!(
        run(cmd(), RootKind::Neither, &Vec::new()).err(),
        Some("root path does not exist: packs".to_string())
    );
}
